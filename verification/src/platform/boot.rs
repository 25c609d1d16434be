//! Platform boot fingerprint (`BootEpoch`) for resolving a stable `BootId`.
//!
//! Linux exposes a boot UUID under `/proc`, macOS through `sysctl`. The
//! program around the library reads them; here they become an epoch.

use crate::model::boot::BootEpoch;
use crate::text::chars_of;
use vstd::prelude::*;

verus! {

/// Why no epoch could be told.
#[derive(Debug, Clone, Copy, PartialEq, Eq, Structural)]
pub enum BootError {
    /// The system gave no answer.
    Unavailable,
    /// The text is no 128-bit UUID.
    Malformed,
}

/// Supplies the platform boot fingerprint. Resolution to a stable `BootId`
/// (and any persistence) is left to the caller.
pub trait BootIdentityProvider {
    /// The epoch that the provider's readings amount to.
    spec fn epoch(&self) -> Result<BootEpoch, BootError>;

    fn current_boot_epoch(&self) -> (r: Result<BootEpoch, BootError>)
        ensures
            r == self.epoch(),
    ;
}

/// What the system said about the current boot.
#[derive(Debug, Clone)]
pub enum SystemBoot {
    /// Linux: the content of `/proc/sys/kernel/random/boot_id`.
    Linux { boot_id: Option<String> },
    /// macOS: `kern.bootsessionuuid` and `kern.boottime`.
    Macos { uuid: Option<String>, boottime: Option<(i64, i32)> },
}

pub open spec fn is_hex(c: char) -> bool {
    ('0' <= c <= '9') || ('a' <= c <= 'f') || ('A' <= c <= 'F')
}

pub open spec fn hex_digit_value(c: char) -> nat {
    if '0' <= c <= '9' {
        (c as int - 48) as nat
    } else if 'a' <= c <= 'f' {
        (c as int - 87) as nat
    } else {
        (c as int - 55) as nat
    }
}

/// The hexadecimal digits of a text, everything else left out.
pub open spec fn hex_digits(s: Seq<char>) -> Seq<char>
    decreases s.len(),
{
    if s.len() == 0 {
        Seq::empty()
    } else if is_hex(s.last()) {
        hex_digits(s.drop_last()).push(s.last())
    } else {
        hex_digits(s.drop_last())
    }
}

pub open spec fn hex_value(d: Seq<char>) -> nat
    decreases d.len(),
{
    if d.len() == 0 {
        0
    } else {
        hex_value(d.drop_last()) * 16 + hex_digit_value(d.last())
    }
}

/// The 128-bit number that a UUID with or without hyphens denotes.
pub open spec fn boot_uuid(s: Seq<char>) -> Option<nat> {
    let d = hex_digits(s);
    if d.len() == 32 {
        Some(hex_value(d))
    } else {
        None
    }
}

pub open spec fn pow16(n: nat) -> nat
    decreases n,
{
    if n == 0 {
        1
    } else {
        16 * pow16((n - 1) as nat)
    }
}

proof fn hex_value_bound(d: Seq<char>)
    requires
        forall|i: int| 0 <= i < d.len() ==> is_hex(#[trigger] d[i]),
    ensures
        hex_value(d) < pow16(d.len()),
    decreases d.len(),
{
    if d.len() > 0 {
        let rest = d.drop_last();
        assert(forall|i: int| 0 <= i < rest.len() ==> rest[i] == d[i]);
        hex_value_bound(rest);
        assert(is_hex(d[d.len() - 1]));
    }
}

proof fn hex_digits_are_hex(s: Seq<char>)
    ensures
        forall|i: int| 0 <= i < hex_digits(s).len() ==> is_hex(#[trigger] hex_digits(s)[i]),
    decreases s.len(),
{
    if s.len() > 0 {
        hex_digits_are_hex(s.drop_last());
        let rest = hex_digits(s.drop_last());
        assert forall|i: int| 0 <= i < hex_digits(s).len() implies is_hex(
            #[trigger] hex_digits(s)[i],
        ) by {
            if i < rest.len() {
                assert(is_hex(rest[i]));
                assert(hex_digits(s)[i] == rest[i]);
            }
        }
    }
}

/// Parse a 128-bit UUID (Linux `boot_id`, macOS `bootsessionuuid`), hyphens
/// and line ends ignored, into an unsigned integer.
pub fn parse_boot_id(s: &str) -> (r: Result<u128, BootError>)
    ensures
        match boot_uuid(s@) {
            Some(n) => r is Ok && r->Ok_0 as nat == n,
            None => r == Err::<u128, BootError>(BootError::Malformed),
        },
{
    let v: Vec<char> = chars_of(s);
    let mut digits: Vec<char> = Vec::new();
    let mut i: usize = 0;
    assert(v@.take(0) =~= Seq::<char>::empty());
    assert(digits@ =~= Seq::<char>::empty());
    while i < v.len()
        invariant
            i <= v.len(),
            digits@ == hex_digits(v@.take(i as int)),
        decreases v.len() - i,
    {
        let c: char = v[i];
        assert(v@.take(i + 1).drop_last() =~= v@.take(i as int));
        if ('0' <= c && c <= '9') || ('a' <= c && c <= 'f') || ('A' <= c && c <= 'F') {
            digits.push(c);
        }
        i += 1;
    }
    assert(v@.take(v@.len() as int) =~= v@);
    if digits.len() != 32 {
        return Err(BootError::Malformed);
    }
    proof {
        hex_digits_are_hex(s@);
        reveal_with_fuel(pow16, 33);
    }
    let mut n: u128 = 0;
    let mut i: usize = 0;
    let ghost d = digits@;
    assert(d.take(0) =~= Seq::<char>::empty());
    while i < 32
        invariant
            i <= 32,
            digits.len() == 32,
            d == digits@,
            pow16(32) == 0x1_0000_0000_0000_0000_0000_0000_0000_0000,
            forall|k: int| 0 <= k < 32 ==> is_hex(#[trigger] d[k]),
            n as nat == hex_value(d.take(i as int)),
        decreases 32 - i,
    {
        let c: char = digits[i];
        assert(is_hex(d[i as int]));
        let k: u128 = if '0' <= c && c <= '9' {
            (c as u128) - 48
        } else if 'a' <= c && c <= 'f' {
            (c as u128) - 87
        } else {
            (c as u128) - 55
        };
        proof {
            let t = d.take(i + 1);
            assert(t.drop_last() =~= d.take(i as int));
            assert(t.last() == c);
            hex_value_bound(t);
            pow16_grows((i + 1) as nat, 32);
        }
        n = n * 16 + k;
        i += 1;
    }
    assert(d.take(32) =~= d);
    Ok(n)
}

proof fn pow16_grows(i: nat, j: nat)
    requires
        i <= j,
    ensures
        pow16(i) <= pow16(j),
    decreases j,
{
    if i < j {
        pow16_grows(i, (j - 1) as nat);
    }
}

/// What the content of the Linux boot id file amounts to.
pub open spec fn linux_epoch(boot_id: Option<Seq<char>>) -> Result<BootEpoch, BootError> {
    match boot_id {
        None => Err(BootError::Unavailable),
        Some(s) => match boot_uuid(s) {
            Some(n) => Ok(BootEpoch::Linux(n as u128)),
            None => Err(BootError::Malformed),
        },
    }
}

/// The stable per-boot UUID where macOS gives a valid one; the clock-derived
/// boot time otherwise.
pub open spec fn macos_epoch(uuid: Option<Seq<char>>, boottime: Option<(i64, i32)>) -> Result<
    BootEpoch,
    BootError,
> {
    let stable = match uuid {
        Some(s) => boot_uuid(s),
        None => None,
    };
    match stable {
        Some(n) => Ok(BootEpoch::MacosUuid(n as u128)),
        None => match boottime {
            Some((sec, usec)) => Ok(BootEpoch::Macos { sec, usec }),
            None => Err(BootError::Unavailable),
        },
    }
}

impl BootIdentityProvider for SystemBoot {
    open spec fn epoch(&self) -> Result<BootEpoch, BootError> {
        match self {
            SystemBoot::Linux { boot_id } => linux_epoch(crate::text::text_of(*boot_id)),
            SystemBoot::Macos { uuid, boottime } => macos_epoch(
                crate::text::text_of(*uuid),
                *boottime,
            ),
        }
    }

    fn current_boot_epoch(&self) -> (r: Result<BootEpoch, BootError>) {
        match self {
            SystemBoot::Linux { boot_id } => match boot_id {
                None => Err(BootError::Unavailable),
                Some(s) => match parse_boot_id(s.as_str()) {
                    Ok(n) => Ok(BootEpoch::Linux(n)),
                    Err(e) => Err(e),
                },
            },
            SystemBoot::Macos { uuid, boottime } => {
                if let Some(s) = uuid {
                    if let Ok(n) = parse_boot_id(s.as_str()) {
                        return Ok(BootEpoch::MacosUuid(n));
                    }
                }
                match boottime {
                    Some((sec, usec)) => Ok(BootEpoch::Macos { sec: *sec, usec: *usec }),
                    None => Err(BootError::Unavailable),
                }
            },
        }
    }
}

/// A clock adjustment never reads as a new boot where the stable UUID is
/// known: the epoch does not depend on the boot time then.
pub proof fn stable_uuid_ignores_the_clock(
    uuid: Seq<char>,
    a: Option<(i64, i32)>,
    b: Option<(i64, i32)>,
)
    requires
        boot_uuid(uuid) is Some,
    ensures
        macos_epoch(Some(uuid), a) == macos_epoch(Some(uuid), b),
        macos_epoch(Some(uuid), a) is Ok,
        macos_epoch(Some(uuid), a)->Ok_0 is MacosUuid,
{
}

proof fn fixed_hex_is_hex(n: nat, width: nat)
    requires
        n < pow16(width),
    ensures
        crate::text::hex_fixed(n, width).len() == width,
        hex_digits(crate::text::hex_fixed(n, width)) == crate::text::hex_fixed(n, width),
        hex_value(crate::text::hex_fixed(n, width)) == n,
    decreases width,
{
    if width > 0 {
        let rest = crate::text::hex_fixed(n / 16, (width - 1) as nat);
        let c = crate::text::hex_digit(n % 16);
        let all = crate::text::hex_fixed(n, width);
        assert(n / 16 < pow16((width - 1) as nat)) by (nonlinear_arith)
            requires
                n < 16 * pow16((width - 1) as nat),
        ;
        fixed_hex_is_hex(n / 16, (width - 1) as nat);
        assert(all.drop_last() =~= rest);
        assert(all.last() == c);
        assert(is_hex(c) && hex_digit_value(c) == n % 16);
        assert(hex_digits(all) =~= all);
        assert((n / 16) * 16 + n % 16 == n);
    }
}

/// A boot id written in hexadecimal is read back as that number.
pub proof fn a_written_boot_id_reads_back(n: nat)
    requires
        n < pow16(32),
    ensures
        boot_uuid(crate::text::hex_fixed(n, 32)) == Some(n),
{
    fixed_hex_is_hex(n, 32);
}

/// What is no hexadecimal digit, a hyphen say, does not count; the digits
/// count in both cases.
pub proof fn only_hexadecimal_digits_count(s: Seq<char>)
    ensures
        hex_digits(s) == s.filter(
            |c: char| ('0' <= c <= '9') || ('a' <= c <= 'f') || ('A' <= c <= 'F'),
        ),
        forall|c: char|
            'a' <= c <= 'f' ==> #[trigger] hex_digit_value(c) == c as int - 87 && hex_digit_value(
                ((c as int) - 32) as char,
            ) == c as int - 87,
    decreases s.len(),
{
    reveal(Seq::filter);
    if s.len() > 0 {
        only_hexadecimal_digits_count(s.drop_last());
    }
}

/// A boot id with any other number of digits is malformed, and without one
/// nothing is known.
pub proof fn a_boot_id_has_thirty_two_digits(s: Seq<char>)
    ensures
        hex_digits(s).len() != 32 ==> linux_epoch(Some(s)) == Err::<BootEpoch, BootError>(
            BootError::Malformed,
        ),
        hex_digits(s).len() == 32 ==> linux_epoch(Some(s)) == Ok::<BootEpoch, BootError>(
            BootEpoch::Linux(hex_value(hex_digits(s)) as u128),
        ),
        linux_epoch(None) == Err::<BootEpoch, BootError>(BootError::Unavailable),
{
}

} // verus!
