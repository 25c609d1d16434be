//! Boot identity and the platform boot fingerprint it resolves from.
//!
//! A `ProcessIdentity` is only meaningful while the machine boot it belongs
//! to is unambiguous. `pid`/`start_time` alone collide across reboots, so
//! every identity carries a `BootId`.

use crate::bytes;
use crate::bytes::{extend, le_bytes_of};
use crate::text;
use crate::text::hex_of;
use vstd::prelude::*;

verus! {

/// Stable identity of one machine boot.
///
/// Disambiguates identical PID/start-time combinations across reboots.
#[derive(Debug, Clone, Copy, PartialEq, Eq, Hash, Structural)]
pub struct BootId(u128);

impl View for BootId {
    type V = u128;

    closed spec fn view(&self) -> u128 {
        self.0
    }
}

impl BootId {
    pub fn from_u128(id: u128) -> (r: Self)
        ensures
            r@ == id,
    {
        BootId(id)
    }

    pub fn as_u128(self) -> (r: u128)
        ensures
            r == self@,
    {
        self.0
    }

    pub fn from_le_bytes(b: [u8; 16]) -> (r: Self)
        ensures
            r@ as nat == bytes::le_value(b@),
    {
        let mut n: u128 = 0;
        let mut i: usize = 16;
        proof {
            bytes::range_of_sixteen();
        }
        assert(b@.skip(16).len() == 0);
        while i > 0
            invariant
                i <= 16,
                b@.len() == 16,
                n as nat == bytes::le_value(b@.skip(i as int)),
                bytes::byte_range(16) == 0x1_0000_0000_0000_0000_0000_0000_0000_0000,
            decreases i,
        {
            let ghost rest = b@.skip(i - 1);
            assert(rest.skip(1) =~= b@.skip(i as int));
            proof {
                bytes::le_bytes_of_value(rest);
                byte_range_grows(rest.len(), 16);
            }
            assert(bytes::le_value(rest) == b@[i - 1] as nat + 256 * n as nat);
            n = n * 256 + (b[i - 1] as u128);
            i -= 1;
        }
        assert(b@.skip(0) =~= b@);
        BootId(n)
    }

    /// Fresh, best-effort-unique id. Not security-critical: uniqueness across
    /// a machine's boots is all that matters. `entropy` is what the system's
    /// random source gave; without it the clock and the process make the id.
    pub fn random(entropy: Option<[u8; 16]>, nanos: u64, pid: u32) -> (r: Self)
        ensures
            match entropy {
                Some(b) => r@ as nat == bytes::le_value(b@),
                None => r@ as nat == Self::seed(nanos, pid) * 0x1_0000_0000_0000_0001,
            },
    {
        match entropy {
            Some(b) => Self::from_le_bytes(b),
            None => {
                let seed: u64 = nanos ^ ((pid as u64) << 32);
                BootId(seed as u128 * 0x1_0000_0000_0000_0001)
            },
        }
    }

    /// The clock and the process in one number.
    pub open spec fn seed(nanos: u64, pid: u32) -> nat {
        (nanos ^ ((pid as u64) << 32)) as nat
    }

    pub fn to_le_bytes(self) -> (b: [u8; 16])
        ensures
            b@ == bytes::le_bytes(self@ as nat, 16),
    {
        let v: Vec<u8> = le_bytes_of(self.0, 16);
        let b: [u8; 16] = [
            v[0],
            v[1],
            v[2],
            v[3],
            v[4],
            v[5],
            v[6],
            v[7],
            v[8],
            v[9],
            v[10],
            v[11],
            v[12],
            v[13],
            v[14],
            v[15],
        ];
        assert(b@ =~= v@);
        b
    }

    /// The id as 32 hexadecimal digits.
    pub fn to_text(self) -> (s: String)
        ensures
            s@ == text::hex_fixed(self@ as nat, 32),
    {
        hex_of(self.0, 32)
    }
}

proof fn byte_range_grows(i: nat, j: nat)
    requires
        i <= j,
    ensures
        bytes::byte_range(i) <= bytes::byte_range(j),
    decreases j,
{
    if i < j {
        byte_range_grows(i, (j - 1) as nat);
    }
}

/// A boot id written as bytes and read back is the same id.
pub proof fn boot_id_bytes_round_trip(id: BootId)
    ensures
        bytes::le_value(bytes::le_bytes(id@ as nat, 16)) == id@ as nat,
{
    bytes::range_of_sixteen();
    bytes::le_round_trip(id@ as nat, 16);
}

/// Platform boot fingerprint for the current boot.
///
/// Not itself a stable `BootId`: a per-boot UUID is stable and used directly;
/// macOS's `kern.boottime` is a timestamp that can collide and must be mapped
/// to a persisted UUID.
#[derive(Debug, Clone, Copy, PartialEq, Eq, Hash, Structural)]
pub enum BootEpoch {
    /// Linux `/proc/sys/kernel/random/boot_id`, as an unsigned 128-bit int.
    Linux(u128),
    /// macOS `kern.bootsessionuuid`, stable for one boot.
    MacosUuid(u128),
    /// macOS `kern.boottime`: seconds and microseconds since the Unix epoch.
    Macos { sec: i64, usec: i32 },
}

/// How an epoch becomes a `BootId`.
#[derive(Debug, Clone, Copy, PartialEq, Eq, Structural)]
pub enum BootResolution {
    /// The epoch is a stable per-boot UUID: this is the id.
    Direct(BootId),
    /// The epoch needs the persisted mapping.
    Persisted(BootEpoch),
}

impl BootEpoch {
    /// The id of this epoch when it carries one itself.
    pub open spec fn own_uuid(self) -> Option<u128> {
        match self {
            BootEpoch::Linux(id) => Some(id),
            BootEpoch::MacosUuid(id) => Some(id),
            BootEpoch::Macos { .. } => None,
        }
    }

    /// What it takes to resolve this epoch to a stable `BootId`.
    ///
    /// Per-boot UUIDs are used directly. A macOS boot time needs the persisted
    /// UUID for that epoch; the mapping is never consulted otherwise.
    pub fn resolution(self) -> (r: BootResolution)
        ensures
            match (self.own_uuid(), r) {
                (Some(id), BootResolution::Direct(b)) => b@ == id,
                (None, BootResolution::Persisted(e)) => e == self,
                _ => false,
            },
    {
        match self {
            BootEpoch::Linux(id) => BootResolution::Direct(BootId::from_u128(id)),
            BootEpoch::MacosUuid(id) => BootResolution::Direct(BootId::from_u128(id)),
            BootEpoch::Macos { .. } => BootResolution::Persisted(self),
        }
    }

    /// Resolve this epoch to a stable `BootId`. `persisted` is what the
    /// mapping holds for it and is read for a macOS boot time only.
    pub fn to_boot_id<E>(self, persisted: Result<BootId, E>) -> (r: Result<BootId, E>)
        ensures
            match self.own_uuid() {
                Some(id) => r is Ok && r->Ok_0@ == id,
                None => r == persisted,
            },
    {
        match self.resolution() {
            BootResolution::Direct(id) => Ok(id),
            BootResolution::Persisted(_) => persisted,
        }
    }

    /// The canonical byte form: a tag, then the payload, little-endian.
    pub open spec fn byte_form(self) -> Seq<u8> {
        match self {
            BootEpoch::Linux(id) => seq![0u8] + bytes::le_bytes(id as nat, 16),
            BootEpoch::Macos { sec, usec } => seq![1u8] + bytes::le_bytes(twos(sec as int, 64), 8)
                + bytes::le_bytes(twos(usec as int, 32), 4),
            BootEpoch::MacosUuid(id) => seq![2u8] + bytes::le_bytes(id as nat, 16),
        }
    }

    /// Canonical byte form for persistence (tag + payload, little-endian).
    pub fn to_bytes(self) -> (v: Vec<u8>)
        ensures
            v@ == self.byte_form(),
    {
        let mut v: Vec<u8> = Vec::new();
        match self {
            BootEpoch::Linux(id) => {
                v.push(0);
                let b: Vec<u8> = le_bytes_of(id, 16);
                extend(&mut v, b.as_slice());
                assert(v@ =~= seq![0u8] + bytes::le_bytes(id as nat, 16));
            },
            BootEpoch::Macos { sec, usec } => {
                v.push(1);
                let s: u128 = if sec < 0 {
                    (0x1_0000_0000_0000_0000i128 + sec as i128) as u128
                } else {
                    sec as u128
                };
                let u: u128 = if usec < 0 {
                    (0x1_0000_0000i128 + usec as i128) as u128
                } else {
                    usec as u128
                };
                let b: Vec<u8> = le_bytes_of(s, 8);
                let c: Vec<u8> = le_bytes_of(u, 4);
                extend(&mut v, b.as_slice());
                extend(&mut v, c.as_slice());
                assert(v@ =~= seq![1u8] + bytes::le_bytes(s as nat, 8) + bytes::le_bytes(u as nat, 4));
            },
            BootEpoch::MacosUuid(id) => {
                v.push(2);
                let b: Vec<u8> = le_bytes_of(id, 16);
                extend(&mut v, b.as_slice());
                assert(v@ =~= seq![2u8] + bytes::le_bytes(id as nat, 16));
            },
        }
        v
    }
}

/// The two's complement of `n` in 64 or 32 bits.
pub open spec fn twos(n: int, bits: nat) -> nat {
    if n >= 0 {
        n as nat
    } else if bits == 64 {
        (0x1_0000_0000_0000_0000 + n) as nat
    } else {
        (0x1_0000_0000 + n) as nat
    }
}

} // verus!
