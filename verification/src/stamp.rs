//! RFC 3339 time stamps.

use crate::bytes;
use crate::text;
use crate::text::{dec_padded_of, parse_signed, string_from};
use crate::time;
use crate::time::civil_from_days;
use vstd::prelude::*;

verus! {

/// A date and a time of day spelled out, without a zone.
pub open spec fn clock_text(y: int, m: int, d: int, rest: int) -> Seq<char> {
    text::dec_padded(y as nat, 4) + "-"@ + text::dec_padded(m as nat, 2) + "-"@ + text::dec_padded(
        d as nat,
        2,
    ) + "T"@ + text::dec_padded((rest / 3600) as nat, 2) + ":"@ + text::dec_padded(
        (rest % 3600 / 60) as nat,
        2,
    ) + ":"@ + text::dec_padded((rest % 60) as nat, 2)
}

/// A moment spelled out in UTC.
pub open spec fn stamp_text(y: int, m: int, d: int, rest: int) -> Seq<char> {
    clock_text(y, m, d, rest) + "Z"@
}

/// The last second of the year 9999.
pub const LAST_STAMP: u64 = 253_402_300_799;

/// Unix seconds → `YYYY-MM-DDTHH:MM:SSZ`. Read again, the stamp is the same
/// moment up to the end of the year 9999.
pub fn rfc3339(secs: u64) -> (r: String)
    ensures
        forall|y: int, m: int, d: int|
            time::is_date(y, m, d) && #[trigger] time::day_number(y, m, d) == secs as int / 86400
                ==> r@ == stamp_text(y, m, d, secs as int % 86400),
        exists|y: int, m: int, d: int|
            time::is_date(y, m, d) && #[trigger] time::day_number(y, m, d) == secs as int / 86400,
        secs <= LAST_STAMP ==> stamp_secs(bytes::utf8(r@)) == secs,
{
    let days: i64 = (secs / 86400) as i64;
    let rest: u64 = secs % 86400;
    let (y, m, d): (i64, i64, i64) = civil_from_days(days);
    proof {
        time::years_from_the_epoch(y as int, m as int, d as int);
        assert forall|y2: int, m2: int, d2: int|
            time::is_date(y2, m2, d2) && #[trigger] time::day_number(y2, m2, d2) == secs as int
                / 86400 implies y2 == y && m2 == m && d2 == d by {
            time::date_is_unique(y as int, m as int, d as int, y2, m2, d2);
        }
        if secs <= LAST_STAMP {
            time::years_of_four_digits(y as int, m as int, d as int);
            stamp_reads_back(y as int, m as int, d as int, secs as int % 86400);
        }
    }
    dec_padded_of(y as u64, 4).concat("-").concat(dec_padded_of(m as u64, 2).as_str()).concat(
        "-",
    ).concat(dec_padded_of(d as u64, 2).as_str()).concat("T").concat(
        dec_padded_of(rest / 3600, 2).as_str(),
    ).concat(":").concat(dec_padded_of(rest % 3600 / 60, 2).as_str()).concat(":").concat(
        dec_padded_of(rest % 60, 2).as_str(),
    ).concat("Z")
}

/// Bytes as the characters with the same numbers.
pub open spec fn latin(b: Seq<u8>) -> Seq<char> {
    Seq::new(b.len(), |i: int| b[i] as char)
}

/// The number written in the bytes from `a` to `e`.
pub open spec fn field(b: Seq<u8>, a: int, e: int) -> Option<int> {
    if e <= b.len() {
        text::parsed_int(latin(b.subrange(a, e)), i64::MIN as int, i64::MAX as int)
    } else {
        None
    }
}

/// Days from 1970-01-01 to a date, also where the month is not one of the
/// twelve: such a month counts modulo twelve.
pub open spec fn stamp_days(y: int, mo: int, d: int) -> int {
    let y2 = if mo <= 2 {
        y - 1
    } else {
        y
    };
    (y2 / 400) * 146_097 + (y2 % 400) * 365 + (y2 % 400) / 4 - (y2 % 400) / 100 + (153 * ((mo + 9)
        % 12) + 2) / 5 + d - 1 - 719_468
}

/// What follows a fraction of a second.
pub open spec fn past_fraction(b: Seq<u8>) -> Seq<u8>
    decreases b.len(),
{
    if b.len() > 0 && ((48 <= b[0] && b[0] <= 57) || b[0] == 46) {
        past_fraction(b.skip(1))
    } else {
        b
    }
}

/// Seconds by which a zone is ahead of UTC; an unreadable one counts as UTC.
pub open spec fn zone_offset(z: Seq<u8>) -> int {
    if z.len() > 0 && (z[0] == 43 || z[0] == 45) {
        match (field(z, 1, 3), field(z, 4, 6)) {
            (Some(h), Some(m)) => if z[0] == 43 {
                h * 3600 + m * 60
            } else {
                -(h * 3600 + m * 60)
            },
            _ => 0,
        }
    } else {
        0
    }
}

/// The Unix seconds that a time stamp denotes, zero for garbage and for
/// anything before 1970.
pub open spec fn stamp_secs(b: Seq<u8>) -> int {
    match (field(b, 0, 4), field(b, 5, 7), field(b, 8, 10), field(b, 11, 13), field(b, 14, 16), field(
        b,
        17,
        19,
    )) {
        (Some(y), Some(mo), Some(d), Some(h), Some(mi), Some(s)) => {
            let t = stamp_days(y, mo, d) * 86_400 + h * 3_600 + mi * 60 + s - zone_offset(
                past_fraction(b.skip(19)),
            );
            if t > 0 {
                t
            } else {
                0
            }
        },
        _ => 0,
    }
}

fn read_field(b: &[u8], a: usize, e: usize) -> (r: Option<i64>)
    requires
        a <= e <= a + 4,
        e <= usize::MAX,
    ensures
        match r {
            Some(n) => field(b@, a as int, e as int) == Some(n as int) && -9999 <= n <= 9999,
            None => field(b@, a as int, e as int) is None,
        },
        e == a + 2 ==> (r is Some ==> -99 <= r->0 <= 99),
{
    if e > b.len() {
        return None;
    }
    let mut v: Vec<char> = Vec::new();
    let mut i: usize = a;
    assert(latin(b@.subrange(a as int, a as int)) =~= v@);
    while i < e
        invariant
            a <= i <= e <= b@.len(),
            v@ == latin(b@.subrange(a as int, i as int)),
        decreases e - i,
    {
        v.push(b[i] as char);
        i += 1;
        assert(v@ =~= latin(b@.subrange(a as int, i as int)));
    }
    let s: String = string_from(&v);
    proof {
        short_numbers(s@);
    }
    parse_signed(s.as_str(), i64::MIN, i64::MAX)
}

proof fn short_digits(d: Seq<char>)
    requires
        text::all_digits(d),
    ensures
        d.len() <= 4 ==> text::digits_value(d) <= 9999,
        d.len() <= 2 ==> text::digits_value(d) <= 99,
{
    reveal_with_fuel(text::digits_value, 5);
    let n = d.len();
    if n >= 1 {
        assert(text::is_digit(d[n - 1]));
        let a = d.drop_last();
        if n >= 2 {
            assert(text::is_digit(d[n - 2]));
            assert(a.last() == d[n - 2]);
            let b = a.drop_last();
            if n >= 3 {
                assert(text::is_digit(d[n - 3]));
                assert(b.last() == d[n - 3]);
                if n >= 4 {
                    assert(text::is_digit(d[n - 4]));
                    assert(b.drop_last().last() == d[n - 4]);
                }
            }
        }
    }
}

proof fn short_numbers(s: Seq<char>)
    ensures
        match text::parsed_int(s, i64::MIN as int, i64::MAX as int) {
            Some(n) => (s.len() <= 4 ==> -9999 <= n <= 9999) && (s.len() <= 2 ==> -99 <= n <= 99),
            None => true,
        },
{
    let d = if s.len() > 0 && (s[0] == '-' || s[0] == '+') {
        s.skip(1)
    } else {
        s
    };
    if text::all_digits(d) {
        short_digits(d);
    }
}

fn read_zone(b: &[u8], from: usize) -> (r: i64)
    requires
        from <= b@.len(),
    ensures
        r == zone_offset(past_fraction(b@.skip(from as int))),
        -362_340 <= r <= 362_340,
{
    let mut i: usize = from;
    while i < b.len() && ((48 <= b[i] && b[i] <= 57) || b[i] == 46)
        invariant
            from <= i <= b@.len(),
            past_fraction(b@.skip(from as int)) == past_fraction(b@.skip(i as int)),
        decreases b@.len() - i,
    {
        assert(b@.skip(i as int)[0] == b@[i as int]);
        assert(b@.skip(i as int).skip(1) =~= b@.skip(i + 1));
        i += 1;
    }
    let ghost z = b@.skip(i as int);
    if i < b.len() {
        assert(z[0] == b@[i as int]);
    }
    assert(past_fraction(z) == z);
    if i >= b.len() || (b[i] != 43 && b[i] != 45) {
        return 0;
    }
    if b.len() - i < 6 {
        assert(field(z, 4, 6) is None);
        return 0;
    }
    proof {
        assert(b@.subrange(i + 1, i + 3) =~= z.subrange(1, 3));
        assert(b@.subrange(i + 4, i + 6) =~= z.subrange(4, 6));
    }
    match (read_field(b, i + 1, i + 3), read_field(b, i + 4, i + 6)) {
        (Some(h), Some(m)) => if b[i] == 43 {
            h * 3600 + m * 60
        } else {
            -(h * 3600 + m * 60)
        },
        _ => 0,
    }
}

fn days_of(y: i64, mo: i64, d: i64) -> (r: i64)
    requires
        -9999 <= y <= 9999,
        -99 <= mo <= 99,
        -99 <= d <= 99,
    ensures
        r == stamp_days(y as int, mo as int, d as int),
        -10_000_000 <= r <= 10_000_000,
{
    let y2: i64 = if mo <= 2 {
        y - 1
    } else {
        y
    };
    // Years before year zero belong to the era before it.
    let era: i64 = if y2 >= 0 {
        y2 / 400
    } else {
        -((-(y2 + 1)) / 400) - 1
    };
    let yoe: i64 = y2 - era * 400;
    assert(era == y2 as int / 400 && yoe == y2 as int % 400);
    let month: i64 = (mo + 9 + 108) % 12;
    assert(month == (mo as int + 9) % 12);
    era * 146_097 + yoe * 365 + yoe / 4 - yoe / 100 + (153 * month + 2) / 5 + d - 1 - 719_468
}

/// Docker's RFC 3339 (`2024-01-02T15:04:05[.frac][Z|±hh:mm]`) → Unix seconds;
/// 0 on garbage.
pub fn parse_rfc3339(s: &str) -> (r: i64)
    ensures
        r == stamp_secs(bytes::utf8(s@)),
        r >= 0,
{
    let b: &[u8] = s.as_bytes();
    match (
        read_field(b, 0, 4),
        read_field(b, 5, 7),
        read_field(b, 8, 10),
        read_field(b, 11, 13),
        read_field(b, 14, 16),
        read_field(b, 17, 19),
    ) {
        (Some(y), Some(mo), Some(d), Some(h), Some(mi), Some(sec)) => {
            if b.len() < 19 {
                return 0;
            }
            let days: i64 = days_of(y, mo, d);
            let t: i64 = days * 86_400 + h * 3_600 + mi * 60 + sec - read_zone(b, 19);
            if t > 0 {
                t
            } else {
                0
            }
        },
        _ => 0,
    }
}

// ---------------------------------------------------------------------------
// Reading back
// ---------------------------------------------------------------------------

proof fn two_digits(n: nat)
    requires
        n < 100,
    ensures
        text::dec_padded(n, 2) == seq![text::digit(n / 10), text::digit(n % 10)],
        text::digits_value(seq![text::digit(n / 10), text::digit(n % 10)]) == n,
        text::all_digits(seq![text::digit(n / 10), text::digit(n % 10)]),
{
    reveal_with_fuel(text::dec, 3);
    reveal_with_fuel(text::digits_value, 3);
    let s = seq![text::digit(n / 10), text::digit(n % 10)];
    assert(text::dec_padded(n, 2) =~= s);
    assert(s.drop_last() =~= seq![text::digit(n / 10)]);
    assert(s.drop_last().drop_last() =~= Seq::<char>::empty());
}

proof fn four_digits(n: nat)
    requires
        1000 <= n < 10000,
    ensures
        text::dec_padded(n, 4) == seq![
            text::digit(n / 1000),
            text::digit(n / 100 % 10),
            text::digit(n / 10 % 10),
            text::digit(n % 10),
        ],
        text::digits_value(
            seq![
                text::digit(n / 1000),
                text::digit(n / 100 % 10),
                text::digit(n / 10 % 10),
                text::digit(n % 10),
            ],
        ) == n,
        text::all_digits(
            seq![
                text::digit(n / 1000),
                text::digit(n / 100 % 10),
                text::digit(n / 10 % 10),
                text::digit(n % 10),
            ],
        ),
{
    reveal_with_fuel(text::dec, 5);
    reveal_with_fuel(text::digits_value, 5);
    let s = seq![
        text::digit(n / 1000),
        text::digit(n / 100 % 10),
        text::digit(n / 10 % 10),
        text::digit(n % 10),
    ];
    assert(n / 10 / 10 == n / 100 && n / 100 / 10 == n / 1000);
    assert(text::dec(n) =~= s);
    assert(text::dec_padded(n, 4) =~= s);
    assert(s.drop_last() =~= seq![s[0], s[1], s[2]]);
    assert(s.drop_last().drop_last() =~= seq![s[0], s[1]]);
    assert(s.drop_last().drop_last().drop_last() =~= seq![s[0]]);
    assert(s.drop_last().drop_last().drop_last().drop_last() =~= Seq::<char>::empty());
}

/// Plain ASCII takes one byte per character.
pub proof fn ascii_bytes(s: Seq<char>)
    requires
        forall|i: int| 0 <= i < s.len() ==> 0 <= (#[trigger] s[i] as int) < 128,
    ensures
        bytes::utf8(s).len() == s.len(),
        forall|i: int| 0 <= i < s.len() ==> #[trigger] bytes::utf8(s)[i] == s[i] as u8,
    decreases s.len(),
{
    if s.len() > 0 {
        let rest = s.drop_first();
        assert forall|i: int| 0 <= i < rest.len() implies 0 <= (#[trigger] rest[i] as int) < 128 by {
            assert(rest[i] == s[i + 1]);
        }
        ascii_bytes(rest);
        let c = s[0] as u32;
        assert(s[0] as int == c);
        assert(c < 128);
        assert(vstd::utf8::has_width_1_encoding(c));
        assert((c & 0x7F) as u8 == c as u8) by (bit_vector)
            requires
                c < 128,
        ;
        assert(c as u8 == s[0] as u8);
        assert(vstd::utf8::leading_byte_width_1(c) == s[0] as u8);
        assert(vstd::utf8::encode_scalar(c) =~= seq![s[0] as u8]);
        assert forall|i: int| 0 <= i < s.len() implies #[trigger] bytes::utf8(s)[i]
            == s[i] as u8 by {
            if i > 0 {
                assert(bytes::utf8(s)[i] == bytes::utf8(rest)[i - 1]);
                assert(rest[i - 1] == s[i]);
            }
        }
    }
}

proof fn digit_field(b: Seq<u8>, a: int, e: int, digits: Seq<char>, n: nat)
    requires
        0 <= a <= e <= b.len(),
        e - a == digits.len(),
        forall|i: int| 0 <= i < digits.len() ==> b[a + i] == #[trigger] digits[i] as u8,
        text::all_digits(digits),
        text::digits_value(digits) == n,
        n <= i64::MAX,
    ensures
        field(b, a, e) == Some(n as int),
{
    let l = latin(b.subrange(a, e));
    assert forall|i: int| 0 <= i < digits.len() implies l[i] == digits[i] by {
        assert(text::is_digit(digits[i]));
        assert(b.subrange(a, e)[i] == digits[i] as u8);
    }
    assert(l =~= digits);
    assert(text::is_digit(digits[0]));
}

/// Digits and dots, as a fraction of a second is written.
pub open spec fn is_fraction(s: Seq<char>) -> bool {
    forall|i: int| 0 <= i < s.len() ==> text::is_digit(#[trigger] s[i]) || s[i] == '.'
}

/// A zone by its distance from UTC.
pub open spec fn zone_text(ahead: bool, hours: nat, minutes: nat) -> Seq<char> {
    (if ahead {
        "+"@
    } else {
        "-"@
    }) + text::dec_padded(hours, 2) + ":"@ + text::dec_padded(minutes, 2)
}

/// A moment, or zero where that is later.
pub open spec fn from_epoch(t: int) -> int {
    if t > 0 {
        t
    } else {
        0
    }
}

proof fn fraction_is_passed(z: Seq<u8>, k: int)
    requires
        0 <= k <= z.len(),
        forall|i: int|
            0 <= i < k ==> (48 <= #[trigger] z[i] && z[i] <= 57) || z[i] == 46,
        k < z.len() ==> !((48 <= z[k] && z[k] <= 57) || z[k] == 46),
    ensures
        past_fraction(z) == z.skip(k),
    decreases k,
{
    if k > 0 {
        let rest = z.skip(1);
        assert((48 <= z[0] && z[0] <= 57) || z[0] == 46);
        assert forall|i: int| 0 <= i < k - 1 implies (48 <= #[trigger] rest[i] && rest[i] <= 57)
            || rest[i] == 46 by {
            assert(rest[i] == z[i + 1]);
        }
        fraction_is_passed(rest, k - 1);
        assert(rest.skip(k - 1) =~= z.skip(k));
    } else {
        assert(z.skip(0) =~= z);
    }
}

/// What a time stamp with any ending denotes rests on its zone alone.
proof fn clock_is_read(y: int, m: int, d: int, rest: int, tail: Seq<char>)
    requires
        time::is_date(y, m, d),
        1970 <= y <= 9999,
        0 <= rest < 86_400,
        forall|i: int| 0 <= i < tail.len() ==> 0 <= (#[trigger] tail[i] as int) < 128,
    ensures
        bytes::utf8(clock_text(y, m, d, rest) + tail).skip(19) == Seq::new(
            tail.len(),
            |i: int| tail[i] as u8,
        ),
        stamp_secs(bytes::utf8(clock_text(y, m, d, rest) + tail)) == from_epoch(
            time::day_number(y, m, d) * 86_400 + rest - zone_offset(
                past_fraction(bytes::utf8(clock_text(y, m, d, rest) + tail).skip(19)),
            ),
        ),
{
    let yn = y as nat;
    let mn = m as nat;
    let dn = d as nat;
    let h = (rest / 3600) as nat;
    let mi = (rest % 3600 / 60) as nat;
    let s = (rest % 60) as nat;
    four_digits(yn);
    two_digits(mn);
    two_digits(dn);
    two_digits(h);
    two_digits(mi);
    two_digits(s);
    reveal_strlit("-");
    reveal_strlit("T");
    reveal_strlit(":");
    let t = seq![
        text::digit(yn / 1000),
        text::digit(yn / 100 % 10),
        text::digit(yn / 10 % 10),
        text::digit(yn % 10),
        '-',
        text::digit(mn / 10),
        text::digit(mn % 10),
        '-',
        text::digit(dn / 10),
        text::digit(dn % 10),
        'T',
        text::digit(h / 10),
        text::digit(h % 10),
        ':',
        text::digit(mi / 10),
        text::digit(mi % 10),
        ':',
        text::digit(s / 10),
        text::digit(s % 10),
    ];
    assert(clock_text(y, m, d, rest) =~= t);
    let all = t + tail;
    assert forall|i: int| 0 <= i < all.len() implies 0 <= (#[trigger] all[i] as int) < 128 by {
        if i >= 19 {
            assert(all[i] == tail[i - 19]);
        } else {
            assert(all[i] == t[i]);
        }
    }
    ascii_bytes(all);
    let b = bytes::utf8(all);
    assert forall|i: int| 0 <= i < 19 implies #[trigger] b[i] == t[i] as u8 by {
        assert(all[i] == t[i]);
    }
    digit_field(b, 0, 4, seq![t[0], t[1], t[2], t[3]], yn);
    digit_field(b, 5, 7, seq![t[5], t[6]], mn);
    digit_field(b, 8, 10, seq![t[8], t[9]], dn);
    digit_field(b, 11, 13, seq![t[11], t[12]], h);
    digit_field(b, 14, 16, seq![t[14], t[15]], mi);
    digit_field(b, 17, 19, seq![t[17], t[18]], s);
    assert forall|i: int| 0 <= i < tail.len() implies #[trigger] b.skip(19)[i] == tail[i] as u8 by {
        assert(all[i + 19] == tail[i]);
        assert(b[i + 19] == all[i + 19] as u8);
    }
    assert(b.skip(19) =~= Seq::new(tail.len(), |i: int| tail[i] as u8));
    time::march_formula(y, m, d);
    assert(stamp_days(y, m, d) == time::day_number(y, m, d));
    assert(h * 3600 + mi * 60 + s == rest);
}

/// Behind a fraction the zone is read.
proof fn zone_is_read(y: int, m: int, d: int, rest: int, fraction: Seq<char>, zone: Seq<char>)
    requires
        time::is_date(y, m, d),
        1970 <= y <= 9999,
        0 <= rest < 86_400,
        is_fraction(fraction),
        zone.len() > 0,
        !text::is_digit(zone[0]) && zone[0] != '.',
        forall|i: int| 0 <= i < zone.len() ==> 0 <= (#[trigger] zone[i] as int) < 128,
    ensures
        stamp_secs(bytes::utf8(clock_text(y, m, d, rest) + fraction + zone)) == from_epoch(
            time::day_number(y, m, d) * 86_400 + rest - zone_offset(
                Seq::new(zone.len(), |i: int| zone[i] as u8),
            ),
        ),
{
    let tail = fraction + zone;
    let k = fraction.len() as int;
    assert forall|i: int| 0 <= i < tail.len() implies 0 <= (#[trigger] tail[i] as int) < 128 by {
        if i < k {
            assert(tail[i] == fraction[i]);
        } else {
            assert(tail[i] == zone[i - k]);
        }
    }
    clock_is_read(y, m, d, rest, tail);
    assert(clock_text(y, m, d, rest) + tail =~= clock_text(y, m, d, rest) + fraction + zone);
    let z = Seq::new(tail.len(), |i: int| tail[i] as u8);
    assert forall|i: int| 0 <= i < k implies (48 <= #[trigger] z[i] && z[i] <= 57) || z[i] == 46 by {
        assert(tail[i] == fraction[i]);
    }
    assert(tail[k] == zone[0]);
    fraction_is_passed(z, k);
    assert(z.skip(k) =~= Seq::new(zone.len(), |i: int| zone[i] as u8));
}

/// A time stamp that was written is read back as the same moment, as long as
/// its year has four digits.
pub proof fn stamp_reads_back(y: int, m: int, d: int, rest: int)
    requires
        time::is_date(y, m, d),
        1970 <= y <= 9999,
        time::day_number(y, m, d) >= 0,
        0 <= rest < 86_400,
    ensures
        stamp_secs(bytes::utf8(stamp_text(y, m, d, rest))) == time::day_number(y, m, d) * 86_400
            + rest,
{
    a_fraction_changes_nothing(y, m, d, rest, Seq::empty());
    assert(clock_text(y, m, d, rest) + Seq::<char>::empty() + "Z"@ =~= stamp_text(y, m, d, rest));
}

/// A fraction of a second before the `Z` does not change the moment.
pub proof fn a_fraction_changes_nothing(y: int, m: int, d: int, rest: int, fraction: Seq<char>)
    requires
        time::is_date(y, m, d),
        1970 <= y <= 9999,
        time::day_number(y, m, d) >= 0,
        0 <= rest < 86_400,
        is_fraction(fraction),
    ensures
        stamp_secs(bytes::utf8(clock_text(y, m, d, rest) + fraction + "Z"@)) == time::day_number(
            y,
            m,
            d,
        ) * 86_400 + rest,
{
    reveal_strlit("Z");
    zone_is_read(y, m, d, rest, fraction, "Z"@);
}

/// A zone ahead of UTC is subtracted, one behind it is added; nothing is
/// earlier than 1970.
pub proof fn an_offset_is_subtracted(
    y: int,
    m: int,
    d: int,
    rest: int,
    fraction: Seq<char>,
    ahead: bool,
    hours: nat,
    minutes: nat,
)
    requires
        time::is_date(y, m, d),
        1970 <= y <= 9999,
        0 <= rest < 86_400,
        is_fraction(fraction),
        hours < 100,
        minutes < 100,
    ensures
        stamp_secs(
            bytes::utf8(
                clock_text(y, m, d, rest) + fraction + zone_text(ahead, hours, minutes),
            ),
        ) == from_epoch(
            time::day_number(y, m, d) * 86_400 + rest - if ahead {
                (hours * 3600 + minutes * 60) as int
            } else {
                -(hours * 3600 + minutes * 60)
            },
        ),
{
    two_digits(hours);
    two_digits(minutes);
    reveal_strlit("+");
    reveal_strlit("-");
    reveal_strlit(":");
    let zone = zone_text(ahead, hours, minutes);
    let t = seq![
        if ahead {
            '+'
        } else {
            '-'
        },
        text::digit(hours / 10),
        text::digit(hours % 10),
        ':',
        text::digit(minutes / 10),
        text::digit(minutes % 10),
    ];
    assert(zone =~= t);
    zone_is_read(y, m, d, rest, fraction, zone);
    let z = Seq::new(zone.len(), |i: int| zone[i] as u8);
    digit_field(z, 1, 3, seq![t[1], t[2]], hours);
    digit_field(z, 4, 6, seq![t[4], t[5]], minutes);
    assert(z[0] == t[0] as u8);
}

} // verus!
