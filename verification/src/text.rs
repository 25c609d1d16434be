//! Text operations, stated over sequences of characters.

use vstd::prelude::*;

verus! {

/// `String::push` appends one character and keeps what was there.
pub assume_specification[ String::push ](s: &mut String, c: char)
    ensures
        final(s)@ == old(s)@.push(c),
;

// ---------------------------------------------------------------------------
// Models
// ---------------------------------------------------------------------------

/// Lowercases the 26 ASCII capitals, leaves every other character alone.
pub open spec fn lower_char(c: char) -> char {
    if 'A' <= c <= 'Z' {
        ((c as int) + 32) as char
    } else {
        c
    }
}

/// ASCII lowercase of a text.
pub open spec fn lower(s: Seq<char>) -> Seq<char> {
    s.map_values(|c: char| lower_char(c))
}

/// `n` stands in `h` at index `i`.
pub open spec fn occurs_at(h: Seq<char>, n: Seq<char>, i: int) -> bool {
    0 <= i && i + n.len() <= h.len() && h.subrange(i, i + n.len()) =~= n
}

/// `n` stands somewhere in `h`.
pub open spec fn contains(h: Seq<char>, n: Seq<char>) -> bool {
    exists|i: int| occurs_at(h, n, i)
}

pub open spec fn starts_with(s: Seq<char>, p: Seq<char>) -> bool {
    occurs_at(s, p, 0)
}

pub open spec fn ends_with(s: Seq<char>, p: Seq<char>) -> bool {
    occurs_at(s, p, s.len() - p.len())
}

/// The digit character of a value below ten.
pub open spec fn digit(d: nat) -> char {
    ((d + 48) as int) as char
}

/// The lowercase hexadecimal character of a value below sixteen.
pub open spec fn hex_digit(d: nat) -> char {
    if d < 10 {
        ((d + 48) as int) as char
    } else {
        ((d + 87) as int) as char
    }
}

/// Decimal notation without leading zeros.
pub open spec fn dec(n: nat) -> Seq<char>
    decreases n,
{
    if n < 10 {
        seq![digit(n)]
    } else {
        dec(n / 10).push(digit(n % 10))
    }
}

/// Decimal notation of a signed number.
pub open spec fn dec_int(n: int) -> Seq<char> {
    if n < 0 {
        seq!['-'] + dec((-n) as nat)
    } else {
        dec(n as nat)
    }
}

/// The last `width` hexadecimal digits of `n`, padded with zeros.
pub open spec fn hex_fixed(n: nat, width: nat) -> Seq<char>
    decreases width,
{
    if width == 0 {
        Seq::empty()
    } else {
        hex_fixed(n / 16, (width - 1) as nat).push(hex_digit(n % 16))
    }
}

/// Decimal notation padded on the left with zeros to at least `width`.
pub open spec fn dec_padded(n: nat, width: nat) -> Seq<char> {
    let d = dec(n);
    if d.len() >= width {
        d
    } else {
        Seq::new((width - d.len()) as nat, |i: int| '0') + d
    }
}

pub open spec fn is_digit(c: char) -> bool {
    '0' <= c <= '9'
}

/// The number that a run of digits denotes.
pub open spec fn digits_value(s: Seq<char>) -> nat
    decreases s.len(),
{
    if s.len() == 0 {
        0
    } else {
        digits_value(s.drop_last()) * 10 + ((s.last() as int) - 48) as nat
    }
}

pub open spec fn all_digits(s: Seq<char>) -> bool {
    s.len() > 0 && forall|i: int| 0 <= i < s.len() ==> is_digit(#[trigger] s[i])
}

/// The digits of an unsigned literal: an optional leading plus is dropped.
pub open spec fn unsigned_digits(s: Seq<char>) -> Seq<char> {
    if s.len() > 0 && s[0] == '+' {
        s.skip(1)
    } else {
        s
    }
}

/// The unsigned decimal number written in `s`, when it is one and at most
/// `max`.
pub open spec fn parsed(s: Seq<char>, max: nat) -> Option<nat> {
    let d = unsigned_digits(s);
    if all_digits(d) && digits_value(d) <= max {
        Some(digits_value(d))
    } else {
        None
    }
}

/// Texts one after the other, `sep` between them.
pub open spec fn joined(parts: Seq<Seq<char>>, sep: Seq<char>) -> Seq<char>
    decreases parts.len(),
{
    if parts.len() == 0 {
        Seq::empty()
    } else if parts.len() == 1 {
        parts[0]
    } else {
        joined(parts.drop_last(), sep) + sep + parts.last()
    }
}

/// The texts of a sequence of strings.
pub open spec fn texts(v: Seq<String>) -> Seq<Seq<char>> {
    v.map_values(|s: String| s@)
}

/// The text of an optional string.
pub open spec fn text_of(o: Option<String>) -> Option<Seq<char>> {
    match o {
        Some(s) => Some(s@),
        None => None,
    }
}

/// Strict dictionary order by character code.
pub open spec fn precedes(a: Seq<char>, b: Seq<char>) -> bool
    decreases a.len(),
{
    if b.len() == 0 {
        false
    } else if a.len() == 0 {
        true
    } else if a[0] != b[0] {
        a[0] < b[0]
    } else {
        precedes(a.skip(1), b.skip(1))
    }
}

/// Index just past the last `sep`, or 0 where there is none.
pub open spec fn after_last(s: Seq<char>, sep: char) -> int
    decreases s.len(),
{
    if s.len() == 0 {
        0
    } else if s.last() == sep {
        s.len() as int
    } else {
        after_last(s.drop_last(), sep)
    }
}

// ---------------------------------------------------------------------------
// Facts about the order
// ---------------------------------------------------------------------------

/// The order never holds of a text and itself.
pub proof fn precedes_irreflexive(a: Seq<char>)
    ensures
        !precedes(a, a),
    decreases a.len(),
{
    if a.len() > 0 {
        precedes_irreflexive(a.skip(1));
    }
}

/// The order is transitive.
pub proof fn precedes_transitive(a: Seq<char>, b: Seq<char>, c: Seq<char>)
    requires
        precedes(a, b),
        precedes(b, c),
    ensures
        precedes(a, c),
    decreases a.len(),
{
    if a.len() > 0 && a[0] == b[0] && b[0] == c[0] {
        precedes_transitive(a.skip(1), b.skip(1), c.skip(1));
    }
}

/// Two different texts are ordered one way or the other.
pub proof fn precedes_total(a: Seq<char>, b: Seq<char>)
    ensures
        a == b || precedes(a, b) || precedes(b, a),
    decreases a.len(),
{
    if a.len() == 0 {
        if b.len() == 0 {
            assert(a =~= b);
        }
    } else if b.len() > 0 && a[0] == b[0] {
        precedes_total(a.skip(1), b.skip(1));
        if a.skip(1) == b.skip(1) {
            assert(a =~= seq![a[0]] + a.skip(1));
            assert(b =~= seq![b[0]] + b.skip(1));
        }
    }
}

// ---------------------------------------------------------------------------
// Executable operations
// ---------------------------------------------------------------------------

/// The characters of a string, in order.
pub fn chars_of(s: &str) -> (v: Vec<char>)
    ensures
        v@ == s@,
{
    let mut v: Vec<char> = Vec::new();
    for c in it: s.chars()
        invariant
            v@ == it.seq().take(it.index()),
    {
        v.push(c);
    }
    v
}

/// The string made of the characters `from..to`.
pub fn string_of(v: &Vec<char>, from: usize, to: usize) -> (s: String)
    requires
        from <= to <= v.len(),
    ensures
        s@ == v@.subrange(from as int, to as int),
{
    let mut s: String = String::new();
    let mut i: usize = from;
    while i < to
        invariant
            from <= i <= to <= v.len(),
            s@ == v@.subrange(from as int, i as int),
        decreases to - i,
    {
        s.push(v[i]);
        i += 1;
    }
    s
}

/// The string made of all the characters.
pub fn string_from(v: &Vec<char>) -> (s: String)
    ensures
        s@ == v@,
{
    let s: String = string_of(v, 0, v.len());
    assert(v@.subrange(0, v@.len() as int) =~= v@);
    s
}

/// Whether two texts are the same.
pub fn same(a: &str, b: &str) -> (r: bool)
    ensures
        r == (a@ == b@),
{
    a.to_owned() == b.to_owned()
}

/// Whether an optional text is exactly `b`.
pub fn same_opt(a: &Option<String>, b: &Option<String>) -> (r: bool)
    ensures
        r == (text_of(*a) == text_of(*b)),
{
    match (a, b) {
        (Some(x), Some(y)) => same(x.as_str(), y.as_str()),
        (None, None) => true,
        _ => false,
    }
}

/// Whether some string of the list has this text.
pub fn any_same(list: &Vec<String>, s: &str) -> (r: bool)
    ensures
        r == texts(list@).contains(s@),
{
    let mut i: usize = 0;
    while i < list.len()
        invariant
            i <= list.len(),
            forall|j: int| 0 <= j < i ==> texts(list@)[j] != s@,
        decreases list.len() - i,
    {
        if same(list[i].as_str(), s) {
            assert(texts(list@)[i as int] == s@);
            return true;
        }
        i += 1;
    }
    assert(!texts(list@).contains(s@));
    false
}

pub fn lower_of_char(c: char) -> (r: char)
    ensures
        r == lower_char(c),
{
    if 'A' <= c && c <= 'Z' {
        ((c as u8) + 32) as char
    } else {
        c
    }
}

/// ASCII lowercase.
pub fn lower_of(s: &str) -> (r: String)
    ensures
        r@ == lower(s@),
{
    let v: Vec<char> = lower_chars(s);
    string_from(&v)
}

/// ASCII lowercase, as characters.
pub fn lower_chars(s: &str) -> (v: Vec<char>)
    ensures
        v@ == lower(s@),
{
    let mut v: Vec<char> = Vec::new();
    for c in it: s.chars()
        invariant
            v@ == lower(it.seq().take(it.index())),
    {
        v.push(lower_of_char(c));
        assert(it.seq().take(it.index() + 1) =~= it.seq().take(it.index()).push(c));
    }
    v
}

/// Whether `n` stands in `h` at index `i`.
pub fn stands_at(h: &Vec<char>, n: &Vec<char>, i: usize) -> (r: bool)
    ensures
        r == occurs_at(h@, n@, i as int),
{
    if n.len() > h.len() || i > h.len() - n.len() {
        return false;
    }
    let mut k: usize = 0;
    while k < n.len()
        invariant
            k <= n.len(),
            i + n.len() <= h.len(),
            forall|j: int| 0 <= j < k ==> h@[i + j] == n@[j],
        decreases n.len() - k,
    {
        if h[i + k] != n[k] {
            assert(h@.subrange(i as int, i + n@.len())[k as int] != n@[k as int]);
            return false;
        }
        k += 1;
    }
    true
}

/// The first index at which `n` stands in `h`.
pub fn find_text(h: &Vec<char>, n: &Vec<char>) -> (r: Option<usize>)
    ensures
        match r {
            Some(i) => occurs_at(h@, n@, i as int) && forall|j: int|
                0 <= j < i ==> !occurs_at(h@, n@, j),
            None => !contains(h@, n@),
        },
{
    if n.len() > h.len() {
        assert(!contains(h@, n@));
        return None;
    }
    let last: usize = h.len() - n.len();
    let mut i: usize = 0;
    while i <= last
        invariant
            last == h.len() - n.len(),
            i <= last + 1,
            forall|j: int| 0 <= j < i ==> !occurs_at(h@, n@, j),
        decreases last + 1 - i,
    {
        if stands_at(h, n, i) {
            return Some(i);
        }
        if i == last {
            assert forall|j: int| !occurs_at(h@, n@, j) by {}
            return None;
        }
        i += 1;
    }
    None
}

/// Whether `needle` stands in the characters `h`.
pub fn holds(h: &Vec<char>, needle: &str) -> (r: bool)
    ensures
        r == contains(h@, needle@),
{
    let n: Vec<char> = chars_of(needle);
    match find_text(h, &n) {
        Some(_) => true,
        None => false,
    }
}

/// Whether `needle` stands in `s`.
pub fn text_has(s: &str, needle: &str) -> (r: bool)
    ensures
        r == contains(s@, needle@),
{
    holds(&chars_of(s), needle)
}

pub fn text_starts(s: &str, p: &str) -> (r: bool)
    ensures
        r == starts_with(s@, p@),
{
    stands_at(&chars_of(s), &chars_of(p), 0)
}

pub fn text_ends(s: &str, p: &str) -> (r: bool)
    ensures
        r == ends_with(s@, p@),
{
    let h: Vec<char> = chars_of(s);
    let n: Vec<char> = chars_of(p);
    if n.len() > h.len() {
        return false;
    }
    stands_at(&h, &n, h.len() - n.len())
}

/// Whether the text `a` comes strictly before `b`.
pub fn before(a: &str, b: &str) -> (r: bool)
    ensures
        r == precedes(a@, b@),
{
    let x: Vec<char> = chars_of(a);
    let y: Vec<char> = chars_of(b);
    let mut i: usize = 0;
    assert(a@.skip(0) =~= a@ && b@.skip(0) =~= b@);
    while i < x.len() && i < y.len()
        invariant
            i <= x.len(),
            i <= y.len(),
            x@ == a@,
            y@ == b@,
            precedes(a@, b@) == precedes(a@.skip(i as int), b@.skip(i as int)),
        decreases x.len() - i,
    {
        assert(a@.skip(i as int)[0] == x@[i as int]);
        assert(b@.skip(i as int)[0] == y@[i as int]);
        if x[i] != y[i] {
            return x[i] < y[i];
        }
        assert(a@.skip(i as int).skip(1) =~= a@.skip(i + 1));
        assert(b@.skip(i as int).skip(1) =~= b@.skip(i + 1));
        i += 1;
    }
    y.len() > i
}

fn digit_of(d: u8) -> (c: char)
    requires
        d < 10,
    ensures
        c == digit(d as nat),
{
    (48 + d) as char
}

pub fn hex_digit_of(d: u8) -> (c: char)
    requires
        d < 16,
    ensures
        c == hex_digit(d as nat),
{
    if d < 10 {
        (48 + d) as char
    } else {
        (87 + d) as char
    }
}

/// Decimal notation.
pub fn dec_of(n: u64) -> (s: String)
    ensures
        s@ == dec(n as nat),
    decreases n,
{
    if n < 10 {
        let mut s: String = String::new();
        s.push(digit_of(n as u8));
        assert(s@ =~= seq![digit(n as nat)]);
        s
    } else {
        let mut s: String = dec_of(n / 10);
        s.push(digit_of((n % 10) as u8));
        s
    }
}

/// Decimal notation of a signed number.
pub fn dec_of_int(n: i64) -> (s: String)
    ensures
        s@ == dec_int(n as int),
{
    if n < 0 {
        let mut s: String = String::new();
        s.push('-');
        let magnitude: u64 = if n == i64::MIN {
            9223372036854775808
        } else {
            (-n) as u64
        };
        s.append(dec_of(magnitude).as_str());
        assert(s@ =~= seq!['-'] + dec(magnitude as nat));
        s
    } else {
        dec_of(n as u64)
    }
}

/// The last `width` hexadecimal digits.
pub fn hex_of(n: u128, width: usize) -> (s: String)
    ensures
        s@ == hex_fixed(n as nat, width as nat),
    decreases width,
{
    if width == 0 {
        let s: String = String::new();
        assert(s@ =~= Seq::<char>::empty());
        s
    } else {
        let mut s: String = hex_of(n / 16, width - 1);
        s.push(hex_digit_of((n % 16) as u8));
        s
    }
}

/// Decimal notation padded with zeros to at least `width`.
pub fn dec_padded_of(n: u64, width: usize) -> (s: String)
    ensures
        s@ == dec_padded(n as nat, width as nat),
{
    let d: String = dec_of(n);
    let len: usize = d.as_str().unicode_len();
    if len >= width {
        return d;
    }
    let mut s: String = String::new();
    let mut i: usize = 0;
    while i < width - len
        invariant
            i <= width - len,
            len < width,
            s@ == Seq::new(i as nat, |j: int| '0'),
        decreases width - len - i,
    {
        s.push('0');
        i += 1;
        assert(s@ =~= Seq::new(i as nat, |j: int| '0'));
    }
    s.append(d.as_str());
    s
}

/// Reads an unsigned decimal number of at most `max`.
pub fn parse_unsigned(s: &str, max: u64) -> (r: Option<u64>)
    ensures
        match r {
            Some(n) => parsed(s@, max as nat) == Some(n as nat),
            None => parsed(s@, max as nat) is None,
        },
{
    let v: Vec<char> = chars_of(s);
    let start: usize = if v.len() > 0 && v[0] == '+' {
        1
    } else {
        0
    };
    let ghost d = unsigned_digits(s@);
    assert(d =~= v@.skip(start as int));
    parse_digits(&v, start, v.len(), max)
}

/// Reads the digits `from..to` as a number of at most `max`.
pub fn parse_digits(v: &Vec<char>, from: usize, to: usize, max: u64) -> (r: Option<u64>)
    requires
        from <= to <= v.len(),
    ensures
        ({
            let d = v@.subrange(from as int, to as int);
            match r {
                Some(n) => all_digits(d) && digits_value(d) == n && n <= max,
                None => !(all_digits(d) && digits_value(d) <= max),
            }
        }),
{
    let ghost d = v@.subrange(from as int, to as int);
    if from == to {
        return None;
    }
    let mut n: u64 = 0;
    let mut i: usize = from;
    assert(d.take(0) =~= Seq::<char>::empty());
    while i < to
        invariant
            from <= i <= to <= v.len(),
            d == v@.subrange(from as int, to as int),
            forall|j: int| 0 <= j < i - from ==> is_digit(#[trigger] d[j]),
            n == digits_value(d.take(i - from)),
            n <= max,
        decreases to - i,
    {
        let c: char = v[i];
        assert(d[i - from] == c);
        if !('0' <= c && c <= '9') {
            return None;
        }
        let k: u64 = (c as u64) - 48;
        assert(d.take(i + 1 - from).drop_last() =~= d.take(i - from));
        assert(digits_value(d.take(i + 1 - from)) == n * 10 + k);
        if n > max / 10 || k > max - n * 10 {
            proof {
                assert(n * 10 + k > max);
                digits_value_grows(d, i + 1 - from, d.len() as int);
                assert(d.take(d.len() as int) =~= d);
            }
            return None;
        }
        n = n * 10 + k;
        i += 1;
    }
    assert(d.take(d.len() as int) =~= d);
    Some(n)
}

proof fn digits_value_grows(d: Seq<char>, i: int, j: int)
    requires
        0 <= i <= j <= d.len(),
    ensures
        digits_value(d.take(i)) <= digits_value(d.take(j)),
    decreases j - i,
{
    if i < j {
        digits_value_grows(d, i, j - 1);
        assert(d.take(j).drop_last() =~= d.take(j - 1));
    }
}

/// Texts one after the other, `sep` between them.
pub fn join_of(parts: &Vec<String>, sep: &str) -> (r: String)
    ensures
        r@ == joined(texts(parts@), sep@),
{
    let mut r: String = String::new();
    let mut i: usize = 0;
    let ghost all = texts(parts@);
    assert(all.take(0) =~= Seq::<Seq<char>>::empty());
    assert(r@ =~= Seq::<char>::empty());
    while i < parts.len()
        invariant
            i <= parts.len(),
            all == texts(parts@),
            r@ == joined(all.take(i as int), sep@),
        decreases parts.len() - i,
    {
        assert(all.take(i + 1).drop_last() =~= all.take(i as int));
        assert(all.take(i + 1).last() == parts@[i as int]@);
        if i > 0 {
            r.append(sep);
        }
        r.append(parts[i].as_str());
        assert(i == 0 ==> r@ =~= all.take(1)[0]);
        i += 1;
    }
    assert(all.take(all.len() as int) =~= all);
    r
}

/// The part of a text that follows its last `sep`.
pub fn tail_after(s: &str, sep: char) -> (r: String)
    ensures
        r@ == s@.skip(after_last(s@, sep)),
{
    let v: Vec<char> = chars_of(s);
    let mut i: usize = v.len();
    assert(v@.take(v@.len() as int) =~= v@);
    while i > 0 && v[i - 1] != sep
        invariant
            i <= v.len(),
            v@ == s@,
            after_last(v@, sep) == after_last(v@.take(i as int), sep),
        decreases i,
    {
        assert(v@.take(i as int).drop_last() =~= v@.take(i - 1));
        i -= 1;
    }
    let r: String = string_of(&v, i, v.len());
    assert(v@.subrange(i as int, v@.len() as int) =~= s@.skip(i as int));
    r
}

/// A copy of an optional string.
pub fn copy_opt(o: &Option<String>) -> (r: Option<String>)
    ensures
        r == *o,
{
    match o {
        Some(s) => Some(s.clone()),
        None => None,
    }
}

/// A copy of a list of strings.
pub fn copy_list(v: &Vec<String>) -> (r: Vec<String>)
    ensures
        r@ == v@,
{
    let mut r: Vec<String> = Vec::new();
    let mut i: usize = 0;
    while i < v.len()
        invariant
            i <= v.len(),
            r@ == v@.take(i as int),
        decreases v.len() - i,
    {
        r.push(v[i].clone());
        i += 1;
        assert(v@.take(i as int) =~= v@.take(i - 1).push(v@[i - 1]));
    }
    assert(v@.take(v@.len() as int) =~= v@);
    r
}

// ---------------------------------------------------------------------------
// Splitting
// ---------------------------------------------------------------------------

/// What separates the pieces of a text.
#[derive(Clone, Copy)]
pub enum Separator {
    /// One character.
    Char(char),
    /// Any Unicode whitespace character.
    White,
}

/// Unicode whitespace.
pub open spec fn is_white(c: char) -> bool {
    let n = c as u32;
    ||| 0x09 <= n <= 0x0D
    ||| n == 0x20
    ||| n == 0x85
    ||| n == 0xA0
    ||| n == 0x1680
    ||| 0x2000 <= n <= 0x200A
    ||| n == 0x2028
    ||| n == 0x2029
    ||| n == 0x202F
    ||| n == 0x205F
    ||| n == 0x3000
}

pub open spec fn separates(sep: Separator, c: char) -> bool {
    match sep {
        Separator::Char(x) => c == x,
        Separator::White => is_white(c),
    }
}

/// The pieces between separators, empty ones too.
pub open spec fn pieces(s: Seq<char>, sep: Separator) -> Seq<Seq<char>>
    decreases s.len(),
{
    if s.len() == 0 {
        seq![Seq::empty()]
    } else {
        let rest = pieces(s.drop_last(), sep);
        if separates(sep, s.last()) {
            rest.push(Seq::empty())
        } else {
            rest.update(rest.len() - 1, rest.last().push(s.last()))
        }
    }
}

/// There is always a piece, and no piece holds a separator.
pub proof fn pieces_facts(s: Seq<char>, sep: Separator)
    ensures
        pieces(s, sep).len() > 0,
        forall|i: int, k: int|
            0 <= i < pieces(s, sep).len() && 0 <= k < pieces(s, sep)[i].len() ==> !separates(
                sep,
                #[trigger] pieces(s, sep)[i][k],
            ),
    decreases s.len(),
{
    if s.len() > 0 {
        pieces_facts(s.drop_last(), sep);
        let rest = pieces(s.drop_last(), sep);
        let all = pieces(s, sep);
        assert forall|i: int, k: int| 0 <= i < all.len() && 0 <= k < all[i].len() implies !separates(
            sep,
            #[trigger] all[i][k],
        ) by {
            if !separates(sep, s.last()) && i == rest.len() - 1 {
                if k < rest.last().len() {
                    assert(rest[i][k] == all[i][k]);
                }
            } else if i < rest.len() {
                assert(rest[i][k] == all[i][k]);
            }
        }
    }
}

fn separator_is(sep: Separator, c: char) -> (r: bool)
    ensures
        r == separates(sep, c),
{
    match sep {
        Separator::Char(x) => c == x,
        Separator::White => {
            let n: u32 = c as u32;
            (0x09 <= n && n <= 0x0D) || n == 0x20 || n == 0x85 || n == 0xA0 || n == 0x1680 || (
            0x2000 <= n && n <= 0x200A) || n == 0x2028 || n == 0x2029 || n == 0x202F || n == 0x205F
                || n == 0x3000
        },
    }
}

/// The pieces between separators, empty ones too.
pub fn split(s: &str, sep: Separator) -> (r: Vec<String>)
    ensures
        texts(r@) == pieces(s@, sep),
{
    let v: Vec<char> = chars_of(s);
    let mut r: Vec<String> = Vec::new();
    let mut cur: String = String::new();
    let mut i: usize = 0;
    assert(v@.take(0) =~= Seq::<char>::empty());
    assert(cur@ =~= Seq::<char>::empty());
    assert(texts(r@).push(cur@) =~= seq![Seq::<char>::empty()]);
    while i < v.len()
        invariant
            i <= v.len(),
            texts(r@).push(cur@) == pieces(v@.take(i as int), sep),
        decreases v.len() - i,
    {
        let c: char = v[i];
        let ghost done = texts(r@);
        let ghost piece = cur@;
        assert(v@.take(i + 1).drop_last() =~= v@.take(i as int));
        assert(v@.take(i + 1).last() == c);
        if separator_is(sep, c) {
            let whole: String = cur;
            r.push(whole);
            cur = String::new();
            assert(texts(r@) =~= done.push(piece));
            assert(cur@ =~= Seq::<char>::empty());
        } else {
            cur.push(c);
            assert(done.push(piece).update(done.len() as int, piece.push(c)) =~= done.push(
                piece.push(c),
            ));
        }
        i += 1;
    }
    assert(v@.take(v@.len() as int) =~= v@);
    let ghost done = texts(r@);
    let ghost piece = cur@;
    r.push(cur);
    assert(texts(r@) =~= done.push(piece));
    r
}

/// Whether `p` starts `s`, and what follows it.
pub fn strip_prefix(s: &str, p: &str) -> (r: Option<String>)
    ensures
        match r {
            Some(rest) => starts_with(s@, p@) && rest@ == s@.skip(p@.len() as int),
            None => !starts_with(s@, p@),
        },
{
    let v: Vec<char> = chars_of(s);
    let n: Vec<char> = chars_of(p);
    if stands_at(&v, &n, 0) {
        let rest: String = string_of(&v, n.len(), v.len());
        assert(rest@ =~= s@.skip(p@.len() as int));
        Some(rest)
    } else {
        None
    }
}

/// The pieces that are not empty.
pub open spec fn nonempty(list: Seq<Seq<char>>) -> Seq<Seq<char>>
    decreases list.len(),
{
    if list.len() == 0 {
        Seq::empty()
    } else if list.last().len() == 0 {
        nonempty(list.drop_last())
    } else {
        nonempty(list.drop_last()).push(list.last())
    }
}

/// The words of a text, as whitespace separates them.
pub open spec fn words(s: Seq<char>) -> Seq<Seq<char>> {
    nonempty(pieces(s, Separator::White))
}

/// The words of a text, as whitespace separates them.
pub fn words_of(s: &str) -> (r: Vec<String>)
    ensures
        texts(r@) == words(s@),
{
    let all: Vec<String> = split(s, Separator::White);
    let mut r: Vec<String> = Vec::new();
    let ghost list = texts(all@);
    let mut i: usize = 0;
    assert(list.take(0) =~= Seq::<Seq<char>>::empty());
    assert(texts(r@) =~= Seq::<Seq<char>>::empty());
    while i < all.len()
        invariant
            i <= all.len(),
            list == texts(all@),
            texts(r@) == nonempty(list.take(i as int)),
        decreases all.len() - i,
    {
        assert(list.take(i + 1).drop_last() =~= list.take(i as int));
        assert(list.take(i + 1).last() == all@[i as int]@);
        let ghost before = texts(r@);
        if !all[i].as_str().is_empty() {
            r.push(all[i].clone());
            assert(texts(r@) =~= before.push(all@[i as int]@));
        }
        i += 1;
    }
    assert(list.take(list.len() as int) =~= list);
    r
}

/// A text without whitespace at its end.
pub open spec fn trimmed_end(s: Seq<char>) -> Seq<char>
    decreases s.len(),
{
    if s.len() > 0 && is_white(s.last()) {
        trimmed_end(s.drop_last())
    } else {
        s
    }
}

/// A text without whitespace at its start.
pub open spec fn trimmed_start(s: Seq<char>) -> Seq<char>
    decreases s.len(),
{
    if s.len() > 0 && is_white(s[0]) {
        trimmed_start(s.skip(1))
    } else {
        s
    }
}

/// A text without whitespace at both ends.
pub open spec fn trimmed(s: Seq<char>) -> Seq<char> {
    trimmed_end(trimmed_start(s))
}

/// The text without whitespace at both ends.
pub fn trim_of(s: &str) -> (r: String)
    ensures
        r@ == trimmed(s@),
{
    let v: Vec<char> = chars_of(s);
    let mut a: usize = 0;
    assert(v@.skip(0) =~= v@);
    while a < v.len() && separator_is(Separator::White, v[a])
        invariant
            a <= v.len(),
            v@ == s@,
            trimmed_start(s@) == trimmed_start(v@.skip(a as int)),
        decreases v.len() - a,
    {
        assert(v@.skip(a as int)[0] == v@[a as int]);
        assert(v@.skip(a as int).skip(1) =~= v@.skip(a + 1));
        a += 1;
    }
    let ghost t = v@.skip(a as int);
    assert(a < v.len() ==> t[0] == v@[a as int]);
    assert(trimmed_start(s@) == t);
    let mut b: usize = v.len();
    assert(t.take(t.len() as int) =~= t);
    while b > a && separator_is(Separator::White, v[b - 1])
        invariant
            a <= b <= v.len(),
            t == v@.skip(a as int),
            trimmed_end(t) == trimmed_end(t.take(b - a)),
        decreases b,
    {
        assert(t.take(b - a).last() == v@[b - 1]);
        assert(t.take(b - a).drop_last() =~= t.take(b - 1 - a));
        b -= 1;
    }
    if b > a {
        assert(t.take(b - a).last() == v@[b - 1]);
    }
    let r: String = string_of(&v, a, b);
    assert(v@.subrange(a as int, b as int) =~= t.take(b - a));
    r
}

/// A line without the carriage return at its end.
pub open spec fn without_cr(s: Seq<char>) -> Seq<char> {
    if s.len() > 0 && s.last() == '\r' {
        s.drop_last()
    } else {
        s
    }
}

/// The lines of a text. A last empty piece is no line.
pub open spec fn lines(s: Seq<char>) -> Seq<Seq<char>> {
    let all = pieces(s, Separator::Char('\n'));
    let kept = if all.last().len() == 0 {
        all.drop_last()
    } else {
        all
    };
    kept.map_values(|l: Seq<char>| without_cr(l))
}

/// The lines of a text.
pub fn lines_of(s: &str) -> (r: Vec<String>)
    ensures
        texts(r@) == lines(s@),
{
    let all: Vec<String> = split(s, Separator::Char('\n'));
    let ghost list = texts(all@);
    proof {
        pieces_facts(s@, Separator::Char('\n'));
    }
    let n: usize = all.len();
    assert(n == list.len());
    assert(list.last() == all@[n - 1]@);
    let kept: usize = if all[n - 1].as_str().is_empty() {
        n - 1
    } else {
        n
    };
    let mut r: Vec<String> = Vec::new();
    let mut i: usize = 0;
    while i < kept
        invariant
            i <= kept <= all.len(),
            list == texts(all@),
            r@.len() == i,
            forall|j: int| 0 <= j < i ==> (#[trigger] r@[j])@ == without_cr(list[j]),
        decreases kept - i,
    {
        let v: Vec<char> = chars_of(all[i].as_str());
        assert(list[i as int] == all@[i as int]@);
        if v.len() > 0 && v[v.len() - 1] == '\r' {
            let line: String = string_of(&v, 0, v.len() - 1);
            assert(line@ =~= list[i as int].drop_last());
            r.push(line);
        } else {
            r.push(all[i].clone());
        }
        i += 1;
    }
    assert(texts(r@) =~= lines(s@));
    r
}

/// The index of the first `c`.
pub open spec fn first_at(s: Seq<char>, c: char) -> int
    decreases s.len(),
{
    if s.len() == 0 || s[0] == c {
        0
    } else {
        1 + first_at(s.skip(1), c)
    }
}

/// Splits a text at its first `c`; the parts do not hold that one.
pub fn split_once(s: &str, c: char) -> (r: Option<(String, String)>)
    ensures
        match r {
            Some((a, b)) => {
                &&& first_at(s@, c) < s@.len()
                &&& a@ == s@.take(first_at(s@, c))
                &&& b@ == s@.skip(first_at(s@, c) + 1)
            },
            None => first_at(s@, c) == s@.len(),
        },
{
    let v: Vec<char> = chars_of(s);
    let mut i: usize = 0;
    assert(v@.skip(0) =~= v@);
    while i < v.len()
        invariant
            i <= v.len(),
            v@ == s@,
            first_at(s@, c) == i + first_at(v@.skip(i as int), c),
        decreases v.len() - i,
    {
        assert(v@.skip(i as int)[0] == v@[i as int]);
        assert(v@.skip(i as int).skip(1) =~= v@.skip(i + 1));
        if v[i] == c {
            let a: String = string_of(&v, 0, i);
            let b: String = string_of(&v, i + 1, v.len());
            assert(a@ =~= s@.take(i as int));
            assert(b@ =~= s@.skip(i + 1));
            return Some((a, b));
        }
        i += 1;
    }
    None
}

/// The signed decimal number written in `s`, when it is one and within the
/// bounds.
pub open spec fn parsed_int(s: Seq<char>, min: int, max: int) -> Option<int> {
    let negative = s.len() > 0 && s[0] == '-';
    let d = if s.len() > 0 && (s[0] == '-' || s[0] == '+') {
        s.skip(1)
    } else {
        s
    };
    let n = if negative {
        -(digits_value(d) as int)
    } else {
        digits_value(d) as int
    };
    if all_digits(d) && min <= n <= max {
        Some(n)
    } else {
        None
    }
}

/// Reads a signed decimal number within bounds.
pub fn parse_signed(s: &str, min: i64, max: i64) -> (r: Option<i64>)
    requires
        min <= 0 <= max,
    ensures
        match r {
            Some(n) => parsed_int(s@, min as int, max as int) == Some(n as int),
            None => parsed_int(s@, min as int, max as int) is None,
        },
{
    let v: Vec<char> = chars_of(s);
    let negative: bool = v.len() > 0 && v[0] == '-';
    let start: usize = if v.len() > 0 && (v[0] == '-' || v[0] == '+') {
        1
    } else {
        0
    };
    let bound: u64 = if negative {
        if min == i64::MIN {
            9223372036854775808
        } else {
            (-min) as u64
        }
    } else {
        max as u64
    };
    assert(v@.subrange(start as int, v@.len() as int) =~= (if start == 1 {
        s@.skip(1)
    } else {
        s@
    }));
    match parse_digits(&v, start, v.len(), bound) {
        None => None,
        Some(n) => if negative {
            if n == 9223372036854775808 {
                Some(i64::MIN)
            } else {
                Some(-(n as i64))
            }
        } else {
            Some(n as i64)
        },
    }
}

/// A copy of a text as an owned string, `None` kept.
pub fn owned_opt(o: Option<&str>) -> (r: Option<String>)
    ensures
        match (o, r) {
            (Some(a), Some(b)) => a@ == b@,
            (None, None) => true,
            _ => false,
        },
{
    match o {
        Some(s) => Some(s.to_owned()),
        None => None,
    }
}

/// A text in quotes, with escapes where it holds quotes or characters that
/// do not print.
pub uninterp spec fn quoted_text(s: Seq<char>) -> Seq<char>;

/// `format!` with `{:?}` on a text: the text as a quoted literal. Which
/// characters are escaped, and how, is not stated.
#[verifier::external_body]
pub(crate) fn quoted(s: &str) -> (r: String)
    ensures
        r@ == quoted_text(s@),
{
    format!("{s:?}")
}

/// A text filled up with blanks behind it to a width.
pub open spec fn pad_right(s: Seq<char>, width: nat) -> Seq<char>
    decreases width - s.len(),
{
    if s.len() >= width {
        s
    } else {
        pad_right(s.push(' '), width)
    }
}

/// A text filled up with blanks before it to a width.
pub open spec fn pad_left(s: Seq<char>, width: nat) -> Seq<char>
    decreases width - s.len(),
{
    if s.len() >= width {
        s
    } else {
        pad_left(seq![' '] + s, width)
    }
}

/// `s` filled up with blanks behind it.
pub fn padded_right(s: &str, width: usize) -> (r: String)
    ensures
        r@ == pad_right(s@, width as nat),
{
    let mut r: String = s.to_owned();
    let mut n: usize = s.unicode_len();
    while n < width
        invariant
            n == r@.len(),
            pad_right(s@, width as nat) == pad_right(r@, width as nat),
        decreases width - n,
    {
        r.push(' ');
        n += 1;
    }
    r
}

/// `s` filled up with blanks before it.
pub fn padded_left(s: &str, width: usize) -> (r: String)
    ensures
        r@ == pad_left(s@, width as nat),
{
    let mut r: String = s.to_owned();
    let mut n: usize = s.unicode_len();
    proof {
        reveal_strlit(" ");
        assert(" "@ =~= seq![' ']);
    }
    while n < width
        invariant
            n == r@.len(),
            " "@ == seq![' '],
            pad_left(s@, width as nat) == pad_left(r@, width as nat),
        decreases width - n,
    {
        r = " ".to_owned().concat(r.as_str());
        n += 1;
    }
    r
}

/// A text lowercased by the rules of Unicode.
pub uninterp spec fn lowercase_text(s: Seq<char>) -> Seq<char>;

/// `str::to_lowercase`.
///
/// Trusted: the same text always gives the same text, and on ASCII it is
/// plain ASCII lowercase.
#[verifier::external_body]
pub(crate) fn lowercased(s: &str) -> (r: String)
    ensures
        r@ == lowercase_text(s@),
        (forall|i: int| 0 <= i < s@.len() ==> 0 <= #[trigger] s@[i] as int && (s@[i] as int) < 128)
            ==> r@ == lower(s@),
{
    s.to_lowercase()
}

// ---------------------------------------------------------------------------
// Hexadecimal numbers
// ---------------------------------------------------------------------------

/// The value of a hexadecimal digit of either case.
pub open spec fn hex_value_of(c: char) -> Option<nat> {
    if '0' <= c <= '9' {
        Some((c as int - 48) as nat)
    } else if 'a' <= c <= 'f' {
        Some((c as int - 87) as nat)
    } else if 'A' <= c <= 'F' {
        Some((c as int - 55) as nat)
    } else {
        None
    }
}

/// The value of a sequence of hexadecimal digits.
pub open spec fn hex_value(s: Seq<char>) -> Option<nat>
    decreases s.len(),
{
    if s.len() == 0 {
        Some(0)
    } else {
        match (hex_value(s.drop_last()), hex_value_of(s.last())) {
            (Some(h), Some(d)) => Some(h * 16 + d),
            _ => None,
        }
    }
}

/// A number of at most 64 bits in hexadecimal notation; a plus may stand
/// before it.
pub open spec fn parsed_hex(s: Seq<char>) -> Option<u64> {
    let d = unsigned_digits(s);
    match hex_value(d) {
        Some(n) => if d.len() > 0 && n <= u64::MAX {
            Some(n as u64)
        } else {
            None
        },
        None => None,
    }
}

proof fn hex_value_grows(d: Seq<char>, i: int)
    requires
        0 <= i <= d.len(),
        hex_value(d) is Some,
    ensures
        hex_value(d.take(i)) is Some,
        hex_value(d.take(i))->Some_0 <= hex_value(d)->Some_0,
    decreases d.len(),
{
    if i < d.len() {
        hex_value_grows(d.drop_last(), i);
        assert(d.drop_last().take(i) =~= d.take(i));
    } else {
        assert(d.take(i) =~= d);
    }
}

/// Reads a hexadecimal number of at most 64 bits.
pub fn parse_hex(s: &str) -> (r: Option<u64>)
    ensures
        r == parsed_hex(s@),
{
    let v: Vec<char> = chars_of(s);
    let from: usize = if v.len() > 0 && v[0] == '+' {
        1
    } else {
        0
    };
    let ghost d = unsigned_digits(s@);
    assert(d =~= v@.skip(from as int));
    if from == v.len() {
        return None;
    }
    let mut n: u64 = 0;
    let mut i: usize = from;
    assert(d.take(0) =~= Seq::<char>::empty());
    while i < v.len()
        invariant
            from <= i <= v.len(),
            from < v.len(),
            d == v@.skip(from as int),
            d == unsigned_digits(s@),
            hex_value(d.take(i - from)) == Some(n as nat),
        decreases v.len() - i,
    {
        let c: char = v[i];
        assert(d.take(i + 1 - from).drop_last() =~= d.take(i - from));
        assert(d.take(i + 1 - from).last() == c);
        let k: u64 = if '0' <= c && c <= '9' {
            (c as u64) - 48
        } else if 'a' <= c && c <= 'f' {
            (c as u64) - 87
        } else if 'A' <= c && c <= 'F' {
            (c as u64) - 55
        } else {
            proof {
                if hex_value(d) is Some {
                    hex_value_grows(d, i + 1 - from);
                }
            }
            return None;
        };
        if n > 0x0fff_ffff_ffff_ffff {
            proof {
                if hex_value(d) is Some {
                    hex_value_grows(d, i + 1 - from);
                }
            }
            return None;
        }
        n = n * 16 + k;
        i += 1;
    }
    assert(d.take(d.len() as int) =~= d);
    Some(n)
}

// ---------------------------------------------------------------------------
// Numbers read back
// ---------------------------------------------------------------------------

/// The decimal notation of a number is digits, and reads back as the number.
pub proof fn decimal_reads_back(n: nat)
    ensures
        all_digits(dec(n)),
        digits_value(dec(n)) == n,
    decreases n,
{
    if n < 10 {
        assert(dec(n).drop_last() =~= Seq::<char>::empty());
        assert(digits_value(dec(n).drop_last()) == 0);
        assert(dec(n).last() == digit(n));
    } else {
        decimal_reads_back(n / 10);
        let rest = dec(n / 10);
        assert(dec(n).drop_last() =~= rest);
        assert(dec(n).last() == digit(n % 10));
        assert forall|i: int| 0 <= i < dec(n).len() implies is_digit(#[trigger] dec(n)[i]) by {
            if i < rest.len() {
                assert(dec(n)[i] == rest[i]);
            }
        }
    }
}

/// A signed number reads back from its decimal notation.
pub proof fn signed_reads_back(n: int, min: int, max: int)
    requires
        min <= n <= max,
    ensures
        parsed_int(dec_int(n), min, max) == Some(n),
{
    if n < 0 {
        decimal_reads_back((-n) as nat);
        assert(dec_int(n).skip(1) =~= dec((-n) as nat));
    } else {
        decimal_reads_back(n as nat);
        assert(is_digit(dec(n as nat)[0]));
    }
}

// ---------------------------------------------------------------------------
// What texts are made of
// ---------------------------------------------------------------------------

/// Lowercase holds no capital: each one is the letter 32 places on, and every
/// other character stays.
pub proof fn lowercase_changes_capitals_alone(s: Seq<char>, i: int)
    requires
        0 <= i < s.len(),
    ensures
        lower(s).len() == s.len(),
        !('A' <= lower(s)[i] <= 'Z'),
        'A' <= s[i] <= 'Z' ==> lower(s)[i] as int == s[i] as int + 32,
        !('A' <= s[i] <= 'Z') ==> lower(s)[i] == s[i],
        lower(lower(s)) == lower(s),
{
    assert forall|j: int| 0 <= j < s.len() implies lower_char(lower_char(#[trigger] s[j]))
        == lower_char(s[j]) by {}
    assert(lower(lower(s)) =~= lower(s));
}

/// The pieces with their separator between them are the text again.
pub proof fn pieces_join_to_the_text(s: Seq<char>, c: char)
    ensures
        joined(pieces(s, Separator::Char(c)), seq![c]) == s,
    decreases s.len(),
{
    let sep = Separator::Char(c);
    pieces_facts(s, sep);
    if s.len() > 0 {
        let front = s.drop_last();
        let rest = pieces(front, sep);
        let all = pieces(s, sep);
        pieces_join_to_the_text(front, c);
        pieces_facts(front, sep);
        if s.last() == c {
            assert(all.drop_last() =~= rest);
            assert(all.len() > 1);
            assert(joined(all, seq![c]) == joined(rest, seq![c]) + seq![c] + Seq::<char>::empty());
            assert(joined(all, seq![c]) =~= s);
        } else {
            let end = rest.last().push(s.last());
            if rest.len() == 1 {
                assert(all =~= seq![end]);
                assert(joined(rest, seq![c]) == rest[0]);
                assert(end =~= s);
            } else {
                assert(all.drop_last() =~= rest.drop_last());
                assert(all.last() == end);
                assert(joined(all, seq![c]) =~= joined(rest.drop_last(), seq![c]) + seq![c] + end);
                let head = joined(rest.drop_last(), seq![c]) + seq![c];
                assert(joined(rest, seq![c]) == head + rest.last());
                assert(head + end =~= (head + rest.last()).push(s.last()));
                assert(front.push(s.last()) =~= s);
            }
        }
    }
}

/// The words are the pieces that are not empty.
pub proof fn words_are_the_pieces_with_text(list: Seq<Seq<char>>)
    ensures
        nonempty(list) == list.filter(|w: Seq<char>| w.len() > 0),
    decreases list.len(),
{
    reveal(Seq::filter);
    if list.len() > 0 {
        words_are_the_pieces_with_text(list.drop_last());
    }
}

proof fn trimmed_start_facts(s: Seq<char>) -> (n: int)
    ensures
        0 <= n <= s.len(),
        trimmed_start(s) == s.skip(n),
        forall|i: int| 0 <= i < n ==> is_white(#[trigger] s[i]),
        n < s.len() ==> !is_white(s[n]),
    decreases s.len(),
{
    if s.len() > 0 && is_white(s[0]) {
        let rest = s.skip(1);
        let n = trimmed_start_facts(rest);
        assert(rest.skip(n) =~= s.skip(n + 1));
        assert forall|i: int| 0 <= i < n + 1 implies is_white(#[trigger] s[i]) by {
            if i > 0 {
                assert(rest[i - 1] == s[i]);
            }
        }
        if n < rest.len() {
            assert(rest[n] == s[n + 1]);
        }
        n + 1
    } else {
        assert(s.skip(0) =~= s);
        0
    }
}

proof fn trimmed_end_facts(s: Seq<char>) -> (n: int)
    ensures
        0 <= n <= s.len(),
        trimmed_end(s) == s.take(n),
        forall|i: int| n <= i < s.len() ==> is_white(#[trigger] s[i]),
        n > 0 ==> !is_white(s[n - 1]),
    decreases s.len(),
{
    if s.len() > 0 && is_white(s.last()) {
        let rest = s.drop_last();
        let n = trimmed_end_facts(rest);
        assert(rest.take(n) =~= s.take(n));
        assert forall|i: int| n <= i < s.len() implies is_white(#[trigger] s[i]) by {
            if i < rest.len() {
                assert(rest[i] == s[i]);
            }
        }
        n
    } else {
        assert(s.take(s.len() as int) =~= s);
        s.len() as int
    }
}

/// Trimming takes whitespace away at both ends, all of it and nothing else:
/// what is left stands in the text from `a` to `b`.
pub proof fn trimming_takes_the_whitespace_at_the_ends(s: Seq<char>) -> (r: (int, int))
    ensures
        0 <= r.0 <= r.1 <= s.len(),
        trimmed(s) == s.subrange(r.0, r.1),
        forall|i: int| 0 <= i < r.0 || r.1 <= i < s.len() ==> is_white(#[trigger] s[i]),
        r.0 < r.1 ==> !is_white(s[r.0]) && !is_white(s[r.1 - 1]),
{
    let a = trimmed_start_facts(s);
    let t = trimmed_start(s);
    let n = trimmed_end_facts(t);
    let b = a + n;
    assert(t.take(n) =~= s.subrange(a, b));
    assert forall|i: int| 0 <= i < a || b <= i < s.len() implies is_white(#[trigger] s[i]) by {
        if i >= b {
            assert(t[i - a] == s[i]);
        }
    }
    if a < b {
        assert(t[n - 1] == s[b - 1]);
        assert(t[0] == s[a]);
    }
    (a, b)
}

/// A text is split at the first of the character, and not at all without one.
pub proof fn the_first_is_found(s: Seq<char>, c: char)
    ensures
        0 <= first_at(s, c) <= s.len(),
        first_at(s, c) < s.len() ==> s[first_at(s, c)] == c,
        forall|i: int| 0 <= i < first_at(s, c) ==> #[trigger] s[i] != c,
    decreases s.len(),
{
    if s.len() > 0 && s[0] != c {
        let rest = s.skip(1);
        the_first_is_found(rest, c);
        assert forall|i: int| 0 <= i < first_at(s, c) implies #[trigger] s[i] != c by {
            if i > 0 {
                assert(rest[i - 1] == s[i]);
            }
        }
    }
}

/// Padding adds blanks on its side until the width is reached, and none to
/// what is wide enough.
pub proof fn padding_adds_blanks(s: Seq<char>, width: nat)
    ensures
        s.len() >= width ==> pad_right(s, width) == s && pad_left(s, width) == s,
        s.len() < width ==> pad_right(s, width) == s + Seq::new(
            (width - s.len()) as nat,
            |i: int| ' ',
        ),
        s.len() < width ==> pad_left(s, width) == Seq::new((width - s.len()) as nat, |i: int| ' ')
            + s,
    decreases width - s.len(),
{
    if s.len() < width {
        padding_adds_blanks(s.push(' '), width);
        padding_adds_blanks(seq![' '] + s, width);
        let n = (width - s.len()) as nat;
        let blanks = Seq::new(n, |i: int| ' ');
        let fewer = Seq::new((n - 1) as nat, |i: int| ' ');
        assert(s.push(' ') + fewer =~= s + blanks);
        assert(fewer + (seq![' '] + s) =~= blanks + s);
        assert(n == 1 ==> s.push(' ') =~= s + blanks);
        assert(n == 1 ==> seq![' '] + s =~= blanks + s);
    }
}

/// A fixed-width hexadecimal text holds the digits of the number from the
/// highest place down.
pub proof fn hexadecimal_goes_from_the_highest_place(n: nat, width: nat, i: int)
    requires
        0 <= i < width,
    ensures
        hex_fixed(n, width).len() == width,
        hex_fixed(n, width)[i] == hex_digit(
            ((n as int / vstd::arithmetic::power::pow(16, (width - 1 - i) as nat)) % 16) as nat,
        ),
    decreases width,
{
    let rest = hex_fixed(n / 16, (width - 1) as nat);
    if i < width - 1 {
        hexadecimal_goes_from_the_highest_place(n / 16, (width - 1) as nat, i);
        let e = (width - 2 - i) as nat;
        vstd::arithmetic::power::lemma_pow_positive(16, e);
        vstd::arithmetic::div_mod::lemma_div_denominator(
            n as int,
            16,
            vstd::arithmetic::power::pow(16, e),
        );
        reveal(vstd::arithmetic::power::pow);
        assert(vstd::arithmetic::power::pow(16, (e + 1) as nat) == 16
            * vstd::arithmetic::power::pow(16, e));
    } else {
        if width > 1 {
            hexadecimal_goes_from_the_highest_place(n / 16, (width - 1) as nat, 0);
        }
        vstd::arithmetic::power::lemma_pow0(16);
    }
}

} // verus!
