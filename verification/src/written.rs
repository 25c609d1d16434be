//! JSON values as text.
//!
//! `serde_json` does the writing. A value is handed to it with the members of
//! each object in the order of their keys, which is how it writes them.

use crate::json;
use crate::json::{parse_value, Json, JsonModel, Member};
use crate::text;
use crate::text::{before, same};
use vstd::prelude::*;

verus! {

// ---------------------------------------------------------------------------
// What is written
// ---------------------------------------------------------------------------

/// Where a key belongs among members in the order of their keys.
pub open spec fn slot(ms: Seq<(Seq<char>, JsonModel)>, key: Seq<char>, from: int) -> int
    decreases ms.len() - from,
{
    if from < ms.len() && text::precedes(ms[from].0, key) {
        slot(ms, key, from + 1)
    } else {
        from
    }
}

/// The members with one more, in the place of one with the same key.
pub open spec fn put(ms: Seq<(Seq<char>, JsonModel)>, m: (Seq<char>, JsonModel)) -> Seq<
    (Seq<char>, JsonModel),
> {
    let i = slot(ms, m.0, 0);
    if i < ms.len() && ms[i].0 == m.0 {
        ms.update(i, m)
    } else {
        ms.insert(i, m)
    }
}

/// Members in the order of their keys; the last one with a key counts.
pub open spec fn arranged(ms: Seq<(Seq<char>, JsonModel)>) -> Seq<(Seq<char>, JsonModel)>
    decreases ms.len(),
{
    if ms.len() == 0 {
        Seq::empty()
    } else {
        put(arranged(ms.drop_last()), ms.last())
    }
}

/// Each key comes before the next one.
pub open spec fn ascending(ms: Seq<(Seq<char>, JsonModel)>) -> bool {
    forall|i: int, j: int|
        0 <= i < j < ms.len() ==> text::precedes((#[trigger] ms[i]).0, (#[trigger] ms[j]).0)
}

/// The value that is written for a value: the same, with the members of each
/// object in the order of their keys.
pub open spec fn in_order(m: JsonModel) -> JsonModel
    decreases m,
{
    match m {
        JsonModel::Negative(n) => if n < 0 {
            m
        } else {
            JsonModel::Unsigned(n as u64)
        },
        JsonModel::Decimal(s) => match json::read_json(s) {
            Ok(v) => v,
            Err(_) => JsonModel::Null,
        },
        JsonModel::List(l) => JsonModel::List(list_in_order(l)),
        JsonModel::Object(ms) => JsonModel::Object(arranged(members_in_order(ms))),
        _ => m,
    }
}

pub open spec fn list_in_order(l: Seq<JsonModel>) -> Seq<JsonModel>
    decreases l,
{
    Seq::new(
        l.len(),
        |i: int|
            if 0 <= i < l.len() {
                in_order(l[i])
            } else {
                arbitrary()
            },
    )
}

pub open spec fn members_in_order(ms: Seq<(Seq<char>, JsonModel)>) -> Seq<(Seq<char>, JsonModel)>
    decreases ms,
{
    Seq::new(
        ms.len(),
        |i: int|
            if 0 <= i < ms.len() {
                (ms[i].0, in_order(ms[i].1))
            } else {
                arbitrary()
            },
    )
}

/// A value whose numbers are all integers, held as they are when read.
pub open spec fn plain(m: JsonModel) -> bool
    decreases m,
{
    match m {
        JsonModel::Decimal(_) => false,
        JsonModel::Negative(n) => n < 0,
        JsonModel::List(l) => forall|i: int| 0 <= i < l.len() ==> plain(#[trigger] l[i]),
        JsonModel::Object(ms) => forall|i: int| 0 <= i < ms.len() ==> plain((#[trigger] ms[i]).1),
        _ => true,
    }
}

/// A value in which lists and objects are nested no deeper than `depth`.
pub open spec fn nested_within(m: JsonModel, depth: nat) -> bool
    decreases m,
{
    match m {
        JsonModel::List(l) => depth > 0 && forall|i: int|
            0 <= i < l.len() ==> nested_within(#[trigger] l[i], (depth - 1) as nat),
        JsonModel::Object(ms) => depth > 0 && forall|i: int|
            0 <= i < ms.len() ==> nested_within((#[trigger] ms[i]).1, (depth - 1) as nat),
        _ => true,
    }
}

/// Nesting that text can be read back from.
pub const MAX_DEPTH: usize = 127;

/// A value that comes back when its text is read: its numbers are integers
/// and its nesting is bounded.
pub open spec fn reads_back(m: JsonModel) -> bool {
    plain(m) && nested_within(m, MAX_DEPTH as nat)
}

// ---------------------------------------------------------------------------
// Facts about the order of members
// ---------------------------------------------------------------------------

proof fn slot_facts(ms: Seq<(Seq<char>, JsonModel)>, key: Seq<char>, from: int)
    requires
        0 <= from <= ms.len(),
    ensures
        from <= slot(ms, key, from) <= ms.len(),
        forall|i: int|
            from <= i < slot(ms, key, from) ==> text::precedes((#[trigger] ms[i]).0, key),
        slot(ms, key, from) < ms.len() ==> !text::precedes(ms[slot(ms, key, from)].0, key),
    decreases ms.len() - from,
{
    if from < ms.len() && text::precedes(ms[from].0, key) {
        slot_facts(ms, key, from + 1);
    }
}

proof fn put_ascends(ms: Seq<(Seq<char>, JsonModel)>, m: (Seq<char>, JsonModel))
    requires
        ascending(ms),
    ensures
        ascending(put(ms, m)),
{
    let i = slot(ms, m.0, 0);
    let all = put(ms, m);
    slot_facts(ms, m.0, 0);
    if i < ms.len() && ms[i].0 == m.0 {
        assert forall|a: int, b: int| 0 <= a < b < all.len() implies text::precedes(
            (#[trigger] all[a]).0,
            (#[trigger] all[b]).0,
        ) by {
            assert(text::precedes(ms[a].0, ms[b].0));
        }
    } else {
        if i < ms.len() {
            text::precedes_total(ms[i].0, m.0);
        }
        assert forall|a: int, b: int| 0 <= a < b < all.len() implies text::precedes(
            (#[trigger] all[a]).0,
            (#[trigger] all[b]).0,
        ) by {
            if b < i {
                assert(text::precedes(ms[a].0, ms[b].0));
            } else if b == i {
                assert(all[a] == ms[a]);
            } else if a < i {
                assert(text::precedes(ms[a].0, ms[b - 1].0));
            } else if a == i {
                if b - 1 > i {
                    text::precedes_transitive(m.0, ms[i].0, ms[b - 1].0);
                }
            } else {
                assert(text::precedes(ms[a - 1].0, ms[b - 1].0));
            }
        }
    }
}

proof fn arranged_ascends(ms: Seq<(Seq<char>, JsonModel)>)
    ensures
        ascending(arranged(ms)),
    decreases ms.len(),
{
    if ms.len() > 0 {
        arranged_ascends(ms.drop_last());
        put_ascends(arranged(ms.drop_last()), ms.last());
    }
}

/// In ascending members a key is found where it stands.
proof fn found_at(ms: Seq<(Seq<char>, JsonModel)>, i: int)
    requires
        ascending(ms),
        0 <= i < ms.len(),
    ensures
        json::first_member(ms, ms[i].0) == Some(ms[i].1),
    decreases i,
{
    if i > 0 {
        text::precedes_irreflexive(ms[0].0);
        assert(text::precedes(ms[0].0, ms[i].0));
        let rest = ms.skip(1);
        assert forall|a: int, b: int| 0 <= a < b < rest.len() implies text::precedes(
            (#[trigger] rest[a]).0,
            (#[trigger] rest[b]).0,
        ) by {
            assert(text::precedes(ms[a + 1].0, ms[b + 1].0));
        }
        assert(rest[i - 1] == ms[i]);
        found_at(rest, i - 1);
    }
}

proof fn absent(ms: Seq<(Seq<char>, JsonModel)>, key: Seq<char>)
    requires
        forall|i: int| 0 <= i < ms.len() ==> (#[trigger] ms[i]).0 != key,
    ensures
        json::first_member(ms, key) is None,
    decreases ms.len(),
{
    if ms.len() > 0 {
        let rest = ms.skip(1);
        assert forall|i: int| 0 <= i < rest.len() implies (#[trigger] rest[i]).0 != key by {
            assert(rest[i] == ms[i + 1]);
        }
        absent(rest, key);
    }
}

/// Where a key is found in any members.
proof fn found_somewhere(ms: Seq<(Seq<char>, JsonModel)>, key: Seq<char>)
    ensures
        json::first_member(ms, key) is Some ==> exists|i: int|
            0 <= i < ms.len() && (#[trigger] ms[i]).0 == key && json::first_member(ms, key) == Some(
                ms[i].1,
            ),
        json::first_member(ms, key) is None ==> forall|i: int|
            0 <= i < ms.len() ==> (#[trigger] ms[i]).0 != key,
    decreases ms.len(),
{
    if ms.len() > 0 {
        let rest = ms.skip(1);
        found_somewhere(rest, key);
        if ms[0].0 == key {
            assert(ms[0].0 == key);
        } else if json::first_member(rest, key) is Some {
            let i = choose|i: int|
                0 <= i < rest.len() && (#[trigger] rest[i]).0 == key && json::first_member(rest, key)
                    == Some(rest[i].1);
            assert(ms[i + 1] == rest[i]);
        } else {
            assert forall|i: int| 0 <= i < ms.len() implies (#[trigger] ms[i]).0 != key by {
                if i > 0 {
                    assert(rest[i - 1] == ms[i]);
                }
            }
        }
    }
}

proof fn put_finds(ms: Seq<(Seq<char>, JsonModel)>, m: (Seq<char>, JsonModel), key: Seq<char>)
    requires
        ascending(ms),
    ensures
        json::first_member(put(ms, m), key) == if key == m.0 {
            Some(m.1)
        } else {
            json::first_member(ms, key)
        },
{
    let i = slot(ms, m.0, 0);
    let all = put(ms, m);
    slot_facts(ms, m.0, 0);
    put_ascends(ms, m);
    if key == m.0 {
        assert(all[i] == m);
        found_at(all, i);
    } else {
        found_somewhere(ms, key);
        if json::first_member(ms, key) is Some {
            let k = choose|k: int|
                0 <= k < ms.len() && (#[trigger] ms[k]).0 == key && json::first_member(ms, key)
                    == Some(ms[k].1);
            if all.len() == ms.len() || k < i {
                assert(all[k] == ms[k]);
                found_at(all, k);
            } else {
                assert(all[k + 1] == ms[k]);
                found_at(all, k + 1);
            }
        } else {
            assert forall|k: int| 0 <= k < all.len() implies (#[trigger] all[k]).0 != key by {
                if k != i {
                    if all.len() == ms.len() || k < i {
                        assert(all[k] == ms[k]);
                    } else {
                        assert(all[k] == ms[k - 1]);
                    }
                }
            }
            absent(all, key);
        }
    }
}

/// The last member with a key.
pub open spec fn last_member(ms: Seq<(Seq<char>, JsonModel)>, key: Seq<char>) -> Option<JsonModel>
    decreases ms.len(),
{
    if ms.len() == 0 {
        None
    } else if ms.last().0 == key {
        Some(ms.last().1)
    } else {
        last_member(ms.drop_last(), key)
    }
}

proof fn arranged_finds(ms: Seq<(Seq<char>, JsonModel)>, key: Seq<char>)
    ensures
        json::first_member(arranged(ms), key) == last_member(ms, key),
    decreases ms.len(),
{
    if ms.len() > 0 {
        arranged_finds(ms.drop_last(), key);
        arranged_ascends(ms.drop_last());
        put_finds(arranged(ms.drop_last()), ms.last(), key);
    }
}

proof fn ordered_last(ms: Seq<(Seq<char>, JsonModel)>, key: Seq<char>)
    ensures
        last_member(members_in_order(ms), key) == match last_member(ms, key) {
            Some(v) => Some(in_order(v)),
            None => None,
        },
    decreases ms.len(),
{
    if ms.len() > 0 {
        assert(members_in_order(ms).drop_last() =~= members_in_order(ms.drop_last()));
        ordered_last(ms.drop_last(), key);
    }
}

/// Writing keeps what each key of an object leads to: the member that was
/// given last.
pub proof fn writing_keeps_the_members(ms: Seq<(Seq<char>, JsonModel)>, key: Seq<char>)
    ensures
        in_order(JsonModel::Object(ms)).field(key) == match last_member(ms, key) {
            Some(v) => Some(in_order(v)),
            None => None,
        },
{
    arranged_finds(members_in_order(ms), key);
    ordered_last(ms, key);
}

/// No two members have the same key.
pub open spec fn distinct(ms: Seq<(Seq<char>, JsonModel)>) -> bool {
    forall|i: int, j: int| 0 <= i < j < ms.len() ==> (#[trigger] ms[i]).0 != (#[trigger] ms[j]).0
}

proof fn last_is_first(ms: Seq<(Seq<char>, JsonModel)>, key: Seq<char>)
    requires
        distinct(ms),
    ensures
        last_member(ms, key) == json::first_member(ms, key),
    decreases ms.len(),
{
    if ms.len() > 0 {
        let front = ms.drop_last();
        assert forall|i: int, j: int| 0 <= i < j < front.len() implies (#[trigger] front[i]).0 != (
        #[trigger] front[j]).0 by {
            assert(ms[i].0 != ms[j].0);
        }
        last_is_first(front, key);
        found_somewhere(ms, key);
        found_somewhere(front, key);
        if json::first_member(ms, key) is Some {
            let i = choose|i: int|
                0 <= i < ms.len() && (#[trigger] ms[i]).0 == key && json::first_member(ms, key)
                    == Some(ms[i].1);
            if i == ms.len() - 1 {
                assert(ms.last() == ms[i]);
            } else {
                assert(ms[i].0 != ms[ms.len() - 1].0);
                assert(front[i] == ms[i]);
                if json::first_member(front, key) is Some {
                    let k = choose|k: int|
                        0 <= k < front.len() && (#[trigger] front[k]).0 == key
                            && json::first_member(front, key) == Some(front[k].1);
                    if k < i {
                        assert(ms[k].0 != ms[i].0);
                    } else if i < k {
                        assert(ms[i].0 != ms[k].0);
                    }
                }
            }
        } else {
            assert(ms[ms.len() - 1].0 != key);
            if json::first_member(front, key) is Some {
                let k = choose|k: int|
                    0 <= k < front.len() && (#[trigger] front[k]).0 == key;
                assert(ms[k] == front[k]);
            }
        }
    }
}

/// A value whose object, where it is one, has no key twice.
pub open spec fn keyed_once(m: JsonModel) -> bool {
    m matches JsonModel::Object(ms) ==> distinct(ms)
}

/// Writing keeps what a key leads to where no key comes twice.
pub proof fn writing_keeps_a_field(m: JsonModel, key: Seq<char>)
    requires
        plain(m),
        keyed_once(m),
    ensures
        in_order(m).field(key) == match m.field(key) {
            Some(v) => Some(in_order(v)),
            None => None,
        },
        m.field(key) matches Some(v) ==> plain(v),
        in_order(m).text_field(key) == m.text_field(key),
        in_order(m).unsigned_field(key) == m.unsigned_field(key),
        in_order(m).signed_field(key) == m.signed_field(key),
        in_order(m).truth_field(key) == m.truth_field(key),
{
    match m {
        JsonModel::Object(ms) => {
            writing_keeps_the_members(ms, key);
            last_is_first(ms, key);
            found_somewhere(ms, key);
            reveal_with_fuel(in_order, 2);
            reveal_with_fuel(plain, 2);
        },
        _ => {},
    }
}

proof fn put_holds(ms: Seq<(Seq<char>, JsonModel)>, m: (Seq<char>, JsonModel), i: int)
    requires
        0 <= i < put(ms, m).len(),
    ensures
        put(ms, m)[i] == m || ms.contains(put(ms, m)[i]),
{
    let k = slot(ms, m.0, 0);
    let all = put(ms, m);
    slot_facts(ms, m.0, 0);
    if i != k {
        if all.len() == ms.len() || i < k {
            assert(all[i] == ms[i]);
        } else {
            assert(all[i] == ms[i - 1]);
        }
    }
}

proof fn arranged_holds(ms: Seq<(Seq<char>, JsonModel)>, i: int)
    requires
        0 <= i < arranged(ms).len(),
    ensures
        ms.contains(arranged(ms)[i]),
    decreases ms.len(),
{
    if ms.len() > 0 {
        let front = arranged(ms.drop_last());
        let x = arranged(ms)[i];
        put_holds(front, ms.last(), i);
        if x == ms.last() {
            assert(ms[ms.len() - 1] == x);
        } else {
            let k = choose|k: int| 0 <= k < front.len() && front[k] == x;
            arranged_holds(ms.drop_last(), k);
            let j = choose|j: int| 0 <= j < ms.drop_last().len() && ms.drop_last()[j] == x;
            assert(ms[j] == x);
        }
    }
}

/// Putting members in order changes neither what kind of numbers a value
/// holds nor how deep it is nested.
pub proof fn writing_keeps_the_shape(m: JsonModel, depth: nat)
    requires
        plain(m),
        nested_within(m, depth),
    ensures
        plain(in_order(m)),
        nested_within(in_order(m), depth),
    decreases m,
{
    match m {
        JsonModel::List(l) => {
            assert forall|i: int| 0 <= i < list_in_order(l).len() implies plain(
                #[trigger] list_in_order(l)[i],
            ) && nested_within(list_in_order(l)[i], (depth - 1) as nat) by {
                assert(decreases_to!(m => m->List_0[i]));
                assert(plain(l[i]) && nested_within(l[i], (depth - 1) as nat));
                writing_keeps_the_shape(l[i], (depth - 1) as nat);
            }
            assert(in_order(m) == JsonModel::List(list_in_order(l)));
        },
        JsonModel::Object(ms) => {
            let all = arranged(members_in_order(ms));
            assert forall|i: int| 0 <= i < all.len() implies plain((#[trigger] all[i]).1)
                && nested_within(all[i].1, (depth - 1) as nat) by {
                arranged_holds(members_in_order(ms), i);
                let k = choose|k: int|
                    0 <= k < members_in_order(ms).len() && members_in_order(ms)[k] == all[i];
                assert(decreases_to!(m => m->Object_0[k].1));
                assert(plain(ms[k].1) && nested_within(ms[k].1, (depth - 1) as nat));
                writing_keeps_the_shape(ms[k].1, (depth - 1) as nat);
            }
            assert(in_order(m) == JsonModel::Object(all));
        },
        _ => {},
    }
}

// ---------------------------------------------------------------------------
// Writing text
// ---------------------------------------------------------------------------

/// What `serde_json` writes for a value, on one line.
pub uninterp spec fn json_text(m: JsonModel) -> Seq<char>;

/// What `serde_json` writes for a value, indented.
pub uninterp spec fn json_pretty(m: JsonModel) -> Seq<char>;

/// One layer of a value that `serde_json` is to hold.
enum Parts {
    Null,
    Bool(bool),
    Unsigned(u64),
    Negative(i64),
    Text(String),
    List(Vec<serde_json::Value>),
    Object(Vec<(String, serde_json::Value)>),
}

pub open spec fn held_values(v: Seq<serde_json::Value>) -> Seq<JsonModel> {
    Seq::new(v.len(), |i: int| json::held_json(v[i]))
}

pub open spec fn held_pairs(v: Seq<(String, serde_json::Value)>) -> Seq<(Seq<char>, JsonModel)> {
    Seq::new(v.len(), |i: int| (v[i].0@, json::held_json(v[i].1)))
}

/// A `serde_json::Value` of a variant, made of its parts; an integer by
/// `Value::from`, an object by collecting into a `serde_json::Map`.
///
/// Trusted: the value holds what it was made of. A signed integer that is not
/// below zero is held as an unsigned one. A map keeps its members in the order
/// of their keys, which is the order in which they are given here.
#[verifier::external_body]
fn value_of(p: Parts) -> (v: serde_json::Value)
    requires
        p matches Parts::Object(l) ==> ascending(held_pairs(l@)),
    ensures
        json::held_json(v) == match p {
            Parts::Null => JsonModel::Null,
            Parts::Bool(b) => JsonModel::Bool(b),
            Parts::Unsigned(n) => JsonModel::Unsigned(n),
            Parts::Negative(n) => if n < 0 {
                JsonModel::Negative(n)
            } else {
                JsonModel::Unsigned(n as u64)
            },
            Parts::Text(s) => JsonModel::Text(s@),
            Parts::List(l) => JsonModel::List(held_values(l@)),
            Parts::Object(l) => JsonModel::Object(held_pairs(l@)),
        },
{
    match p {
        Parts::Null => serde_json::Value::Null,
        Parts::Bool(b) => serde_json::Value::Bool(b),
        Parts::Unsigned(n) => serde_json::Value::from(n),
        Parts::Negative(n) => serde_json::Value::from(n),
        Parts::Text(s) => serde_json::Value::String(s),
        Parts::List(l) => serde_json::Value::Array(l),
        Parts::Object(l) => serde_json::Value::Object(l.into_iter().collect()),
    }
}

/// `serde_json::Value` as text, by its `Display`, which writes compact JSON.
///
/// Trusted: the text is a function of what the value holds. `serde_json` reads
/// the text back as the same value where every number is an integer and the
/// nesting stays below its limit of 128 levels. The text of an object stands
/// in braces.
#[verifier::external_body]
fn write_value(v: &serde_json::Value) -> (r: String)
    ensures
        r@ == json_text(json::held_json(*v)),
        reads_back(json::held_json(*v)) ==> json::reads_as(r@, json::held_json(*v)),
        json::held_json(*v) is Object ==> r@.len() >= 2 && r@[0] == '{' && r@.last() == '}',
{
    v.to_string()
}

/// `serde_json::to_string_pretty` of a `serde_json::Value`. It fails for no
/// value of that type: the keys of its objects are texts, and the text is
/// written to memory.
///
/// Trusted: the text is a function of what the value holds, and is read back
/// as the compact text is.
#[verifier::external_body]
fn indent_value(v: &serde_json::Value) -> (r: Option<String>)
    ensures
        r is Some,
        r->Some_0@ == json_pretty(json::held_json(*v)),
        reads_back(json::held_json(*v)) ==> json::reads_as(r->Some_0@, json::held_json(*v)),
{
    serde_json::to_string_pretty(v).ok()
}

fn put_value(list: &mut Vec<(String, serde_json::Value)>, key: String, value: serde_json::Value)
    ensures
        held_pairs(final(list)@) == put(
            held_pairs(old(list)@),
            (key@, json::held_json(value)),
        ),
{
    let ghost ms = held_pairs(list@);
    let ghost m = (key@, json::held_json(value));
    let mut i: usize = 0;
    while i < list.len() && before(list[i].0.as_str(), key.as_str())
        invariant
            i <= list.len(),
            ms == held_pairs(list@),
            slot(ms, key@, 0) == slot(ms, key@, i as int),
        decreases list.len() - i,
    {
        i += 1;
    }
    assert(slot(ms, key@, 0) == i);
    if i < list.len() && same(list[i].0.as_str(), key.as_str()) {
        list[i] = (key, value);
        assert(held_pairs(list@) =~= ms.update(i as int, m));
    } else {
        list.insert(i, (key, value));
        assert(held_pairs(list@) =~= ms.insert(i as int, m));
    }
}

fn list_parts(l: &Vec<Json>) -> (r: Vec<serde_json::Value>)
    ensures
        held_values(r@) == list_in_order(json::models(l@)),
    decreases l,
{
    let mut r: Vec<serde_json::Value> = Vec::new();
    let ghost all = list_in_order(json::models(l@));
    let mut i: usize = 0;
    assert(held_values(r@) =~= all.take(0));
    while i < l.len()
        invariant
            i <= l.len(),
            all == list_in_order(json::models(l@)),
            held_values(r@) == all.take(i as int),
        decreases l.len() - i,
    {
        let ghost so_far = held_values(r@);
        assert(decreases_to!(l => l@[i as int]));
        let v: serde_json::Value = as_value(&l[i]);
        let ghost vm = json::held_json(v);
        r.push(v);
        assert(held_values(r@) =~= so_far.push(vm));
        assert(all.take(i + 1) =~= so_far.push(vm));
        i += 1;
    }
    assert(all.take(l@.len() as int) =~= all);
    r
}

fn object_parts(l: &Vec<Member>) -> (r: Vec<(String, serde_json::Value)>)
    ensures
        held_pairs(r@) == arranged(members_in_order(json::member_models(l@))),
    decreases l,
{
    let mut r: Vec<(String, serde_json::Value)> = Vec::new();
    let ghost all = members_in_order(json::member_models(l@));
    let mut i: usize = 0;
    assert(all.take(0) =~= Seq::<(Seq<char>, JsonModel)>::empty());
    assert(held_pairs(r@) =~= arranged(all.take(0)));
    while i < l.len()
        invariant
            i <= l.len(),
            all == members_in_order(json::member_models(l@)),
            held_pairs(r@) == arranged(all.take(i as int)),
        decreases l.len() - i,
    {
        assert(decreases_to!(l => l@[i as int]));
        let v: serde_json::Value = as_value(&l[i].value);
        assert(all.take(i + 1).drop_last() =~= all.take(i as int));
        assert(all.take(i + 1).last() == (l@[i as int].key@, json::held_json(v)));
        put_value(&mut r, l[i].key.clone(), v);
        i += 1;
    }
    assert(all.take(l@.len() as int) =~= all);
    r
}

fn as_value(j: &Json) -> (v: serde_json::Value)
    ensures
        json::held_json(v) == in_order(j.model()),
    decreases j,
{
    match j {
        Json::Null => value_of(Parts::Null),
        Json::Bool(b) => value_of(Parts::Bool(*b)),
        Json::Unsigned(n) => value_of(Parts::Unsigned(*n)),
        Json::Negative(n) => value_of(Parts::Negative(*n)),
        Json::Decimal(s) => match parse_value(s.as_str()) {
            Ok(v) => v,
            Err(_) => value_of(Parts::Null),
        },
        Json::Text(s) => value_of(Parts::Text(s.clone())),
        Json::List(l) => {
            proof {
                json::list_model(*l);
            }
            value_of(Parts::List(list_parts(l)))
        },
        Json::Object(l) => {
            proof {
                json::object_model(*l);
                arranged_ascends(members_in_order(json::member_models(l@)));
            }
            value_of(Parts::Object(object_parts(l)))
        },
    }
}

/// A value as text on one line. A value whose numbers are integers comes back
/// when the text is read.
pub fn compact(j: &Json) -> (r: String)
    ensures
        r@ == json_text(in_order(j.model())),
        reads_back(j.model()) ==> json::reads_as(r@, in_order(j.model())),
        j.model() is Object ==> r@.len() >= 2 && r@[0] == '{' && r@.last() == '}',
{
    proof {
        if reads_back(j.model()) {
            writing_keeps_the_shape(j.model(), MAX_DEPTH as nat);
        }
    }
    write_value(&as_value(j))
}

/// A value as indented text.
pub fn pretty(j: &Json) -> (r: String)
    ensures
        r@ == json_pretty(in_order(j.model())),
        reads_back(j.model()) ==> json::reads_as(r@, in_order(j.model())),
{
    proof {
        if reads_back(j.model()) {
            writing_keeps_the_shape(j.model(), MAX_DEPTH as nat);
        }
    }
    match indent_value(&as_value(j)) {
        Some(s) => s,
        None => String::new(),
    }
}

/// An object as a line of its own: what is read after the whitespace around
/// it is gone is the object.
pub fn line_of(j: &Json) -> (r: String)
    ensures
        r@ == json_text(in_order(j.model())) + seq!['\n'],
        j.model() is Object && reads_back(j.model()) ==> json::reads_as(
            text::trimmed(r@),
            in_order(j.model()),
        ),
{
    let t: String = compact(j);
    let mut r: String = t.clone();
    r.push('\n');
    proof {
        assert(r@ =~= t@ + seq!['\n']);
        if j.model() is Object {
            assert(!text::is_white('{') && !text::is_white('}') && text::is_white('\n'));
            assert(r@[0] == t@[0]);
            assert(text::trimmed_start(r@) == r@);
            assert(r@.drop_last() =~= t@);
            reveal_with_fuel(text::trimmed_end, 3);
            assert(text::trimmed(r@) == t@);
        }
    }
    r
}

// ---------------------------------------------------------------------------
// Lists of texts and of pairs of texts
// ---------------------------------------------------------------------------

/// The texts in a list that holds nothing else.
pub open spec fn text_list(m: JsonModel) -> Option<Seq<Seq<char>>> {
    match m {
        JsonModel::List(l) => if forall|i: int| 0 <= i < l.len() ==> #[trigger] l[i] is Text {
            Some(Seq::new(l.len(), |i: int| l[i]->Text_0))
        } else {
            None
        },
        _ => None,
    }
}

/// What `serde_json` says of a value that is no list of texts.
pub uninterp spec fn no_text_list(m: JsonModel) -> Seq<char>;

/// `serde_json::from_value` into a `Vec<String>`, an error by its `Display`.
///
/// Trusted: it succeeds on an array of strings and on nothing else, with those
/// strings. What it says of any other value is a function of what the value
/// holds.
#[verifier::external_body]
fn read_texts(v: serde_json::Value) -> (r: Result<Vec<String>, String>)
    ensures
        match r {
            Ok(l) => text_list(json::held_json(v)) == Some(text::texts(l@)),
            Err(e) => text_list(json::held_json(v)) is None && e@ == no_text_list(
                json::held_json(v),
            ),
        },
{
    serde_json::from_value::<Vec<String>>(v).map_err(|e| e.to_string())
}

/// The texts in a list of texts, or why a value is none.
pub fn texts_of(j: &Json) -> (r: Result<Vec<String>, String>)
    ensures
        match r {
            Ok(l) => text_list(in_order(j.model())) == Some(text::texts(l@)),
            Err(e) => text_list(in_order(j.model())) is None && e@ == no_text_list(
                in_order(j.model()),
            ),
        },
{
    read_texts(as_value(j))
}

/// A list of texts is written as it is.
pub proof fn a_text_list_is_kept(m: JsonModel)
    requires
        text_list(m) is Some,
    ensures
        in_order(m) == m,
{
    let l = m->List_0;
    assert forall|i: int| 0 <= i < l.len() implies #[trigger] list_in_order(l)[i] == l[i] by {
        assert(l[i] is Text);
        assert(in_order(l[i]) == l[i]);
    }
    assert(list_in_order(l) =~= l);
}

/// A list of two texts.
pub open spec fn is_pair(m: JsonModel) -> bool {
    m matches JsonModel::List(l) && l.len() == 2 && l[0] is Text && l[1] is Text
}

/// The pairs in a list that holds nothing but lists of two texts.
pub open spec fn pair_list(m: JsonModel) -> Option<Seq<(Seq<char>, Seq<char>)>> {
    match m {
        JsonModel::List(l) => if forall|i: int| 0 <= i < l.len() ==> is_pair(#[trigger] l[i]) {
            Some(Seq::new(l.len(), |i: int| (l[i]->List_0[0]->Text_0, l[i]->List_0[1]->Text_0)))
        } else {
            None
        },
        _ => None,
    }
}

/// The texts of pairs.
pub open spec fn pair_texts(v: Seq<(String, String)>) -> Seq<(Seq<char>, Seq<char>)> {
    Seq::new(v.len(), |i: int| (v[i].0@, v[i].1@))
}

/// What `serde_json` says of a value that is no list of pairs of texts.
pub uninterp spec fn no_pair_list(m: JsonModel) -> Seq<char>;

/// `serde_json::from_value` into a `Vec<(String, String)>`, an error by its
/// `Display`.
///
/// Trusted: it succeeds on an array of arrays of two strings each and on
/// nothing else, with those strings. What it says of any other value is a
/// function of what the value holds.
#[verifier::external_body]
fn read_pairs(v: serde_json::Value) -> (r: Result<Vec<(String, String)>, String>)
    ensures
        match r {
            Ok(l) => pair_list(json::held_json(v)) == Some(pair_texts(l@)),
            Err(e) => pair_list(json::held_json(v)) is None && e@ == no_pair_list(
                json::held_json(v),
            ),
        },
{
    serde_json::from_value::<Vec<(String, String)>>(v).map_err(|e| e.to_string())
}

/// The pairs in a list of pairs of texts, or why a value is none.
pub fn pairs_of(j: &Json) -> (r: Result<Vec<(String, String)>, String>)
    ensures
        match r {
            Ok(l) => pair_list(in_order(j.model())) == Some(pair_texts(l@)),
            Err(e) => pair_list(in_order(j.model())) is None && e@ == no_pair_list(
                in_order(j.model()),
            ),
        },
{
    read_pairs(as_value(j))
}

/// A list of pairs of texts is written as it is.
pub proof fn a_pair_list_is_kept(m: JsonModel)
    requires
        pair_list(m) is Some,
    ensures
        in_order(m) == m,
{
    let l = m->List_0;
    assert forall|i: int| 0 <= i < l.len() implies #[trigger] list_in_order(l)[i] == l[i] by {
        assert(is_pair(l[i]));
        let pair = l[i]->List_0;
        assert forall|k: int| 0 <= k < pair.len() implies #[trigger] pair[k] is Text by {}
        a_text_list_is_kept(l[i]);
    }
    assert(list_in_order(l) =~= l);
}

} // verus!
