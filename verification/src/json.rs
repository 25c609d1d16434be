//! JSON values: what requests and replies are made of.
//!
//! Text is read by `serde_json`; what it read is held here as plain values.

use crate::text;
use crate::text::same;
use vstd::prelude::*;

verus! {

/// A JSON value. An integer is kept as one, whatever else is a number as its
/// text.
#[derive(Debug, PartialEq)]
pub enum Json {
    Null,
    Bool(bool),
    Unsigned(u64),
    /// Below zero.
    Negative(i64),
    Decimal(String),
    Text(String),
    List(Vec<Json>),
    Object(Vec<Member>),
}

/// A member of an object.
#[derive(Debug, PartialEq)]
pub struct Member {
    pub key: String,
    pub value: Json,
}

/// A JSON value as a model.
#[verifier::ext_equal]
pub enum JsonModel {
    Null,
    Bool(bool),
    Unsigned(u64),
    Negative(i64),
    Decimal(Seq<char>),
    Text(Seq<char>),
    List(Seq<JsonModel>),
    Object(Seq<(Seq<char>, JsonModel)>),
}

impl Json {
    pub open spec fn model(self) -> JsonModel
        decreases self,
    {
        match self {
            Json::Null => JsonModel::Null,
            Json::Bool(b) => JsonModel::Bool(b),
            Json::Unsigned(n) => JsonModel::Unsigned(n),
            Json::Negative(n) => JsonModel::Negative(n),
            Json::Decimal(s) => JsonModel::Decimal(s@),
            Json::Text(s) => JsonModel::Text(s@),
            Json::List(v) => JsonModel::List(
                Seq::new(
                    v@.len(),
                    |i: int|
                        if 0 <= i < v@.len() {
                            v@[i].model()
                        } else {
                            arbitrary()
                        },
                ),
            ),
            Json::Object(v) => JsonModel::Object(
                Seq::new(
                    v@.len(),
                    |i: int|
                        if 0 <= i < v@.len() {
                            (v@[i].key@, v@[i].value.model())
                        } else {
                            arbitrary()
                        },
                ),
            ),
        }
    }
}

/// The models of a list of values.
pub open spec fn models(v: Seq<Json>) -> Seq<JsonModel> {
    Seq::new(v.len(), |i: int| v[i].model())
}

/// The models of the members of an object.
pub open spec fn member_models(v: Seq<Member>) -> Seq<(Seq<char>, JsonModel)> {
    Seq::new(v.len(), |i: int| (v[i].key@, v[i].value.model()))
}

pub proof fn list_model(v: Vec<Json>)
    ensures
        Json::List(v).model() == JsonModel::List(models(v@)),
{
    assert(Json::List(v).model()->List_0 =~= models(v@));
}

pub proof fn object_model(v: Vec<Member>)
    ensures
        Json::Object(v).model() == JsonModel::Object(member_models(v@)),
{
    assert(Json::Object(v).model()->Object_0 =~= member_models(v@));
}

// ---------------------------------------------------------------------------
// Reading text
// ---------------------------------------------------------------------------

/// A value of `serde_json`.
#[verifier::external_type_specification]
#[verifier::external_body]
pub struct ExValue(serde_json::Value);

/// What a value of `serde_json` holds.
pub uninterp spec fn held_json(v: serde_json::Value) -> JsonModel;

/// What `serde_json` reads in a text: a value, or what it says of a text that
/// is no JSON.
pub uninterp spec fn read_json(s: Seq<char>) -> Result<JsonModel, Seq<char>>;

/// A text is read as a value.
pub open spec fn reads_as(s: Seq<char>, m: JsonModel) -> bool {
    read_json(s) == Ok::<JsonModel, Seq<char>>(m)
}

/// `serde_json::from_str` into a `serde_json::Value`, an error by its `Display`.
///
/// Trusted: the same text always gives a value that holds the same, or always
/// fails with the same words.
#[verifier::external_body]
pub(crate) fn parse_value(s: &str) -> (r: Result<serde_json::Value, String>)
    ensures
        match r {
            Ok(v) => read_json(s@) == Ok::<JsonModel, Seq<char>>(held_json(v)),
            Err(e) => read_json(s@) == Err::<JsonModel, Seq<char>>(e@),
        },
{
    serde_json::from_str::<serde_json::Value>(s).map_err(|e| e.to_string())
}

/// One layer of a value of `serde_json`.
pub enum Layer<'a> {
    Null,
    Bool(bool),
    Unsigned(u64),
    Negative(i64),
    Decimal(String),
    Text(String),
    List(Vec<&'a serde_json::Value>),
    Object(Vec<(String, &'a serde_json::Value)>),
}

pub open spec fn held_list(v: Seq<&serde_json::Value>) -> Seq<JsonModel> {
    Seq::new(v.len(), |i: int| held_json(*v[i]))
}

pub open spec fn held_members(v: Seq<(String, &serde_json::Value)>) -> Seq<
    (Seq<char>, JsonModel),
> {
    Seq::new(v.len(), |i: int| (v[i].0@, held_json(*v[i].1)))
}

/// The variant of a `serde_json::Value` and what it holds; an integer by
/// `Number::as_u64` and `Number::as_i64`, of which the second answers only
/// below zero where the first did not.
///
/// Trusted: what is handed out is what the value holds.
#[verifier::external_body]
fn layer<'a>(v: &'a serde_json::Value) -> (r: Layer<'a>)
    ensures
        held_json(*v) == match r {
            Layer::Null => JsonModel::Null,
            Layer::Bool(b) => JsonModel::Bool(b),
            Layer::Unsigned(n) => JsonModel::Unsigned(n),
            Layer::Negative(n) => JsonModel::Negative(n),
            Layer::Decimal(s) => JsonModel::Decimal(s@),
            Layer::Text(s) => JsonModel::Text(s@),
            Layer::List(l) => JsonModel::List(held_list(l@)),
            Layer::Object(l) => JsonModel::Object(held_members(l@)),
        },
{
    match v {
        serde_json::Value::Null => Layer::Null,
        serde_json::Value::Bool(b) => Layer::Bool(*b),
        serde_json::Value::Number(n) => match (n.as_u64(), n.as_i64()) {
            (Some(u), _) => Layer::Unsigned(u),
            (None, Some(i)) => Layer::Negative(i),
            (None, None) => Layer::Decimal(n.to_string()),
        },
        serde_json::Value::String(s) => Layer::Text(s.clone()),
        serde_json::Value::Array(l) => Layer::List(l.iter().collect()),
        serde_json::Value::Object(m) => Layer::Object(m.iter().map(|(k, x)| (k.clone(), x)).collect()),
    }
}

fn read_list<'a>(l: &Vec<&'a serde_json::Value>, Ghost(all): Ghost<JsonModel>) -> (r: Vec<Json>)
    requires
        all == JsonModel::List(held_list(l@)),
    ensures
        models(r@) == held_list(l@),
    decreases all, 0nat,
{
    let mut r: Vec<Json> = Vec::new();
    let mut i: usize = 0;
    assert(models(r@) =~= held_list(l@).take(0));
    while i < l.len()
        invariant
            i <= l.len(),
            all == JsonModel::List(held_list(l@)),
            models(r@) == held_list(l@).take(i as int),
        decreases l.len() - i,
    {
        let ghost before = models(r@);
        assert(decreases_to!(all => all->List_0[i as int]));
        assert(all->List_0[i as int] == held_json(*l@[i as int]));
        let j: Json = read_value(l[i]);
        let ghost jm = j.model();
        r.push(j);
        assert(models(r@) =~= before.push(jm));
        assert(held_list(l@).take(i + 1) =~= before.push(jm));
        i += 1;
    }
    assert(held_list(l@).take(l@.len() as int) =~= held_list(l@));
    r
}

fn read_members<'a>(
    l: &Vec<(String, &'a serde_json::Value)>,
    Ghost(all): Ghost<JsonModel>,
) -> (r: Vec<Member>)
    requires
        all == JsonModel::Object(held_members(l@)),
    ensures
        member_models(r@) == held_members(l@),
    decreases all, 0nat,
{
    let mut r: Vec<Member> = Vec::new();
    let mut i: usize = 0;
    assert(member_models(r@) =~= held_members(l@).take(0));
    while i < l.len()
        invariant
            i <= l.len(),
            all == JsonModel::Object(held_members(l@)),
            member_models(r@) == held_members(l@).take(i as int),
        decreases l.len() - i,
    {
        let ghost before = member_models(r@);
        assert(decreases_to!(all => all->Object_0[i as int].1));
        assert(all->Object_0[i as int].1 == held_json(*l@[i as int].1));
        let m: Member = Member { key: l[i].0.clone(), value: read_value(l[i].1) };
        let ghost mm = (m.key@, m.value.model());
        r.push(m);
        assert(member_models(r@) =~= before.push(mm));
        assert(held_members(l@).take(i + 1) =~= before.push(mm));
        i += 1;
    }
    assert(held_members(l@).take(l@.len() as int) =~= held_members(l@));
    r
}

fn read_value(v: &serde_json::Value) -> (r: Json)
    ensures
        r.model() == held_json(*v),
    decreases held_json(*v), 1nat,
{
    match layer(v) {
        Layer::Null => Json::Null,
        Layer::Bool(b) => Json::Bool(b),
        Layer::Unsigned(n) => Json::Unsigned(n),
        Layer::Negative(n) => Json::Negative(n),
        Layer::Decimal(s) => Json::Decimal(s),
        Layer::Text(s) => Json::Text(s),
        Layer::List(l) => {
            let r: Vec<Json> = read_list(&l, Ghost(held_json(*v)));
            proof {
                list_model(r);
            }
            Json::List(r)
        },
        Layer::Object(l) => {
            let r: Vec<Member> = read_members(&l, Ghost(held_json(*v)));
            proof {
                object_model(r);
            }
            Json::Object(r)
        },
    }
}

/// The value that a text spells, or why it spells none.
pub fn parse(s: &str) -> (r: Result<Json, String>)
    ensures
        match r {
            Ok(j) => reads_as(s@, j.model()),
            Err(e) => read_json(s@) == Err::<JsonModel, Seq<char>>(e@),
        },
{
    match parse_value(s) {
        Ok(v) => Ok(read_value(&v)),
        Err(e) => Err(e),
    }
}

// ---------------------------------------------------------------------------
// Looking inside
// ---------------------------------------------------------------------------

pub open spec fn first_member(ms: Seq<(Seq<char>, JsonModel)>, key: Seq<char>) -> Option<JsonModel>
    decreases ms.len(),
{
    if ms.len() == 0 {
        None
    } else if ms[0].0 == key {
        Some(ms[0].1)
    } else {
        first_member(ms.skip(1), key)
    }
}

impl JsonModel {
    /// The member of an object.
    pub open spec fn field(self, key: Seq<char>) -> Option<JsonModel> {
        match self {
            JsonModel::Object(ms) => first_member(ms, key),
            _ => None,
        }
    }

    pub open spec fn text(self) -> Option<Seq<char>> {
        match self {
            JsonModel::Text(s) => Some(s),
            _ => None,
        }
    }

    pub open spec fn unsigned(self) -> Option<u64> {
        match self {
            JsonModel::Unsigned(n) => Some(n),
            _ => None,
        }
    }

    pub open spec fn signed(self) -> Option<i64> {
        match self {
            JsonModel::Unsigned(n) => if n <= i64::MAX {
                Some(n as i64)
            } else {
                None
            },
            JsonModel::Negative(n) => Some(n),
            _ => None,
        }
    }

    pub open spec fn truth(self) -> Option<bool> {
        match self {
            JsonModel::Bool(b) => Some(b),
            _ => None,
        }
    }

    /// A member that is a text.
    pub open spec fn text_field(self, key: Seq<char>) -> Option<Seq<char>> {
        match self.field(key) {
            Some(v) => v.text(),
            None => None,
        }
    }

    pub open spec fn unsigned_field(self, key: Seq<char>) -> Option<u64> {
        match self.field(key) {
            Some(v) => v.unsigned(),
            None => None,
        }
    }

    pub open spec fn signed_field(self, key: Seq<char>) -> Option<i64> {
        match self.field(key) {
            Some(v) => v.signed(),
            None => None,
        }
    }

    pub open spec fn truth_field(self, key: Seq<char>) -> Option<bool> {
        match self.field(key) {
            Some(v) => v.truth(),
            None => None,
        }
    }
}

impl Json {
    pub fn get(&self, key: &str) -> (r: Option<&Json>)
        ensures
            match r {
                Some(j) => self.model().field(key@) == Some(j.model()),
                None => self.model().field(key@) is None,
            },
    {
        match self {
            Json::Object(v) => {
                proof {
                    object_model(*v);
                }
                let ghost ms = member_models(v@);
                let mut i: usize = 0;
                assert(ms.skip(0) =~= ms);
                while i < v.len()
                    invariant
                        i <= v.len(),
                        ms == member_models(v@),
                        self.model() == JsonModel::Object(ms),
                        first_member(ms, key@) == first_member(ms.skip(i as int), key@),
                    decreases v.len() - i,
                {
                    assert(ms.skip(i as int)[0] == ms[i as int]);
                    assert(ms.skip(i as int).skip(1) =~= ms.skip(i + 1));
                    if same(v[i].key.as_str(), key) {
                        return Some(&v[i].value);
                    }
                    i += 1;
                }
                None
            },
            _ => None,
        }
    }

    pub fn as_str(&self) -> (r: Option<&str>)
        ensures
            match r {
                Some(s) => self.model().text() == Some(s@),
                None => self.model().text() is None,
            },
    {
        match self {
            Json::Text(s) => Some(s.as_str()),
            _ => None,
        }
    }

    pub fn as_u64(&self) -> (r: Option<u64>)
        ensures
            r == self.model().unsigned(),
    {
        match self {
            Json::Unsigned(n) => Some(*n),
            _ => None,
        }
    }

    pub fn as_i64(&self) -> (r: Option<i64>)
        ensures
            r == self.model().signed(),
    {
        match self {
            Json::Unsigned(n) => if *n <= 0x7fff_ffff_ffff_ffff {
                Some(*n as i64)
            } else {
                None
            },
            Json::Negative(n) => Some(*n),
            _ => None,
        }
    }

    pub fn as_bool(&self) -> (r: Option<bool>)
        ensures
            r == self.model().truth(),
    {
        match self {
            Json::Bool(b) => Some(*b),
            _ => None,
        }
    }

    pub fn str_at(&self, key: &str) -> (r: Option<&str>)
        ensures
            match r {
                Some(s) => self.model().text_field(key@) == Some(s@),
                None => self.model().text_field(key@) is None,
            },
    {
        match self.get(key) {
            Some(j) => j.as_str(),
            None => None,
        }
    }

    pub fn u64_at(&self, key: &str) -> (r: Option<u64>)
        ensures
            r == self.model().unsigned_field(key@),
    {
        match self.get(key) {
            Some(j) => j.as_u64(),
            None => None,
        }
    }

    pub fn i64_at(&self, key: &str) -> (r: Option<i64>)
        ensures
            r == self.model().signed_field(key@),
    {
        match self.get(key) {
            Some(j) => j.as_i64(),
            None => None,
        }
    }

    pub fn bool_at(&self, key: &str) -> (r: Option<bool>)
        ensures
            r == self.model().truth_field(key@),
    {
        match self.get(key) {
            Some(j) => j.as_bool(),
            None => None,
        }
    }

    /// A copy.
    pub fn copy(&self) -> (r: Json)
        ensures
            r.model() == self.model(),
        decreases self,
    {
        match self {
            Json::Null => Json::Null,
            Json::Bool(b) => Json::Bool(*b),
            Json::Unsigned(n) => Json::Unsigned(*n),
            Json::Negative(n) => Json::Negative(*n),
            Json::Decimal(s) => Json::Decimal(s.clone()),
            Json::Text(s) => Json::Text(s.clone()),
            Json::List(v) => {
                let mut r: Vec<Json> = Vec::new();
                let mut i: usize = 0;
                assert(models(r@) =~= models(v@).take(0));
                while i < v.len()
                    invariant
                        i <= v.len(),
                        *self == Json::List(*v),
                        models(r@) == models(v@).take(i as int),
                    decreases v.len() - i,
                {
                    let ghost before = models(r@);
                    assert(decreases_to!(self => self->List_0@[i as int]));
                    let j: Json = v[i].copy();
                    let ghost jm = j.model();
                    r.push(j);
                    assert(models(r@) =~= before.push(jm));
                    assert(models(v@).take(i + 1) =~= before.push(jm));
                    i += 1;
                }
                assert(models(v@).take(v@.len() as int) =~= models(v@));
                proof {
                    list_model(*v);
                    list_model(r);
                }
                Json::List(r)
            },
            Json::Object(v) => {
                let mut r: Vec<Member> = Vec::new();
                let mut i: usize = 0;
                assert(member_models(r@) =~= member_models(v@).take(0));
                while i < v.len()
                    invariant
                        i <= v.len(),
                        *self == Json::Object(*v),
                        member_models(r@) == member_models(v@).take(i as int),
                    decreases v.len() - i,
                {
                    let ghost before = member_models(r@);
                    assert(decreases_to!(self => self->Object_0@[i as int].value));
                    let m: Member = Member { key: v[i].key.clone(), value: v[i].value.copy() };
                    let ghost mm = (m.key@, m.value.model());
                    r.push(m);
                    assert(member_models(r@) =~= before.push(mm));
                    assert(member_models(v@).take(i + 1) =~= before.push(mm));
                    i += 1;
                }
                assert(member_models(v@).take(v@.len() as int) =~= member_models(v@));
                proof {
                    object_model(*v);
                    object_model(r);
                }
                Json::Object(r)
            },
        }
    }
}

// ---------------------------------------------------------------------------
// Building
// ---------------------------------------------------------------------------

/// An object in the making.
pub struct Builder {
    members: Vec<Member>,
}

impl View for Builder {
    type V = Seq<(Seq<char>, JsonModel)>;

    closed spec fn view(&self) -> Seq<(Seq<char>, JsonModel)> {
        member_models(self.members@)
    }
}

impl Builder {
    pub fn new() -> (r: Builder)
        ensures
            r@ == Seq::<(Seq<char>, JsonModel)>::empty(),
    {
        let r: Builder = Builder { members: Vec::new() };
        assert(r@ =~= Seq::<(Seq<char>, JsonModel)>::empty());
        r
    }

    /// With one member more.
    pub fn with(self, key: &str, value: Json) -> (r: Builder)
        ensures
            r@ == self@.push((key@, value.model())),
    {
        let mut members: Vec<Member> = self.members;
        let ghost before = member_models(members@);
        let ghost vm = value.model();
        members.push(Member { key: key.to_owned(), value });
        assert(member_models(members@) =~= before.push((key@, vm)));
        Builder { members }
    }

    pub fn done(self) -> (r: Json)
        ensures
            r.model() == JsonModel::Object(self@),
    {
        proof {
            object_model(self.members);
        }
        Json::Object(self.members)
    }
}

/// A text value.
pub fn text_value(s: &str) -> (r: Json)
    ensures
        r.model() == JsonModel::Text(s@),
{
    Json::Text(s.to_owned())
}

/// A list with one value more.
pub fn append(list: Vec<Json>, value: Json) -> (r: Vec<Json>)
    ensures
        models(r@) == models(list@).push(value.model()),
{
    let mut list: Vec<Json> = list;
    let ghost before = models(list@);
    let ghost vm = value.model();
    list.push(value);
    assert(models(list@) =~= before.push(vm));
    list
}

pub fn no_values() -> (r: Vec<Json>)
    ensures
        models(r@) == Seq::<JsonModel>::empty(),
{
    let r: Vec<Json> = Vec::new();
    assert(models(r@) =~= Seq::<JsonModel>::empty());
    r
}

/// A list value.
pub fn list_value(list: Vec<Json>) -> (r: Json)
    ensures
        r.model() == JsonModel::List(models(list@)),
{
    proof {
        list_model(list);
    }
    Json::List(list)
}

} // verus!
