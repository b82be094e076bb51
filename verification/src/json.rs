use vstd::prelude::*;
use serde_json::Value;

verus! {

/// A JSON value as the filter sees it: the shape of a Pandoc AST node.
///
/// Numbers are kept as their literal text, since the filter never reads
/// them and only carries them through. Object members keep their order.
#[derive(Debug, PartialEq)]
pub enum Json {
    Null,
    Bool(bool),
    Number(String),
    Str(String),
    Array(Vec<Json>),
    Object(Vec<(String, Json)>),
}

/// The mathematical model of a [`Json`] value.
#[verifier::ext_equal]
pub enum JsonV {
    Null,
    Bool(bool),
    Number(Seq<char>),
    Str(Seq<char>),
    Array(Seq<JsonV>),
    Object(Seq<(Seq<char>, JsonV)>),
}

pub open spec fn view_json(j: Json) -> JsonV
    decreases j,
{
    match j {
        Json::Null => JsonV::Null,
        Json::Bool(b) => JsonV::Bool(b),
        Json::Number(n) => JsonV::Number(n@),
        Json::Str(s) => JsonV::Str(s@),
        Json::Array(items) => JsonV::Array(view_items(items@)),
        Json::Object(members) => JsonV::Object(view_members(members@)),
    }
}

pub open spec fn view_items(s: Seq<Json>) -> Seq<JsonV>
    decreases s,
{
    if s.len() == 0 {
        Seq::empty()
    } else {
        view_items(s.drop_last()).push(view_json(s.last()))
    }
}

pub open spec fn view_members(s: Seq<(String, Json)>) -> Seq<(Seq<char>, JsonV)>
    decreases s,
{
    if s.len() == 0 {
        Seq::empty()
    } else {
        view_members(s.drop_last()).push((s.last().0@, view_json(s.last().1)))
    }
}

impl View for Json {
    type V = JsonV;

    open spec fn view(&self) -> JsonV {
        view_json(*self)
    }
}


/// `view_items` keeps the length and views each element in place.
pub proof fn lemma_view_items(s: Seq<Json>)
    ensures
        view_items(s).len() == s.len(),
        forall|i: int| 0 <= i < s.len() ==> #[trigger] view_items(s)[i] == view_json(s[i]),
    decreases s.len(),
{
    if s.len() > 0 {
        lemma_view_items(s.drop_last());
        assert forall|i: int| 0 <= i < s.len() implies #[trigger] view_items(s)[i] == view_json(
            s[i],
        ) by {
            if i < s.len() - 1 {
                assert(s.drop_last()[i] == s[i]);
            }
        }
    }
}

/// `view_members` keeps the length and views each member in place.
pub proof fn lemma_view_members(s: Seq<(String, Json)>)
    ensures
        view_members(s).len() == s.len(),
        forall|i: int|
            0 <= i < s.len() ==> #[trigger] view_members(s)[i] == (s[i].0@, view_json(s[i].1)),
    decreases s.len(),
{
    if s.len() > 0 {
        lemma_view_members(s.drop_last());
        assert forall|i: int| 0 <= i < s.len() implies #[trigger] view_members(s)[i] == (
            s[i].0@,
            view_json(s[i].1),
        ) by {
            if i < s.len() - 1 {
                assert(s.drop_last()[i] == s[i]);
            }
        }
    }
}

/// The value of the first member named `k`, if any.
pub open spec fn member_value(m: Seq<(Seq<char>, JsonV)>, k: Seq<char>) -> Option<JsonV>
    decreases m.len(),
{
    if m.len() == 0 {
        None
    } else if m[0].0 == k {
        Some(m[0].1)
    } else {
        member_value(m.drop_first(), k)
    }
}

/// What `v[k]` gives for a key: the member's value, or nothing.
pub open spec fn key_opt(v: JsonV, k: Seq<char>) -> Option<JsonV> {
    match v {
        JsonV::Object(m) => member_value(m, k),
        _ => None,
    }
}

/// What `v[i]` gives for a position: the element, or nothing.
pub open spec fn idx_opt(v: JsonV, i: int) -> Option<JsonV> {
    match v {
        JsonV::Array(s) => if 0 <= i < s.len() {
            Some(s[i])
        } else {
            None
        },
        _ => None,
    }
}

/// Indexing by key as in a JSON document model: missing reads as `null`.
pub open spec fn key(v: JsonV, k: Seq<char>) -> JsonV {
    match key_opt(v, k) {
        Some(x) => x,
        None => JsonV::Null,
    }
}

/// Indexing by position: out of range, or not an array, reads as `null`.
pub open spec fn idx(v: JsonV, i: int) -> JsonV {
    match idx_opt(v, i) {
        Some(x) => x,
        None => JsonV::Null,
    }
}

/// Equality of two string slices by their characters.
pub fn str_eq(a: &str, b: &str) -> (r: bool)
    ensures
        r == (a@ == b@),
{
    let x = a.to_owned();
    let y = b.to_owned();
    x == y
}

impl Json {
    /// The member named `k`, when `self` is an object that has one.
    pub fn get(&self, k: &str) -> (r: Option<&Json>)
        ensures
            match r {
                Some(x) => key_opt(self@, k@) == Some(x@),
                None => key_opt(self@, k@) is None,
            },
    {
        match self {
            Json::Object(members) => {
                proof {
                    lemma_view_members(members@);
                }
                let ghost m = view_members(members@);
                let mut i: usize = 0;
                assert(m.subrange(0, m.len() as int) =~= m);
                while i < members.len()
                    invariant
                        i <= members@.len(),
                        m == view_members(members@),
                        self@ == JsonV::Object(m),
                        m.len() == members@.len(),
                        forall|j: int|
                            0 <= j < members@.len() ==> #[trigger] m[j] == (
                                members@[j].0@,
                                view_json(members@[j].1),
                            ),
                        member_value(m, k@) == member_value(m.subrange(i as int, m.len() as int), k@),
                    decreases members@.len() - i,
                {
                    let ghost rest = m.subrange(i as int, m.len() as int);
                    assert(rest.len() > 0 && rest[0] == m[i as int]);
                    if str_eq(members[i].0.as_str(), k) {
                        return Some(&members[i].1);
                    }
                    assert(rest.drop_first() =~= m.subrange(i + 1, m.len() as int));
                    i = i + 1;
                }
                None
            },
            _ => None,
        }
    }

    /// The element at position `i`, when `self` is an array that long.
    pub fn at(&self, i: usize) -> (r: Option<&Json>)
        ensures
            match r {
                Some(x) => idx_opt(self@, i as int) == Some(x@),
                None => idx_opt(self@, i as int) is None,
            },
    {
        match self {
            Json::Array(items) => {
                proof {
                    lemma_view_items(items@);
                }
                if i < items.len() {
                    Some(&items[i])
                } else {
                    None
                }
            },
            _ => None,
        }
    }

    /// The text, when `self` is a string.
    pub fn as_str(&self) -> (r: Option<&str>)
        ensures
            match r {
                Some(s) => self@ == JsonV::Str(s@),
                None => !(self@ is Str),
            },
    {
        match self {
            Json::Str(s) => Some(s.as_str()),
            _ => None,
        }
    }

    /// Whether `self` is the string `s`.
    pub fn is_str(&self, s: &str) -> (r: bool)
        ensures
            r == (self@ == JsonV::Str(s@)),
    {
        match self {
            Json::Str(t) => str_eq(t.as_str(), s),
            _ => false,
        }
    }
}

/// `member_value` finds the first member with the key.
pub proof fn lemma_member_value_first(m: Seq<(Seq<char>, JsonV)>, k: Seq<char>)
    ensures
        member_value(m, k) is None ==> forall|j: int| 0 <= j < m.len() ==> #[trigger] m[j].0 != k,
        member_value(m, k) is Some ==> exists|j: int|
            0 <= j < m.len() && #[trigger] m[j].0 == k && member_value(m, k) == Some(m[j].1) && (
            forall|i: int| 0 <= i < j ==> #[trigger] m[i].0 != k),
    decreases m.len(),
{
    if m.len() > 0 {
        let t = m.drop_first();
        lemma_member_value_first(t, k);
        if m[0].0 == k {
            assert(m[0].0 == k);
        } else if member_value(m, k) is None {
            assert forall|j: int| 0 <= j < m.len() implies #[trigger] m[j].0 != k by {
                if j > 0 {
                    assert(t[j - 1] == m[j]);
                }
            }
        } else {
            let j = choose|j: int|
                0 <= j < t.len() && #[trigger] t[j].0 == k && member_value(t, k) == Some(t[j].1)
                    && (forall|i: int| 0 <= i < j ==> #[trigger] t[i].0 != k);
            assert(m[j + 1] == t[j]);
            assert forall|i: int| 0 <= i < j + 1 implies #[trigger] m[i].0 != k by {
                if i > 0 {
                    assert(t[i - 1] == m[i]);
                }
            }
        }
    }
}

/// The first member with the key gives `member_value`.
pub proof fn lemma_member_value_at(m: Seq<(Seq<char>, JsonV)>, k: Seq<char>, j: int)
    requires
        0 <= j < m.len(),
        m[j].0 == k,
        forall|i: int| 0 <= i < j ==> #[trigger] m[i].0 != k,
    ensures
        member_value(m, k) == Some(m[j].1),
    decreases m.len(),
{
    if j > 0 {
        let t = m.drop_first();
        assert forall|i: int| 0 <= i < j - 1 implies #[trigger] t[i].0 != k by {
            assert(t[i] == m[i + 1]);
        }
        lemma_member_value_at(t, k, j - 1);
    }
}


/// `m` with the value of its first member named `k` set to `v`; unchanged
/// when there is none.
pub open spec fn set_first(m: Seq<(Seq<char>, JsonV)>, k: Seq<char>, v: JsonV) -> Seq<(Seq<char>, JsonV)>
    decreases m.len(),
{
    if m.len() == 0 {
        m
    } else if m[0].0 == k {
        m.update(0, (k, v))
    } else {
        seq![m[0]] + set_first(m.drop_first(), k, v)
    }
}

/// Setting the first member named `k` updates it in place.
pub proof fn lemma_set_first_at(m: Seq<(Seq<char>, JsonV)>, k: Seq<char>, v: JsonV, j: int)
    requires
        0 <= j < m.len(),
        m[j].0 == k,
        forall|i: int| 0 <= i < j ==> #[trigger] m[i].0 != k,
    ensures
        set_first(m, k, v) == m.update(j, (k, v)),
    decreases m.len(),
{
    if j > 0 {
        let t = m.drop_first();
        assert forall|i: int| 0 <= i < j - 1 implies #[trigger] t[i].0 != k by {
            assert(t[i] == m[i + 1]);
        }
        lemma_set_first_at(t, k, v, j - 1);
        assert(seq![m[0]] + t.update(j - 1, (k, v)) =~= m.update(j, (k, v)));
    }
}

/// The position of the first member of `members` named `k`, if any.
pub fn find_key(members: &Vec<(String, Json)>, k: &str) -> (r: Option<usize>)
    ensures
        match r {
            Some(j) => j < members@.len() && members@[j as int].0@ == k@ && forall|i: int|
                0 <= i < j ==> #[trigger] members@[i].0@ != k@,
            None => forall|i: int| 0 <= i < members@.len() ==> #[trigger] members@[i].0@ != k@,
        },
{
    let mut i: usize = 0;
    while i < members.len()
        invariant
            i <= members@.len(),
            forall|j: int| 0 <= j < i ==> #[trigger] members@[j].0@ != k@,
        decreases members@.len() - i,
    {
        if str_eq(members[i].0.as_str(), k) {
            return Some(i);
        }
        i = i + 1;
    }
    None
}


#[verifier::external_type_specification]
#[verifier::external_body]
pub struct ExValue(serde_json::Value);

/// The value that `serde_json` parses from a text, as a [`JsonV`]; `None`
/// when the text is not JSON.
pub uninterp spec fn parsed_json(text: Seq<char>) -> Option<JsonV>;

/// The compact text that `serde_json` writes for a value.
pub uninterp spec fn json_text(v: JsonV) -> Seq<char>;

/// Converts a `serde_json::Value` into a [`Json`], variant for variant
/// (a number by its `to_string` text, object members in the map's order).
#[verifier::external_body]
fn json_from_value(v: Value) -> Json {
    match v {
        Value::Null => Json::Null,
        Value::Bool(b) => Json::Bool(b),
        Value::Number(n) => Json::Number(n.to_string()),
        Value::String(s) => Json::Str(s),
        Value::Array(a) => Json::Array(a.into_iter().map(json_from_value).collect()),
        Value::Object(m) => Json::Object(m.into_iter().map(|(k, x)| (k, json_from_value(x))).collect()),
    }
}

/// Converts a [`Json`] into a `serde_json::Value`, variant for variant (a
/// number from its text; text that `serde_json` does not take as a number
/// becomes `null`, which no parsed value holds).
#[verifier::external_body]
fn json_to_value(j: &Json) -> Value {
    match j {
        Json::Null => Value::Null,
        Json::Bool(b) => Value::Bool(*b),
        Json::Number(n) => n.parse().map(Value::Number).unwrap_or(Value::Null),
        Json::Str(s) => Value::String(s.clone()),
        Json::Array(a) => Value::Array(a.iter().map(json_to_value).collect()),
        Json::Object(m) => Value::Object(m.iter().map(|(k, x)| (k.clone(), json_to_value(x))).collect()),
    }
}

/// Parses `text` with `serde_json::from_str::<serde_json::Value>` and
/// converts the result. Claims only that the result is `parsed_json` of the
/// text: `None` exactly when serde_json rejects it. The JSON grammar itself
/// is serde_json's and is not stated here.
#[verifier::external_body]
pub fn parse_json(text: &str) -> (r: Option<Json>)
    ensures
        match r {
            Some(j) => parsed_json(text@) == Some(j@),
            None => parsed_json(text@) is None,
        },
{
    match serde_json::from_str::<Value>(text) {
        Ok(v) => Some(json_from_value(v)),
        Err(_) => None,
    }
}

/// Writes `j` as compact JSON with `serde_json::to_string` on the converted
/// value. Claims only that the result is `json_text` of the value. serde_json
/// documents that serializing fails only for a failing `Serialize` impl or a
/// map with non-string keys, neither of which a `Value` has; the empty
/// string that would stand for such a failure is therefore never returned.
#[verifier::external_body]
pub fn json_text_of(j: &Json) -> (r: String)
    ensures
        r@ == json_text(j@),
{
    serde_json::to_string(&json_to_value(j)).unwrap_or_default()
}

} // verus!
