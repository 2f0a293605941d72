//! The library's own JSON value, its mathematical model, and the bridge to
//! serde_json for parsing and for schema checks.
use vstd::prelude::*;
use vstd::string::*;
use crate::text::same_text;

verus! {

/// serde_json's document type, carried opaquely between the reader, the
/// schema checker and this module's conversions.
#[verifier::external_type_specification]
#[verifier::external_body]
pub struct ExSerdeValue(serde_json::Value);

/// serde_json's number, kept as it was read; the engine never looks inside.
#[verifier::external_type_specification]
#[verifier::external_body]
pub struct ExSerdeNumber(serde_json::Number);

/// serde_json's read error, turned into its message.
#[verifier::external_type_specification]
#[verifier::external_body]
pub struct ExSerdeError(serde_json::Error);

/// A JSON document as the repair engine sees it. Object members keep the
/// order in which they were read; a lookup finds the first member with a key.
#[derive(Debug)]
pub enum JsonValue {
    Null,
    Bool(bool),
    Number(serde_json::Number),
    Str(String),
    Array(Vec<JsonValue>),
    Object(Vec<(String, JsonValue)>),
}

/// The mathematical model of a `JsonValue`: strings as character sequences.
pub enum JsonModel {
    Null,
    Bool(bool),
    Number(serde_json::Number),
    Str(Seq<char>),
    Array(Seq<JsonModel>),
    Object(Seq<(Seq<char>, JsonModel)>),
}

pub open spec fn model_of(v: JsonValue) -> JsonModel
    decreases v,
{
    match v {
        JsonValue::Null => JsonModel::Null,
        JsonValue::Bool(b) => JsonModel::Bool(b),
        JsonValue::Number(n) => JsonModel::Number(n),
        JsonValue::Str(s) => JsonModel::Str(s@),
        JsonValue::Array(a) => JsonModel::Array(items_model(a@)),
        JsonValue::Object(es) => JsonModel::Object(members_model(es@)),
    }
}

pub open spec fn items_model(a: Seq<JsonValue>) -> Seq<JsonModel>
    decreases a,
{
    if a.len() == 0 {
        Seq::empty()
    } else {
        items_model(a.drop_last()).push(model_of(a.last()))
    }
}

pub open spec fn members_model(es: Seq<(String, JsonValue)>) -> Seq<(Seq<char>, JsonModel)>
    decreases es,
{
    if es.len() == 0 {
        Seq::empty()
    } else {
        members_model(es.drop_last()).push((es.last().0@, model_of(es.last().1)))
    }
}

impl View for JsonValue {
    type V = JsonModel;

    open spec fn view(&self) -> JsonModel {
        model_of(*self)
    }
}

/// The position of the first member of `m` whose key is `k`.
pub open spec fn find_key(m: Seq<(Seq<char>, JsonModel)>, k: Seq<char>) -> Option<int>
    decreases m.len(),
{
    if m.len() == 0 {
        None
    } else {
        match find_key(m.drop_last(), k) {
            Some(i) => Some(i),
            None => if m.last().0 == k {
                Some(m.len() - 1)
            } else {
                None
            },
        }
    }
}

/// The value of the first member of `m` whose key is `k`.
pub open spec fn field(m: Seq<(Seq<char>, JsonModel)>, k: Seq<char>) -> Option<JsonModel> {
    match find_key(m, k) {
        Some(i) => Some(m[i].1),
        None => None,
    }
}

/// `m` with the value of key `k` set to `v`: the first member with that key
/// is replaced in place, or a member is appended when there is none.
pub open spec fn with_field(m: Seq<(Seq<char>, JsonModel)>, k: Seq<char>, v: JsonModel) -> Seq<
    (Seq<char>, JsonModel),
> {
    match find_key(m, k) {
        Some(i) => m.update(i, (k, v)),
        None => m.push((k, v)),
    }
}

pub proof fn lemma_find_key(m: Seq<(Seq<char>, JsonModel)>, k: Seq<char>)
    ensures
        match find_key(m, k) {
            Some(i) => 0 <= i < m.len() && m[i].0 == k && forall|j: int|
                0 <= j < i ==> #[trigger] m[j].0 != k,
            None => forall|j: int| 0 <= j < m.len() ==> #[trigger] m[j].0 != k,
        },
    decreases m.len(),
{
    if m.len() > 0 {
        lemma_find_key(m.drop_last(), k);
        assert forall|j: int| 0 <= j < m.len() - 1 implies m.drop_last()[j] == m[j] by {}
    }
}

pub proof fn lemma_items_model(a: Seq<JsonValue>)
    ensures
        items_model(a).len() == a.len(),
        forall|j: int| 0 <= j < a.len() ==> #[trigger] items_model(a)[j] == a[j]@,
    decreases a.len(),
{
    if a.len() > 0 {
        lemma_items_model(a.drop_last());
        assert forall|j: int| 0 <= j < a.len() - 1 implies a.drop_last()[j] == a[j] by {}
    }
}

pub proof fn lemma_members_model(es: Seq<(String, JsonValue)>)
    ensures
        members_model(es).len() == es.len(),
        forall|j: int|
            0 <= j < es.len() ==> #[trigger] members_model(es)[j] == (es[j].0@, es[j].1@),
    decreases es.len(),
{
    if es.len() > 0 {
        lemma_members_model(es.drop_last());
        assert forall|j: int| 0 <= j < es.len() - 1 implies es.drop_last()[j] == es[j] by {}
    }
}

/// The position of the first member with key `key`.
pub fn find_member(es: &Vec<(String, JsonValue)>, key: &str) -> (r: Option<usize>)
    ensures
        match r {
            Some(i) => find_key(members_model(es@), key@) == Some(i as int),
            None => find_key(members_model(es@), key@) is None,
        },
{
    proof {
        lemma_members_model(es@);
        lemma_find_key(members_model(es@), key@);
    }
    let mut i: usize = 0;
    while i < es.len()
        invariant
            0 <= i <= es@.len(),
            members_model(es@).len() == es@.len(),
            forall|j: int| 0 <= j < i ==> #[trigger] members_model(es@)[j].0 != key@,
            forall|j: int|
                0 <= j < es@.len() ==> #[trigger] members_model(es@)[j] == (es@[j].0@, es@[j].1@),
        decreases es.len() - i,
    {
        if same_text(es[i].0.as_str(), key) {
            proof {
                let m = members_model(es@);
                lemma_find_key(m, key@);
                assert(m[i as int].0 == key@);
                match find_key(m, key@) {
                    Some(j) => {
                        if j < i {
                            assert(m[j].0 != key@);
                        } else if j > i {
                            assert(m[i as int].0 != key@);
                        }
                    },
                    None => {
                        assert(m[i as int].0 != key@);
                    },
                }
            }
            return Some(i);
        }
        i = i + 1;
    }
    None
}

/// Sets member `key` to `v`, in the manner of `with_field`.
pub fn put_member(es: &mut Vec<(String, JsonValue)>, key: &str, v: JsonValue)
    ensures
        members_model(final(es)@) == with_field(members_model(old(es)@), key@, v@),
{
    let ghost m0 = members_model(es@);
    let ghost vm = v@;
    proof {
        lemma_members_model(es@);
        lemma_find_key(m0, key@);
    }
    let k = String::from_str(key);
    match find_member(es, key) {
        Some(i) => {
            let _ = es.remove(i);
            es.insert(i, (k, v));
            proof {
                lemma_members_model(es@);
                assert(members_model(es@) =~= m0.update(i as int, (key@, vm)));
            }
        },
        None => {
            es.push((k, v));
            proof {
                lemma_members_model(es@);
                assert(members_model(es@) =~= m0.push((key@, vm)));
            }
        },
    }
}

/// Relies on serde_json::Number's derived `Clone`.
pub assume_specification[ <serde_json::Number as Clone>::clone ](n: &serde_json::Number) -> (r:
    serde_json::Number);

/// One level of a serde_json value, its children still in serde_json form.
enum ValueParts {
    Null,
    Bool(bool),
    Number(serde_json::Number),
    Str(String),
    Array(Vec<serde_json::Value>),
    Object(Vec<(String, serde_json::Value)>),
}

/// The document that serde_json reads from `b`, if `b` is one JSON document.
pub uninterp spec fn json_of(b: Seq<u8>) -> Option<JsonModel>;

/// What a serde_json value holds: an object's members in its map's order.
pub uninterp spec fn serde_model(v: serde_json::Value) -> JsonModel;

/// How deeply a document nests: one for a scalar or an empty container, one
/// more than its deepest element for a non-empty container.
pub open spec fn depth_of(m: JsonModel) -> nat
    decreases m,
{
    match m {
        JsonModel::Array(a) => 1 + items_depth(a),
        JsonModel::Object(es) => 1 + members_depth(es),
        _ => 1,
    }
}

pub open spec fn items_depth(a: Seq<JsonModel>) -> nat
    decreases a,
{
    if a.len() == 0 {
        0
    } else {
        let d = items_depth(a.drop_last());
        let e = depth_of(a.last());
        if d < e {
            e
        } else {
            d
        }
    }
}

pub open spec fn members_depth(es: Seq<(Seq<char>, JsonModel)>) -> nat
    decreases es,
{
    if es.len() == 0 {
        0
    } else {
        let d = members_depth(es.drop_last());
        let e = depth_of(es.last().1);
        if d < e {
            e
        } else {
            d
        }
    }
}

/// The deepest nesting that serde_json's reader accepts: 127 arrays or
/// objects one inside another, around a scalar.
pub const NESTING_LIMIT: usize = 128;

/// Relies on serde_json::from_slice, which reads exactly the bytes of one
/// JSON document (white space around it allowed), depends on them alone, and
/// refuses a document with 128 or more arrays and objects one inside another
/// (its recursion limit, de.rs `check_recursion`).
#[verifier::external_body]
pub(crate) fn parse_slice(b: &[u8]) -> (r: Result<serde_json::Value, serde_json::Error>)
    ensures
        r is Ok <==> json_of(b@) is Some,
        r is Ok ==> serde_model(r->Ok_0) == json_of(b@)->Some_0,
        r is Ok ==> depth_of(serde_model(r->Ok_0)) <= NESTING_LIMIT,
{
    serde_json::from_slice::<serde_json::Value>(b)
}

/// Relies on the `Display` of serde_json::Error, the reader's message.
#[verifier::external_body]
pub(crate) fn error_text(e: &serde_json::Error) -> (r: String) {
    e.to_string()
}

/// Relies on the variants of serde_json::Value; an object's members are
/// handed out in the map's order.
#[verifier::external_body]
fn split_value(v: serde_json::Value) -> (r: ValueParts)
    ensures
        match r {
            ValueParts::Null => serde_model(v) == JsonModel::Null,
            ValueParts::Bool(b) => serde_model(v) == JsonModel::Bool(b),
            ValueParts::Number(n) => serde_model(v) == JsonModel::Number(n),
            ValueParts::Str(s) => serde_model(v) == JsonModel::Str(s@),
            ValueParts::Array(a) => serde_model(v) == JsonModel::Array(
                a@.map_values(|x: serde_json::Value| serde_model(x)),
            ),
            ValueParts::Object(m) => serde_model(v) == JsonModel::Object(
                m@.map_values(|p: (String, serde_json::Value)| (p.0@, serde_model(p.1))),
            ),
        },
{
    match v {
        serde_json::Value::Null => ValueParts::Null,
        serde_json::Value::Bool(b) => ValueParts::Bool(b),
        serde_json::Value::Number(n) => ValueParts::Number(n),
        serde_json::Value::String(s) => ValueParts::Str(s),
        serde_json::Value::Array(a) => ValueParts::Array(a),
        serde_json::Value::Object(m) => ValueParts::Object(m.into_iter().collect()),
    }
}

/// Relies on the variants of serde_json::Value and on collecting members
/// into serde_json::Map.
#[verifier::external_body]
fn join_value(p: ValueParts) -> (r: serde_json::Value) {
    match p {
        ValueParts::Null => serde_json::Value::Null,
        ValueParts::Bool(b) => serde_json::Value::Bool(b),
        ValueParts::Number(n) => serde_json::Value::Number(n),
        ValueParts::Str(s) => serde_json::Value::String(s),
        ValueParts::Array(a) => serde_json::Value::Array(a),
        ValueParts::Object(m) => serde_json::Value::Object(m.into_iter().collect()),
    }
}

proof fn lemma_items_depth(a: Seq<JsonModel>, d: nat)
    ensures
        items_depth(a) <= d <==> forall|j: int| 0 <= j < a.len() ==> depth_of(#[trigger] a[j]) <= d,
    decreases a.len(),
{
    if a.len() > 0 {
        lemma_items_depth(a.drop_last(), d);
        assert forall|j: int| 0 <= j < a.len() - 1 implies a.drop_last()[j] == a[j] by {}
        if items_depth(a) <= d {
            assert forall|j: int| 0 <= j < a.len() implies depth_of(#[trigger] a[j]) <= d by {
                if j < a.len() - 1 {
                    assert(a.drop_last()[j] == a[j]);
                }
            }
        }
    }
}

proof fn lemma_members_depth(es: Seq<(Seq<char>, JsonModel)>, d: nat)
    ensures
        members_depth(es) <= d <==> forall|j: int|
            0 <= j < es.len() ==> depth_of(#[trigger] es[j].1) <= d,
    decreases es.len(),
{
    if es.len() > 0 {
        lemma_members_depth(es.drop_last(), d);
        assert forall|j: int| 0 <= j < es.len() - 1 implies es.drop_last()[j] == es[j] by {}
        if members_depth(es) <= d {
            assert forall|j: int| 0 <= j < es.len() implies depth_of(#[trigger] es[j].1) <= d by {
                if j < es.len() - 1 {
                    assert(es.drop_last()[j] == es[j]);
                }
            }
        }
    }
}

/// A serde_json value as a `JsonValue`, holding the same document; `None`
/// exactly when it nests deeper than `depth`.
pub fn from_serde(v: serde_json::Value, depth: usize) -> (r: Option<JsonValue>)
    ensures
        r is Some <==> depth_of(serde_model(v)) <= depth,
        r is Some ==> r->Some_0@ == serde_model(v),
    decreases depth,
{
    let ghost whole = serde_model(v);
    if depth == 0 {
        return None;
    }
    match split_value(v) {
        ValueParts::Null => Some(JsonValue::Null),
        ValueParts::Bool(b) => Some(JsonValue::Bool(b)),
        ValueParts::Number(n) => Some(JsonValue::Number(n)),
        ValueParts::Str(s) => Some(JsonValue::Str(s)),
        ValueParts::Array(a) => {
            let ghost orig = a@;
            let ghost target = orig.map_values(|x: serde_json::Value| serde_model(x));
            let n = a.len();
            let mut a = a;
            let mut out: Vec<JsonValue> = Vec::new();
            let mut k: usize = 0;
            while a.len() > 0
                invariant
                    depth >= 1,
                    whole == serde_model(v),
                    whole == JsonModel::Array(target),
                    orig.len() == n,
                    target == orig.map_values(|x: serde_json::Value| serde_model(x)),
                    0 <= k <= n,
                    a@ == orig.subrange(k as int, n as int),
                    out@.len() == k,
                    forall|j: int| 0 <= j < k ==> #[trigger] out@[j]@ == target[j],
                    forall|j: int| 0 <= j < k ==> depth_of(#[trigger] target[j]) <= depth - 1,
                decreases a.len(),
            {
                let x = a.remove(0);
                assert(target[k as int] == serde_model(x));
                match from_serde(x, depth - 1) {
                    Some(y) => out.push(y),
                    None => {
                        proof {
                            assert(!(depth_of(target[k as int]) <= depth - 1));
                            lemma_items_depth(target, (depth - 1) as nat);
                        }
                        return None;
                    },
                }
                k = k + 1;
            }
            proof {
                lemma_items_depth(target, (depth - 1) as nat);
                lemma_items_model(out@);
                assert(items_model(out@) =~= target);
            }
            Some(JsonValue::Array(out))
        },
        ValueParts::Object(m) => {
            let ghost orig = m@;
            let ghost target = orig.map_values(
                |p: (String, serde_json::Value)| (p.0@, serde_model(p.1)),
            );
            let n = m.len();
            let mut m = m;
            let mut out: Vec<(String, JsonValue)> = Vec::new();
            let mut k: usize = 0;
            while m.len() > 0
                invariant
                    depth >= 1,
                    whole == serde_model(v),
                    whole == JsonModel::Object(target),
                    orig.len() == n,
                    target == orig.map_values(
                        |p: (String, serde_json::Value)| (p.0@, serde_model(p.1)),
                    ),
                    0 <= k <= n,
                    m@ == orig.subrange(k as int, n as int),
                    out@.len() == k,
                    forall|j: int|
                        0 <= j < k ==> (#[trigger] out@[j]).0@ == target[j].0 && out@[j].1@
                            == target[j].1,
                    forall|j: int| 0 <= j < k ==> depth_of(#[trigger] target[j].1) <= depth - 1,
                decreases m.len(),
            {
                let (key, x) = m.remove(0);
                assert(target[k as int] == (key@, serde_model(x)));
                match from_serde(x, depth - 1) {
                    Some(y) => out.push((key, y)),
                    None => {
                        proof {
                            assert(!(depth_of(target[k as int].1) <= depth - 1));
                            lemma_members_depth(target, (depth - 1) as nat);
                        }
                        return None;
                    },
                }
                k = k + 1;
            }
            proof {
                lemma_members_depth(target, (depth - 1) as nat);
                lemma_members_model(out@);
                assert(members_model(out@) =~= target);
            }
            Some(JsonValue::Object(out))
        },
    }
}

/// A `JsonValue` in serde_json form.
pub fn to_serde(v: &JsonValue) -> (r: serde_json::Value)
    decreases v,
{
    match v {
        JsonValue::Null => join_value(ValueParts::Null),
        JsonValue::Bool(b) => join_value(ValueParts::Bool(*b)),
        JsonValue::Number(n) => join_value(ValueParts::Number(n.clone())),
        JsonValue::Str(s) => join_value(ValueParts::Str(s.clone())),
        JsonValue::Array(a) => {
            let mut out: Vec<serde_json::Value> = Vec::new();
            let mut i: usize = 0;
            while i < a.len()
                invariant
                    *v == JsonValue::Array(*a),
                    0 <= i <= a@.len(),
                decreases a.len() - i,
            {
                proof {
                    assert(decreases_to!(*v => (*v)->Array_0));
                    assert(decreases_to!(a@ => a@[i as int]));
                }
                out.push(to_serde(&a[i]));
                i = i + 1;
            }
            join_value(ValueParts::Array(out))
        },
        JsonValue::Object(es) => {
            let mut out: Vec<(String, serde_json::Value)> = Vec::new();
            let mut i: usize = 0;
            while i < es.len()
                invariant
                    *v == JsonValue::Object(*es),
                    0 <= i <= es@.len(),
                decreases es.len() - i,
            {
                proof {
                    assert(decreases_to!(*v => (*v)->Object_0));
                    assert(decreases_to!(es@ => es@[i as int]));
                    assert(decreases_to!(es@[i as int] => es@[i as int].1));
                }
                out.push((es[i].0.clone(), to_serde(&es[i].1)));
                i = i + 1;
            }
            join_value(ValueParts::Object(out))
        },
    }
}

/// Reads one JSON document: the document when the bytes hold one, else the
/// reader's message.
pub fn parse_json(bytes: &[u8]) -> (r: Result<JsonValue, String>)
    ensures
        match json_of(bytes@) {
            None => r is Err,
            Some(m) => r is Ok && r->Ok_0@ == m,
        },
{
    match parse_slice(bytes) {
        Ok(v) => match from_serde(v, NESTING_LIMIT) {
            Some(j) => Ok(j),
            None => Err(crate::text::owned("recursion limit exceeded")),
        },
        Err(e) => Err(error_text(&e)),
    }
}

/// Setting key `k` keeps every key present and leaves the values of the
/// other keys as they were.
pub proof fn lemma_with_field_keys(
    m: Seq<(Seq<char>, JsonModel)>,
    k: Seq<char>,
    x: JsonModel,
    k2: Seq<char>,
)
    ensures
        find_key(m, k2) is Some ==> find_key(with_field(m, k, x), k2) is Some,
        k != k2 ==> field(with_field(m, k, x), k2) == field(m, k2),
{
    let w = with_field(m, k, x);
    lemma_find_key(m, k);
    lemma_find_key(m, k2);
    lemma_find_key(w, k2);
    match find_key(m, k) {
        Some(i) => {
            assert forall|j: int| 0 <= j < m.len() implies #[trigger] w[j].0 == m[j].0 by {}
            match (find_key(m, k2), find_key(w, k2)) {
                (Some(a), Some(b)) => {
                    if a < b {
                        assert(w[a].0 == k2);
                    } else if b < a {
                        assert(m[b].0 == k2);
                    }
                },
                (Some(a), None) => {
                    assert(w[a].0 == k2);
                },
                (None, Some(b)) => {
                    assert(m[b].0 == k2);
                },
                (None, None) => {},
            }
        },
        None => {
            assert forall|j: int| 0 <= j < m.len() implies #[trigger] w[j] == m[j] by {}
            match (find_key(m, k2), find_key(w, k2)) {
                (Some(a), Some(b)) => {
                    if a < b {
                        assert(w[a].0 == k2);
                    } else if b < a {
                        assert(m[b].0 == k2);
                    }
                },
                (Some(a), None) => {
                    assert(w[a].0 == k2);
                },
                (None, Some(b)) => {
                    if b < m.len() {
                        assert(m[b].0 == k2);
                    }
                },
                (None, None) => {},
            }
        },
    }
}

} // verus!
