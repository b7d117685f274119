use vstd::prelude::*;
use vstd::string::*;
use crate::strs::{str_set, strs};

verus! {

/// A configuration document as plain values.
#[derive(Debug)]
pub enum ConfValue {
    Str(String),
    Int(i64),
    Bool(bool),
    Array(Vec<ConfValue>),
    /// key and value pairs, sorted by key
    Table(Vec<(String, ConfValue)>),
    /// a value of another kind (a float, a date), which no setting takes
    Other,
}

#[verifier::external_type_specification]
#[verifier::external_body]
pub struct ExTomlValue(toml::Value);

/// Whether `text` is a valid TOML document.
pub uninterp spec fn toml_accepts(text: Seq<char>) -> bool;

/// The tree that the TOML text `text` denotes, when it is a valid document.
pub uninterp spec fn toml_document(text: Seq<char>) -> ConfValue;

/// Relies on `toml::Table`'s `FromStr` (`toml::from_str`): parses a whole
/// document, failing (`None`) on malformed text; the top level is a table.
#[verifier::external_body]
fn parse_toml(text: &str) -> (r: Option<ConfValue>)
    ensures
        r is Some <==> toml_accepts(text@),
        r matches Some(v) ==> v == toml_document(text@) && v is Table,
{
    text.parse::<toml::Table>().ok().map(|t| conf_value(toml::Value::Table(t)))
}

/// Converts a `toml::Value` variant for variant, each table's entries in
/// the table's own (key-sorted) order.
#[verifier::external_body]
fn conf_value(v: toml::Value) -> ConfValue {
    match v {
        toml::Value::String(s) => ConfValue::Str(s),
        toml::Value::Integer(i) => ConfValue::Int(i),
        toml::Value::Boolean(b) => ConfValue::Bool(b),
        toml::Value::Array(a) => ConfValue::Array(a.into_iter().map(conf_value).collect()),
        toml::Value::Table(t) => ConfValue::Table(t.into_iter().map(|(k, v)| (k, conf_value(v))).collect()),
        _ => ConfValue::Other,
    }
}

/// Parses the TOML document `text` into plain values.
pub fn parse_document(text: &str) -> (r: Option<ConfValue>)
    ensures
        r is Some <==> toml_accepts(text@),
        r matches Some(v) ==> v == toml_document(text@) && v is Table,
{
    parse_toml(text)
}

/// The value under `key`: the first entry of that key.
pub open spec fn lookup(t: Seq<(String, ConfValue)>, key: Seq<char>) -> Option<ConfValue>
    decreases t.len(),
{
    if t.len() == 0 {
        None
    } else if t[0].0@ == key {
        Some(t[0].1)
    } else {
        lookup(t.drop_first(), key)
    }
}

/// The string that `v` holds, if it is one.
pub open spec fn str_of(v: Option<ConfValue>) -> Option<Seq<char>> {
    match v {
        Some(ConfValue::Str(s)) => Some(s@),
        _ => None,
    }
}

/// The strings that `v` holds, if it is an array of strings.
pub open spec fn strs_of(v: Option<ConfValue>) -> Option<Seq<Seq<char>>> {
    match v {
        Some(ConfValue::Array(items)) => if forall|i: int| 0 <= i < items@.len() ==> #[trigger] items@[i] is Str {
            Some(items@.map_values(|x: ConfValue| x->Str_0@))
        } else {
            None
        },
        _ => None,
    }
}

/// Whether every key of `t` is one of `allowed`.
pub open spec fn keys_within(t: Seq<(String, ConfValue)>, allowed: Set<Seq<char>>) -> bool {
    forall|i: int| 0 <= i < t.len() ==> allowed.contains(#[trigger] t[i].0@)
}

/// The value under `key` in `t`.
pub fn get<'a>(t: &'a Vec<(String, ConfValue)>, key: &str) -> (r: Option<&'a ConfValue>)
    ensures
        match r {
            Some(v) => lookup(t@, key@) == Some(*v),
            None => lookup(t@, key@) is None,
        },
{
    let k = String::from_str(key);
    assert(t@.skip(0) =~= t@);
    for i in 0..t.len()
        invariant
            k@ == key@,
            lookup(t@, key@) == lookup(t@.skip(i as int), key@),
    {
        assert(t@.skip(i as int).drop_first() =~= t@.skip(i + 1));
        if t[i].0 == k {
            return Some(&t[i].1);
        }
    }
    None
}

/// The first key of `t` that is not one of `allowed`.
pub fn unknown_key(t: &Vec<(String, ConfValue)>, allowed: &Vec<String>) -> (r: Option<String>)
    ensures
        r is None <==> keys_within(t@, str_set(allowed@)),
        r matches Some(k) ==> exists|i: int| 0 <= i < t@.len() && #[trigger] t@[i].0@ == k@ && !str_set(allowed@).contains(k@),
{
    for i in 0..t.len()
        invariant
            forall|j: int| 0 <= j < i ==> str_set(allowed@).contains(#[trigger] t@[j].0@),
    {
        if !crate::strs::contains_string(allowed, &t[i].0) {
            return Some(t[i].0.clone());
        }
    }
    None
}

/// The string that `v` holds, if it is one.
pub fn string_of(v: Option<&ConfValue>) -> (r: Option<String>)
    ensures
        r matches Some(s) ==> (v matches Some(x) && str_of(Some(*x)) == Some(s@)),
        r is None ==> (v is None || str_of(Some(*v->0)) is None),
{
    match v {
        Some(ConfValue::Str(s)) => Some(s.clone()),
        _ => None,
    }
}

/// The strings that `v` holds, if it is an array of strings.
pub fn strings_of(v: Option<&ConfValue>) -> (r: Option<Vec<String>>)
    ensures
        r matches Some(l) ==> (v matches Some(x) && strs_of(Some(*x)) == Some(strs(l@))),
        r is None ==> (v is None || strs_of(Some(*v->0)) is None),
{
    match v {
        Some(ConfValue::Array(items)) => {
            let mut out: Vec<String> = Vec::new();
            for i in 0..items.len()
                invariant
                    v is Some && *v->0 == ConfValue::Array(*items),
                    out@.len() == i,
                    forall|j: int| 0 <= j < i ==> #[trigger] items@[j] is Str && out@[j]@ == items@[j]->Str_0@,
            {
                match &items[i] {
                    ConfValue::Str(s) => out.push(s.clone()),
                    _ => {
                        assert(!(items@[i as int] is Str));
                        return None;
                    },
                }
            }
            assert(strs(out@) =~= items@.map_values(|x: ConfValue| x->Str_0@));
            Some(out)
        },
        _ => None,
    }
}

/// Builds the list of allowed keys.
pub fn key_list(keys: &[&str]) -> (r: Vec<String>)
    ensures
        r@.len() == keys@.len(),
        forall|i: int| 0 <= i < keys@.len() ==> #[trigger] r@[i]@ == keys@[i]@,
{
    let mut out: Vec<String> = Vec::new();
    for i in 0..keys.len()
        invariant
            out@.len() == i,
            forall|j: int| 0 <= j < i ==> #[trigger] out@[j]@ == keys@[j]@,
    {
        out.push(String::from_str(keys[i]));
    }
    out
}

} // verus!
