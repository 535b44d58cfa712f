//! A plain model of a parsed YAML document and the lookups the checks make
//! in it: following a path of mapping keys, reading a scalar as text, and
//! reading a boolean; and parsing a document's text into that model.

use vstd::prelude::*;
use crate::text::{chars_of, chars_eq, owned};

verus! {

/// A parsed YAML value. Numbers hold their textual rendering, tagged values
/// hold the value under the tag.
#[derive(Debug)]
pub enum YamlValue {
    Null,
    Bool(bool),
    Number(String),
    String(String),
    Sequence(Vec<YamlValue>),
    Mapping(Vec<(YamlValue, YamlValue)>),
    Tagged(Box<YamlValue>),
}

/// The value under any number of tags.
pub open spec fn untag(v: YamlValue) -> YamlValue
    decreases v,
{
    match v {
        YamlValue::Tagged(b) => untag(*b),
        _ => v,
    }
}

/// The key `k` is the plain string `key`.
pub open spec fn is_string_key(k: YamlValue, key: Seq<char>) -> bool {
    match k {
        YamlValue::String(s) => s@ == key,
        _ => false,
    }
}

/// The value stored under the string key `key` among `entries`.
pub open spec fn lookup(entries: Seq<(YamlValue, YamlValue)>, key: Seq<char>) -> Option<YamlValue>
    decreases entries.len(),
{
    if entries.len() == 0 {
        None
    } else if is_string_key(entries[0].0, key) {
        Some(entries[0].1)
    } else {
        lookup(entries.drop_first(), key)
    }
}

/// The value reached from `v` by following the mapping keys `keys` in turn.
pub open spec fn get_path(v: YamlValue, keys: Seq<Seq<char>>) -> Option<YamlValue>
    decreases keys.len(),
{
    if keys.len() == 0 {
        Some(v)
    } else {
        match untag(v) {
            YamlValue::Mapping(entries) => match lookup(entries@, keys[0]) {
                Some(child) => get_path(child, keys.drop_first()),
                None => None,
            },
            _ => None,
        }
    }
}

/// The text of a scalar: strings as they are, numbers as rendered, booleans
/// as "true"/"false"; no text for other values.
pub open spec fn scalar_text(v: YamlValue) -> Option<Seq<char>> {
    match v {
        YamlValue::String(s) => Some(s@),
        YamlValue::Number(n) => Some(n@),
        YamlValue::Bool(b) => Some(
            if b {
                "true"@
            } else {
                "false"@
            },
        ),
        _ => None,
    }
}

/// The text of the scalar at `keys` under `v`.
pub open spec fn get_str(v: YamlValue, keys: Seq<Seq<char>>) -> Option<Seq<char>> {
    match get_path(v, keys) {
        Some(x) => scalar_text(x),
        None => None,
    }
}

/// The boolean held by `v`, under any tags.
pub open spec fn bool_of(v: YamlValue) -> Option<bool> {
    match untag(v) {
        YamlValue::Bool(b) => Some(b),
        _ => None,
    }
}

/// The boolean at `keys` under `v`.
pub open spec fn get_bool(v: YamlValue, keys: Seq<Seq<char>>) -> Option<bool> {
    match get_path(v, keys) {
        Some(x) => bool_of(x),
        None => None,
    }
}

/// `v` is a mapping, under any tags.
pub open spec fn is_mapping(v: YamlValue) -> bool {
    untag(v) is Mapping
}

/// `v` is a mapping with at least one entry, under any tags.
pub open spec fn is_nonempty_mapping(v: YamlValue) -> bool {
    match untag(v) {
        YamlValue::Mapping(entries) => entries@.len() > 0,
        _ => false,
    }
}

/// The key path as character sequences.
pub open spec fn key_path(keys: Seq<&str>) -> Seq<Seq<char>> {
    keys.map_values(|k: &str| k@)
}

/// `opt` or, without a value, `default`.
pub open spec fn text_or(opt: Option<Seq<char>>, default: Seq<char>) -> Seq<char> {
    match opt {
        Some(s) => s,
        None => default,
    }
}

/// A one-key path.
pub fn key1(k: &'static str) -> (r: [&'static str; 1])
    ensures
        r@ == seq![k],
{
    let r = [k];
    assert(r@ =~= seq![k]);
    r
}

/// The value under any number of tags.
pub fn untag_ref(v: &YamlValue) -> (r: &YamlValue)
    ensures
        *r == untag(*v),
    decreases v,
{
    match v {
        YamlValue::Tagged(b) => untag_ref(&**b),
        _ => v,
    }
}

/// Whether `k` is the plain string `key`.
fn is_string_key_exec(k: &YamlValue, key: &Vec<char>) -> (r: bool)
    ensures
        r == is_string_key(*k, key@),
{
    match k {
        YamlValue::String(s) => {
            let cs = chars_of(s.as_str());
            chars_eq(&cs, key)
        },
        _ => false,
    }
}

/// The value stored under the string key `key`.
fn lookup_exec<'a>(entries: &'a Vec<(YamlValue, YamlValue)>, key: &Vec<char>) -> (r: Option<
    &'a YamlValue,
>)
    ensures
        match r {
            Some(x) => lookup(entries@, key@) == Some(*x),
            None => lookup(entries@, key@) is None,
        },
{
    let mut i: usize = 0;
    assert(entries@.skip(0) =~= entries@);
    while i < entries.len()
        invariant
            0 <= i <= entries@.len(),
            lookup(entries@, key@) == lookup(entries@.skip(i as int), key@),
        decreases entries@.len() - i,
    {
        let ghost rest = entries@.skip(i as int);
        assert(rest[0] == entries@[i as int]);
        if is_string_key_exec(&entries[i].0, key) {
            return Some(&entries[i].1);
        }
        assert(rest.drop_first() =~= entries@.skip(i + 1));
        i = i + 1;
    }
    assert(entries@.skip(i as int) =~= Seq::<(YamlValue, YamlValue)>::empty());
    None
}

/// Following the mapping keys `keys[from..]` from `v`.
fn get_path_from<'a>(v: &'a YamlValue, keys: &[&str], from: usize) -> (r: Option<&'a YamlValue>)
    requires
        from <= keys@.len(),
    ensures
        match r {
            Some(x) => get_path(*v, key_path(keys@).skip(from as int)) == Some(*x),
            None => get_path(*v, key_path(keys@).skip(from as int)) is None,
        },
    decreases keys@.len() - from,
{
    let ghost ks = key_path(keys@).skip(from as int);
    if from == keys.len() {
        assert(ks.len() == 0);
        return Some(v);
    }
    assert(ks[0] == keys@[from as int]@);
    assert(ks.drop_first() =~= key_path(keys@).skip(from + 1));
    match untag_ref(v) {
        YamlValue::Mapping(entries) => {
            let key = chars_of(keys[from]);
            match lookup_exec(entries, &key) {
                Some(child) => get_path_from(child, keys, from + 1),
                None => None,
            }
        },
        _ => None,
    }
}

/// The value reached from `v` by following the mapping keys `keys`.
pub fn map_get<'a>(v: &'a YamlValue, keys: &[&str]) -> (r: Option<&'a YamlValue>)
    ensures
        match r {
            Some(x) => get_path(*v, key_path(keys@)) == Some(*x),
            None => get_path(*v, key_path(keys@)) is None,
        },
{
    assert(key_path(keys@).skip(0) =~= key_path(keys@));
    get_path_from(v, keys, 0)
}

/// The text of a scalar value.
pub fn scalar_text_exec(v: &YamlValue) -> (r: Option<String>)
    ensures
        match r {
            Some(s) => scalar_text(*v) == Some(s@),
            None => scalar_text(*v) is None,
        },
{
    match v {
        YamlValue::String(s) => Some(s.clone()),
        YamlValue::Number(n) => Some(n.clone()),
        YamlValue::Bool(b) => {
            if *b {
                Some(owned("true"))
            } else {
                Some(owned("false"))
            }
        },
        _ => None,
    }
}

/// The text of the scalar at `keys` under `v`.
pub fn map_str(v: &YamlValue, keys: &[&str]) -> (r: Option<String>)
    ensures
        match r {
            Some(s) => get_str(*v, key_path(keys@)) == Some(s@),
            None => get_str(*v, key_path(keys@)) is None,
        },
{
    match map_get(v, keys) {
        Some(x) => scalar_text_exec(x),
        None => None,
    }
}

/// The text of the scalar at `keys` under `v`, or `default`.
pub fn map_str_or(v: &YamlValue, keys: &[&str], default: &str) -> (r: String)
    ensures
        r@ == text_or(get_str(*v, key_path(keys@)), default@),
{
    match map_str(v, keys) {
        Some(s) => s,
        None => owned(default),
    }
}

/// The boolean at `keys` under `v`.
pub fn map_bool(v: &YamlValue, keys: &[&str]) -> (r: Option<bool>)
    ensures
        r == get_bool(*v, key_path(keys@)),
{
    match map_get(v, keys) {
        Some(x) => match untag_ref(x) {
            YamlValue::Bool(b) => Some(*b),
            _ => None,
        },
        None => None,
    }
}

/// Whether `v` is a mapping, under any tags.
pub fn is_mapping_exec(v: &YamlValue) -> (r: bool)
    ensures
        r == is_mapping(*v),
{
    match untag_ref(v) {
        YamlValue::Mapping(_) => true,
        _ => false,
    }
}

/// Whether `v` is a mapping with at least one entry, under any tags.
pub fn is_nonempty_mapping_exec(v: &YamlValue) -> (r: bool)
    ensures
        r == is_nonempty_mapping(*v),
{
    match untag_ref(v) {
        YamlValue::Mapping(entries) => entries.len() > 0,
        _ => false,
    }
}

// ---------------------------------------------------------------------------
// Parsing
// ---------------------------------------------------------------------------

/// The value type of `serde_yaml`, carried through the parse as it is.
#[verifier::external_type_specification]
#[verifier::external_body]
pub struct ExSerdeYamlValue(serde_yaml::Value);

/// What `serde_yaml` parses the text `doc` into, in the model above, or
/// `None` where it refuses the text.
pub uninterp spec fn parsed_yaml(doc: Seq<char>) -> Option<YamlValue>;

/// The parse of each document in turn.
pub open spec fn parsed_documents(docs: Seq<Seq<char>>) -> Seq<Option<YamlValue>> {
    docs.map_values(|d: Seq<char>| parsed_yaml(d))
}

/// Rebuilds a `serde_yaml::Value` in the model above, one variant for one:
/// numbers by their rendering, mapping entries in the mapping's order.
#[verifier::external_body]
fn from_serde(v: serde_yaml::Value) -> YamlValue {
    match v {
        serde_yaml::Value::Null => YamlValue::Null,
        serde_yaml::Value::Bool(b) => YamlValue::Bool(b),
        serde_yaml::Value::Number(n) => YamlValue::Number(n.to_string()),
        serde_yaml::Value::String(s) => YamlValue::String(s),
        serde_yaml::Value::Sequence(items) => YamlValue::Sequence(items.into_iter().map(from_serde).collect()),
        serde_yaml::Value::Mapping(m) => YamlValue::Mapping(m.into_iter().map(|(k, x)| (from_serde(k), from_serde(x))).collect()),
        serde_yaml::Value::Tagged(t) => YamlValue::Tagged(Box::new(from_serde(t.value))),
    }
}

/// Parses one document with `serde_yaml::from_str` into a
/// `serde_yaml::Value`, `None` where that parse fails. The contract claims
/// only that the outcome is a function of the text (named `parsed_yaml`):
/// which texts `serde_yaml` accepts, and what it reads them as, is not
/// stated here.
#[verifier::external_body]
pub(crate) fn parse_document(doc: &str) -> (r: Option<YamlValue>)
    ensures
        r == parsed_yaml(doc@),
{
    serde_yaml::from_str::<serde_yaml::Value>(doc).ok().map(from_serde)
}

} // verus!
