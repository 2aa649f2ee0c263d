//! Trusted bridges to the YAML reader.
//!
//! Legacy registry documents are YAML; the verified logic never inspects
//! YAML text itself but receives plain key/value entries from the two
//! wrappers here and works on those. Both reads are deterministic in the
//! document bytes, so each result carries a name the callers' contracts
//! build on.

use serde_yaml::Value;
use vstd::prelude::*;

verus! {

/// A document the YAML reader refuses.
#[derive(Debug, PartialEq, Eq, Structural)]
pub struct YamlError;

/// One loosely-typed scalar of a legacy document.
#[derive(Debug)]
pub enum LegacyValue {
    /// An unsigned number.
    UInt(u64),
    /// A negative number.
    Int(i64),
    /// A string scalar.
    Text(String),
    /// Anything else, kept verbatim as its document text.
    Other(String),
}

/// The mathematical content of a [`LegacyValue`].
pub enum ScalarView {
    UInt(u64),
    Int(i64),
    Text(Seq<char>),
    Other(Seq<char>),
}

impl View for LegacyValue {
    type V = ScalarView;

    open spec fn view(&self) -> ScalarView {
        match self {
            LegacyValue::UInt(u) => ScalarView::UInt(*u),
            LegacyValue::Int(i) => ScalarView::Int(*i),
            LegacyValue::Text(s) => ScalarView::Text(s@),
            LegacyValue::Other(s) => ScalarView::Other(s@),
        }
    }
}

/// The view of a classified entry vector.
pub open spec fn entries_view(es: Seq<(String, LegacyValue)>) -> Seq<(Seq<char>, ScalarView)> {
    Seq::new(es.len(), |i: int| (es[i].0@, es[i].1@))
}

/// The flat map with string keys and string values a YAML document denotes,
/// in sorted key order — if it denotes one.
pub uninterp spec fn yaml_string_map_of(b: Seq<u8>) -> Option<Seq<(Seq<char>, Seq<char>)>>;

/// Relies on `serde_yaml::from_slice`: reads a flat YAML map with string
/// keys and string values, handing the entries out in sorted key order;
/// deterministic in the document bytes.
#[verifier::external_body]
pub fn parse_string_map(bytes: &[u8]) -> (r: Result<Vec<(String, String)>, YamlError>)
    ensures
        match r {
            Ok(v) => yaml_string_map_of(bytes@) == Some(
                Seq::new(v@.len() as nat, |i: int| (v@[i].0@, v@[i].1@)),
            ),
            Err(_) => yaml_string_map_of(bytes@) is None,
        },
{
    let m: std::collections::BTreeMap<String, String> = serde_yaml::from_slice(bytes).map_err(
        |_| YamlError,
    )?;
    Ok(m.into_iter().collect())
}

/// The string-keyed map of classified scalars a YAML document denotes, in
/// document order — if it denotes a mapping with string keys.
pub uninterp spec fn yaml_scalars_of(b: Seq<u8>) -> Option<Seq<(Seq<char>, ScalarView)>>;

/// Relies on `serde_yaml::from_slice`, `serde_yaml::Number`'s accessors and
/// `serde_yaml::to_string`: reads a YAML mapping with string keys in
/// document order, sorting each value into the legacy value classes and
/// re-serialising anything beyond a number or a string to its document
/// text; deterministic in the document bytes.
#[verifier::external_body]
pub fn parse_scalar_map(bytes: &[u8]) -> (r: Result<Vec<(String, LegacyValue)>, YamlError>)
    ensures
        match r {
            Ok(v) => yaml_scalars_of(bytes@) == Some(entries_view(v@)),
            Err(_) => yaml_scalars_of(bytes@) is None,
        },
{
    let m: serde_yaml::Mapping = serde_yaml::from_slice(bytes).map_err(|_| YamlError)?;
    let mut out: Vec<(String, LegacyValue)> = Vec::new();
    for (k, v) in m {
        let key = match k { Value::String(s) => s, _ => return Err(YamlError) };
        out.push((key, match v {
            Value::Number(n) if n.as_u64().is_some() => LegacyValue::UInt(n.as_u64().unwrap()),
            Value::Number(n) if n.as_i64().is_some() => LegacyValue::Int(n.as_i64().unwrap()),
            Value::String(s) => LegacyValue::Text(s),
            o => LegacyValue::Other(serde_yaml::to_string(&o).map_err(|_| YamlError)?),
        }));
    }
    Ok(out)
}

} // verus!
