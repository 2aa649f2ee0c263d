//! Set metadata: the canonical `Info` record and its encodings.
//!
//! A legacy metadata document is a flat, loosely-typed YAML map. Decoding
//! extracts the known fields by name — failing with `MissingField` when a
//! required key is absent and `FieldType` when a key carries the wrong kind
//! of scalar — and keeps every unrecognized entry verbatim in the open
//! `more_members` map. The canonical encoding is a flat YAML document with
//! the fixed field names and the open entries alongside them.

use vstd::prelude::*;

use crate::text::{chars_string, copy_range, dec_digits, push_dec, str_chars, str_eq, trim, trim_spec};
use crate::yaml::{entries_view, parse_scalar_map, yaml_scalars_of, LegacyValue, ScalarView};

verus! {

/// Failure to convert a legacy document into the canonical form.
#[derive(Debug)]
pub enum ConversionError {
    /// A required field is absent; carries the canonical field name.
    MissingField(String),
    /// A field is present but of the wrong scalar kind; carries the
    /// canonical field name.
    FieldType(String),
}

/// Failure to decode a metadata document.
#[derive(Debug)]
pub enum InfoError {
    /// The document is not a YAML mapping with string keys.
    Document,
    /// The fields do not fit the schema.
    Field(ConversionError),
}

/// The canonical metadata record of a set.
pub struct Info {
    /// Numeric identifier within the source.
    pub id: Option<u64>,
    /// Unstructured description.
    pub description: String,
    /// The authors, as one string.
    pub authors: String,
    /// Fitting year.
    pub year: Option<u64>,
    /// Unrecognized entries, kept verbatim for forward compatibility.
    pub more_members: Vec<(String, LegacyValue)>,
}

/// The mathematical content of an [`Info`].
#[verifier::ext_equal]
pub struct InfoView {
    pub id: Option<u64>,
    pub description: Seq<char>,
    pub authors: Seq<char>,
    pub year: Option<u64>,
    pub more_members: Seq<(Seq<char>, ScalarView)>,
}

impl View for Info {
    type V = InfoView;

    open spec fn view(&self) -> InfoView {
        InfoView {
            id: self.id,
            description: self.description@,
            authors: self.authors@,
            year: self.year,
            more_members: Seq::new(
                self.more_members@.len(),
                |i: int| (self.more_members@[i].0@, self.more_members@[i].1@),
            ),
        }
    }
}

/// The value of the first entry carrying the key, if any.
pub open spec fn find_key(es: Seq<(Seq<char>, ScalarView)>, k: Seq<char>) -> Option<ScalarView>
    decreases es.len(),
{
    if es.len() == 0 {
        None
    } else if es[0].0 == k {
        Some(es[0].1)
    } else {
        find_key(es.drop_first(), k)
    }
}

/// The first schema violation of an entry list, by field order: a required
/// text, an optional number. `true` marks a missing field, `false` a
/// wrongly-typed one; the name is the canonical field name.
pub open spec fn first_field_error(
    es: Seq<(Seq<char>, ScalarView)>,
    k_id: Seq<char>,
    k_desc: Seq<char>,
    k_auth: Seq<char>,
    k_year: Seq<char>,
) -> Option<(bool, Seq<char>)> {
    if find_key(es, k_id) matches Some(v) && !(v is UInt) {
        Some((false, "id"@))
    } else if find_key(es, k_desc) matches Some(v) && !(v is Text) {
        Some((false, "description"@))
    } else if find_key(es, k_desc) is None {
        Some((true, "description"@))
    } else if find_key(es, k_auth) matches Some(v) && !(v is Text) {
        Some((false, "authors"@))
    } else if find_key(es, k_auth) is None {
        Some((true, "authors"@))
    } else if find_key(es, k_year) matches Some(v) && !(v is UInt) {
        Some((false, "year"@))
    } else {
        None
    }
}

/// The number the key denotes, where the schema holds.
pub open spec fn found_uint(es: Seq<(Seq<char>, ScalarView)>, k: Seq<char>) -> Option<u64> {
    match find_key(es, k) {
        Some(ScalarView::UInt(u)) => Some(u),
        _ => None,
    }
}

/// The text the key denotes, where the schema holds.
pub open spec fn found_text(es: Seq<(Seq<char>, ScalarView)>, k: Seq<char>) -> Seq<char> {
    match find_key(es, k) {
        Some(ScalarView::Text(t)) => t,
        _ => Seq::empty(),
    }
}

/// Whether `k` is one of the four schema keys.
pub open spec fn is_schema_key(
    k: Seq<char>,
    k_id: Seq<char>,
    k_desc: Seq<char>,
    k_auth: Seq<char>,
    k_year: Seq<char>,
) -> bool {
    k == k_id || k == k_desc || k == k_auth || k == k_year
}

/// The entries whose keys are not schema keys, in order.
pub open spec fn extra_entries(
    es: Seq<(Seq<char>, ScalarView)>,
    k_id: Seq<char>,
    k_desc: Seq<char>,
    k_auth: Seq<char>,
    k_year: Seq<char>,
) -> Seq<(Seq<char>, ScalarView)>
    decreases es.len(),
{
    if es.len() == 0 {
        Seq::empty()
    } else {
        extra_entries(es.drop_last(), k_id, k_desc, k_auth, k_year) + if is_schema_key(
            es.last().0,
            k_id,
            k_desc,
            k_auth,
            k_year,
        ) {
            Seq::empty()
        } else {
            seq![es.last()]
        }
    }
}

/// The record an entry list denotes under a key naming, where the schema
/// holds: the four fields read under the given keys, every other entry kept
/// in the open map.
pub open spec fn info_of_entries(
    es: Seq<(Seq<char>, ScalarView)>,
    k_id: Seq<char>,
    k_desc: Seq<char>,
    k_auth: Seq<char>,
    k_year: Seq<char>,
) -> InfoView {
    InfoView {
        id: found_uint(es, k_id),
        description: found_text(es, k_desc),
        authors: found_text(es, k_auth),
        year: found_uint(es, k_year),
        more_members: extra_entries(es, k_id, k_desc, k_auth, k_year),
    }
}

/// Finds the first entry carrying `key`.
fn find_entry<'a>(entries: &'a Vec<(String, LegacyValue)>, key: &str) -> (r: Option<
    &'a LegacyValue,
>)
    ensures
        match r {
            Some(v) => find_key(entries_view(entries@), key@) == Some(v@),
            None => find_key(entries_view(entries@), key@) is None,
        },
{
    let ghost ev = entries_view(entries@);
    proof {
        assert(ev.skip(0) =~= ev);
    }
    let mut i: usize = 0;
    while i < entries.len()
        invariant
            i <= entries@.len(),
            ev == entries_view(entries@),
            find_key(ev, key@) == find_key(ev.skip(i as int), key@),
        decreases entries@.len() - i,
    {
        proof {
            assert(ev.skip(i as int)[0] == ev[i as int]);
            assert(ev.skip(i as int).drop_first() =~= ev.skip(i + 1));
        }
        if str_eq(entries[i].0.as_str(), key) {
            return Some(&entries[i].1);
        }
        i = i + 1;
    }
    proof {
        assert(ev.skip(entries@.len() as int) =~= Seq::<(Seq<char>, ScalarView)>::empty());
    }
    None
}

impl Info {
    /// Builds an `Info` from the entries of a metadata map, reading the
    /// four schema fields under the given key names and keeping every other
    /// entry verbatim.
    pub fn from_entries(
        entries: Vec<(String, LegacyValue)>,
        k_id: &str,
        k_desc: &str,
        k_auth: &str,
        k_year: &str,
    ) -> (r: Result<Info, ConversionError>)
        ensures
            ({
                let ev = entries_view(entries@);
                let err = first_field_error(ev, k_id@, k_desc@, k_auth@, k_year@);
                &&& (r is Err <==> err is Some)
                &&& (r matches Err(ConversionError::MissingField(n)) ==> err == Some((true, n@)))
                &&& (r matches Err(ConversionError::FieldType(n)) ==> err == Some((false, n@)))
                &&& (r matches Ok(info) ==> {
                    &&& info@.id == found_uint(ev, k_id@)
                    &&& info@.description == found_text(ev, k_desc@)
                    &&& info@.authors == found_text(ev, k_auth@)
                    &&& info@.year == found_uint(ev, k_year@)
                    &&& info@.more_members =~~= extra_entries(ev, k_id@, k_desc@, k_auth@, k_year@)
                    &&& info@ == info_of_entries(ev, k_id@, k_desc@, k_auth@, k_year@)
                })
            }),
    {
        let ghost ev = entries_view(entries@);
        let id: Option<u64> = match find_entry(&entries, k_id) {
            Some(LegacyValue::UInt(u)) => Some(*u),
            Some(_) => {
                return Err(ConversionError::FieldType(String::from_str("id")));
            },
            None => None,
        };
        let description: String = match find_entry(&entries, k_desc) {
            Some(LegacyValue::Text(t)) => t.clone(),
            Some(_) => {
                return Err(ConversionError::FieldType(String::from_str("description")));
            },
            None => {
                return Err(ConversionError::MissingField(String::from_str("description")));
            },
        };
        let authors: String = match find_entry(&entries, k_auth) {
            Some(LegacyValue::Text(t)) => t.clone(),
            Some(_) => {
                return Err(ConversionError::FieldType(String::from_str("authors")));
            },
            None => {
                return Err(ConversionError::MissingField(String::from_str("authors")));
            },
        };
        let year: Option<u64> = match find_entry(&entries, k_year) {
            Some(LegacyValue::UInt(u)) => Some(*u),
            Some(_) => {
                return Err(ConversionError::FieldType(String::from_str("year")));
            },
            None => None,
        };
        // the open map: every entry under none of the schema keys
        let mut more: Vec<(String, LegacyValue)> = Vec::new();
        let mut rest = entries;
        let ghost all = rest@;
        let ghost mut gi: int = 0;
        proof {
            assert(ev.take(0) =~= Seq::<(Seq<char>, ScalarView)>::empty());
        }
        while rest.len() > 0
            invariant
                0 <= gi,
                gi + rest@.len() == all.len(),
                ev == entries_view(all),
                forall|q: int| 0 <= q < rest@.len() ==> rest@[q] == all[gi + q],
                entries_view(more@) =~~= extra_entries(
                    ev.take(gi),
                    k_id@,
                    k_desc@,
                    k_auth@,
                    k_year@,
                ),
            decreases rest@.len(),
        {
            let (key, value) = rest.remove(0);
            proof {
                assert(ev.take(gi + 1).drop_last() =~= ev.take(gi));
                assert(ev.take(gi + 1).last() == ev[gi]);
                assert(ev[gi].0 == all[gi].0@);
                assert(ev[gi].1 == all[gi].1@);
            }
            let schema = str_eq(key.as_str(), k_id) || str_eq(key.as_str(), k_desc) || str_eq(
                key.as_str(),
                k_auth,
            ) || str_eq(key.as_str(), k_year);
            if !schema {
                more.push((key, value));
                proof {
                    assert(entries_view(more@) =~~= extra_entries(
                        ev.take(gi + 1),
                        k_id@,
                        k_desc@,
                        k_auth@,
                        k_year@,
                    ));
                }
            } else {
                proof {
                    assert(entries_view(more@) =~~= extra_entries(
                        ev.take(gi + 1),
                        k_id@,
                        k_desc@,
                        k_auth@,
                        k_year@,
                    ));
                }
            }
            proof {
                gi = gi + 1;
            }
        }
        proof {
            assert(ev.take(all.len() as int) =~= ev);
        }
        let info = Info { id, description, authors, year, more_members: more };
        proof {
            assert(info@.more_members =~~= entries_view(more@));
            assert(info@ =~~= info_of_entries(ev, k_id@, k_desc@, k_auth@, k_year@));
        }
        Ok(info)
    }

    /// Decodes a legacy metadata document: the registry's loosely-typed
    /// YAML map with its historical key names, read through
    /// [`yaml_scalars_of`] and interpreted by [`Info::from_entries`].
    pub fn from_legacy(bytes: &[u8]) -> (r: Result<Info, InfoError>)
        ensures
            spec_from_document(yaml_scalars_of(bytes@), "SetIndex"@, "SetDesc"@, "Authors"@, "Year"@, r),
    {
        let entries = match parse_scalar_map(bytes) {
            Ok(es) => es,
            Err(_) => {
                return Err(InfoError::Document);
            },
        };
        match Info::from_entries(entries, "SetIndex", "SetDesc", "Authors", "Year") {
            Ok(info) => Ok(info),
            Err(e) => Err(InfoError::Field(e)),
        }
    }

    /// Decodes a canonical metadata document, written by
    /// [`Info::to_canonical`]: the same schema under the canonical key
    /// names, read through [`yaml_scalars_of`] and interpreted by
    /// [`Info::from_entries`].
    pub fn from_canonical(bytes: &[u8]) -> (r: Result<Info, InfoError>)
        ensures
            spec_from_document(yaml_scalars_of(bytes@), "id"@, "description"@, "authors"@, "year"@, r),
    {
        let entries = match parse_scalar_map(bytes) {
            Ok(es) => es,
            Err(_) => {
                return Err(InfoError::Document);
            },
        };
        match Info::from_entries(entries, "id", "description", "authors", "year") {
            Ok(info) => Ok(info),
            Err(e) => Err(InfoError::Field(e)),
        }
    }
}

/// What decoding a metadata document returns, given what the YAML reader
/// made of its bytes: a document failure exactly when the bytes are no
/// string-keyed mapping, the first schema violation as its field error, and
/// otherwise the record the entries denote.
pub open spec fn spec_from_document(
    es: Option<Seq<(Seq<char>, ScalarView)>>,
    k_id: Seq<char>,
    k_desc: Seq<char>,
    k_auth: Seq<char>,
    k_year: Seq<char>,
    r: Result<Info, InfoError>,
) -> bool {
    match es {
        None => r matches Err(InfoError::Document),
        Some(ev) => {
            let err = first_field_error(ev, k_id, k_desc, k_auth, k_year);
            &&& !(r matches Err(InfoError::Document))
            &&& (r is Ok <==> err is None)
            &&& (r matches Ok(info) ==> info@ == info_of_entries(ev, k_id, k_desc, k_auth, k_year))
            &&& (r matches Err(InfoError::Field(ConversionError::MissingField(n))) ==> err
                == Some((true, n@)))
            &&& (r matches Err(InfoError::Field(ConversionError::FieldType(n))) ==> err == Some(
                (false, n@),
            ))
        },
    }
}

// ------------------------------------------------------------------
// The canonical YAML encoding
// ------------------------------------------------------------------

/// The escape of one character inside a double-quoted scalar.
pub open spec fn esc_char(c: char) -> Seq<char> {
    if c == '\\' {
        seq!['\\', '\\']
    } else if c == '"' {
        seq!['\\', '"']
    } else if c == '\n' {
        seq!['\\', 'n']
    } else if c == '\t' {
        seq!['\\', 't']
    } else {
        seq![c]
    }
}

/// The escaped body of a double-quoted scalar.
pub open spec fn esc(s: Seq<char>) -> Seq<char>
    decreases s.len(),
{
    if s.len() == 0 {
        Seq::empty()
    } else {
        esc(s.drop_last()) + esc_char(s.last())
    }
}

/// A double-quoted YAML scalar.
pub open spec fn yaml_quote(s: Seq<char>) -> Seq<char> {
    seq!['"'] + esc(s) + seq!['"']
}

/// The decimal text of a signed number.
pub open spec fn sint_digits(v: i64) -> Seq<char> {
    if v >= 0 {
        dec_digits(v as nat)
    } else {
        seq!['-'] + dec_digits((-v) as nat)
    }
}

/// The text of one open-map value.
pub open spec fn scalar_text(v: ScalarView) -> Seq<char> {
    match v {
        ScalarView::UInt(u) => dec_digits(u as nat),
        ScalarView::Int(i) => sint_digits(i),
        ScalarView::Text(t) => yaml_quote(t),
        ScalarView::Other(t) => yaml_quote(t),
    }
}

/// The line of one open-map entry.
pub open spec fn entry_line(e: (Seq<char>, ScalarView)) -> Seq<char> {
    yaml_quote(e.0) + ": "@ + scalar_text(e.1) + "\n"@
}

/// The lines of the open map, in order.
pub open spec fn extra_lines(es: Seq<(Seq<char>, ScalarView)>) -> Seq<char>
    decreases es.len(),
{
    if es.len() == 0 {
        Seq::empty()
    } else {
        extra_lines(es.drop_last()) + entry_line(es.last())
    }
}

/// The canonical YAML document of an `Info`.
pub open spec fn info_yaml(v: InfoView) -> Seq<char> {
    (match v.id {
        Some(u) => "id: "@ + dec_digits(u as nat) + "\n"@,
        None => Seq::<char>::empty(),
    }) + "description: "@ + yaml_quote(v.description) + "\n"@ + "authors: "@ + yaml_quote(
        v.authors,
    ) + "\n"@ + (match v.year {
        Some(u) => "year: "@ + dec_digits(u as nat) + "\n"@,
        None => Seq::<char>::empty(),
    }) + extra_lines(v.more_members)
}

/// Appends the escaped, double-quoted form of `s`.
fn push_quoted(out: &mut Vec<char>, s: &String)
    ensures
        final(out)@ == old(out)@ + yaml_quote(s@),
{
    out.push('"');
    let cv = str_chars(s.as_str());
    let mut i: usize = 0;
    while i < cv.len()
        invariant
            i <= cv@.len(),
            cv@ == s@,
            out@ == old(out)@ + seq!['"'] + esc(s@.take(i as int)),
        decreases cv@.len() - i,
    {
        proof {
            assert(s@.take(i + 1).drop_last() =~= s@.take(i as int));
            assert(s@.take(i + 1).last() == s@[i as int]);
        }
        let c = cv[i];
        if c == '\\' {
            out.push('\\');
            out.push('\\');
        } else if c == '"' {
            out.push('\\');
            out.push('"');
        } else if c == '\n' {
            out.push('\\');
            out.push('n');
        } else if c == '\t' {
            out.push('\\');
            out.push('t');
        } else {
            out.push(c);
        }
        proof {
            assert(out@ =~= old(out)@ + seq!['"'] + esc(s@.take(i + 1)));
        }
        i = i + 1;
    }
    out.push('"');
    proof {
        assert(s@.take(s@.len() as int) =~= s@);
        assert(out@ =~= old(out)@ + yaml_quote(s@));
    }
}

/// Appends the decimal text of a signed number.
fn push_sint(out: &mut Vec<char>, v: i64)
    ensures
        final(out)@ == old(out)@ + sint_digits(v),
{
    if v >= 0 {
        push_dec(out, v as u64);
    } else {
        out.push('-');
        let mag: u64 = ((-(v + 1)) as u64) + 1;
        proof {
            assert(mag == (-v) as nat);
        }
        push_dec(out, mag);
        assert(out@ =~= old(out)@ + sint_digits(v));
    }
}

/// Appends one literal character run.
fn push_lit(out: &mut Vec<char>, s: &str)
    ensures
        final(out)@ == old(out)@ + s@,
{
    let cv = str_chars(s);
    let mut i: usize = 0;
    while i < cv.len()
        invariant
            i <= cv@.len(),
            cv@ == s@,
            out@ == old(out)@ + s@.take(i as int),
        decreases cv@.len() - i,
    {
        out.push(cv[i]);
        proof {
            assert(out@ =~= old(out)@ + s@.take(i + 1));
        }
        i = i + 1;
    }
    proof {
        assert(s@.take(s@.len() as int) =~= s@);
    }
}

impl Info {
    /// Encodes the record as the canonical YAML document.
    pub fn to_canonical(&self) -> (r: String)
        ensures
            r@ == info_yaml(self@),
    {
        let mut out: Vec<char> = Vec::new();
        match &self.id {
            Some(u) => {
                push_lit(&mut out, "id: ");
                push_dec(&mut out, *u);
                push_lit(&mut out, "\n");
            },
            None => {},
        }
        push_lit(&mut out, "description: ");
        push_quoted(&mut out, &self.description);
        push_lit(&mut out, "\n");
        push_lit(&mut out, "authors: ");
        push_quoted(&mut out, &self.authors);
        push_lit(&mut out, "\n");
        match &self.year {
            Some(u) => {
                push_lit(&mut out, "year: ");
                push_dec(&mut out, *u);
                push_lit(&mut out, "\n");
            },
            None => {},
        }
        let ghost head = out@;
        let mut i: usize = 0;
        while i < self.more_members.len()
            invariant
                i <= self.more_members@.len(),
                out@ == head + extra_lines(self@.more_members.take(i as int)),
                head == (match self@.id {
                    Some(u) => "id: "@ + dec_digits(u as nat) + "\n"@,
                    None => Seq::<char>::empty(),
                }) + "description: "@ + yaml_quote(self@.description) + "\n"@ + "authors: "@
                    + yaml_quote(self@.authors) + "\n"@ + (match self@.year {
                    Some(u) => "year: "@ + dec_digits(u as nat) + "\n"@,
                    None => Seq::<char>::empty(),
                }),
            decreases self.more_members@.len() - i,
        {
            proof {
                assert(self@.more_members.take(i + 1).drop_last() =~= self@.more_members.take(
                    i as int,
                ));
                assert(self@.more_members.take(i + 1).last() == self@.more_members[i as int]);
                assert(self@.more_members[i as int].0 == self.more_members@[i as int].0@);
                assert(self@.more_members[i as int].1 == self.more_members@[i as int].1@);
            }
            push_quoted(&mut out, &self.more_members[i].0);
            push_lit(&mut out, ": ");
            match &self.more_members[i].1 {
                LegacyValue::UInt(u) => {
                    push_dec(&mut out, *u);
                },
                LegacyValue::Int(v) => {
                    push_sint(&mut out, *v);
                },
                LegacyValue::Text(t) => {
                    push_quoted(&mut out, t);
                },
                LegacyValue::Other(t) => {
                    push_quoted(&mut out, t);
                },
            }
            push_lit(&mut out, "\n");
            proof {
                assert(out@ =~= head + extra_lines(self@.more_members.take(i + 1)));
            }
            i = i + 1;
        }
        proof {
            assert(self@.more_members.take(self.more_members@.len() as int)
                =~= self@.more_members);
            assert(out@ =~= info_yaml(self@));
        }
        chars_string(&out)
    }
}

// ------------------------------------------------------------------
// Authors
// ------------------------------------------------------------------

/// A set author: a name and a mail address, written `Name <address>`.
pub struct Author {
    pub name: String,
    pub address: String,
}

/// The position of the first angle bracket, or the length.
pub open spec fn angle_pos(s: Seq<char>) -> nat
    decreases s.len(),
{
    if s.len() == 0 || s[0] == '<' || s[0] == '>' {
        0
    } else {
        1 + angle_pos(s.drop_first())
    }
}

/// An author text without an address part.
#[derive(Debug, PartialEq, Eq, Structural)]
pub struct AuthorParseError;

/// The name part of an author text: everything before the first angle
/// bracket, trimmed.
pub open spec fn spec_author_name(s: Seq<char>) -> Seq<char> {
    trim_spec(s.take(angle_pos(s) as int))
}

/// The address part of an author text: the piece between the first angle
/// bracket and the next, trimmed.
pub open spec fn spec_author_address(s: Seq<char>) -> Seq<char> {
    let rest = s.skip(angle_pos(s) as int + 1);
    trim_spec(rest.take(angle_pos(rest) as int))
}

/// The position of the first angle bracket at or after `i`.
fn angle_end(v: &Vec<char>, i: usize) -> (e: usize)
    requires
        i <= v@.len(),
    ensures
        i <= e <= v@.len(),
        e - i == angle_pos(v@.skip(i as int)),
    decreases v@.len() - i,
{
    if i == v.len() {
        proof {
            assert(v@.skip(i as int) =~= Seq::<char>::empty());
        }
        i
    } else if v[i] == '<' || v[i] == '>' {
        assert(v@.skip(i as int)[0] == v@[i as int]);
        i
    } else {
        assert(v@.skip(i as int)[0] == v@[i as int]);
        let e = angle_end(v, i + 1);
        proof {
            assert(v@.skip(i as int).drop_first() =~= v@.skip(i + 1));
        }
        e
    }
}

impl Author {
    /// An author from the parts.
    pub fn new(name: String, address: String) -> (r: Author)
        ensures
            r.name@ == name@,
            r.address@ == address@,
    {
        Author { name, address }
    }

    /// The name part.
    pub fn name(&self) -> (r: &String)
        ensures
            r@ == self.name@,
    {
        &self.name
    }

    /// The address part.
    pub fn address(&self) -> (r: &String)
        ensures
            r@ == self.address@,
    {
        &self.address
    }

    /// Reads the `Name <address>` form: the name before the first angle
    /// bracket, the address up to the next one, both trimmed. Fails when
    /// the text has no angle bracket at all.
    pub fn parse(s: &str) -> (r: Result<Author, AuthorParseError>)
        ensures
            r is Ok <==> angle_pos(s@) < s@.len(),
            r matches Ok(a) ==> a.name@ == spec_author_name(s@) && a.address@
                == spec_author_address(s@),
    {
        let chars = str_chars(s);
        proof {
            assert(chars@.skip(0) =~= chars@);
        }
        let p1 = angle_end(&chars, 0);
        if p1 == chars.len() {
            return Err(AuthorParseError);
        }
        let head = copy_range(&chars, 0, p1);
        proof {
            assert(head@ =~= s@.take(angle_pos(s@) as int));
        }
        let name = chars_string(&trim(&head));
        let p2 = angle_end(&chars, p1 + 1);
        let mid = copy_range(&chars, p1 + 1, p2);
        proof {
            let rest = s@.skip(angle_pos(s@) as int + 1);
            assert(rest =~= chars@.skip(p1 + 1));
            assert(mid@ =~= rest.take(angle_pos(rest) as int));
        }
        let address = chars_string(&trim(&mid));
        Ok(Author { name, address })
    }

    /// The `Name <address>` form.
    pub fn display_string(&self) -> (r: String)
        ensures
            r@ == self.name@ + " <"@ + self.address@ + ">"@,
    {
        let mut out: Vec<char> = Vec::new();
        push_lit(&mut out, self.name.as_str());
        push_lit(&mut out, " <");
        push_lit(&mut out, self.address.as_str());
        push_lit(&mut out, ">");
        proof {
            assert(out@ =~= self.name@ + " <"@ + self.address@ + ">"@);
        }
        chars_string(&out)
    }
}

} // verus!
