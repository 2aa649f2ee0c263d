//! The format converter: from a registry's encoding to the canonical one.
//!
//! A `Native` registry already serves canonical bytes; a `Legacy` registry
//! serves the historical text/YAML encodings, which are decoded into the
//! typed structures and re-encoded canonically — YAML for metadata, the
//! binary member encoding for grids.

use vstd::prelude::*;

use crate::codec::enc_member;
use crate::grid::{parse_member, spec_grid_blocks, spec_grid_head, GridError};
use crate::info::{first_field_error, info_of_entries, info_yaml, Info, InfoError};
use crate::member::MemberView;
use crate::resource::Data;
use crate::text::{
    all_digits, chars_string, check_all_digits, copy_range, dec_val, ends_with, padded_dec,
    piece_len, str_chars, utf8_chars,
};
use crate::yaml::{yaml_scalars_of, yaml_string_map_of};
use vstd::string::StrSliceExecFns;
use vstd::utf8::{decode_utf8, encode_utf8, valid_utf8};

verus! {

/// The encoding a registry serves.
#[derive(Debug, Clone)]
pub enum Format {
    /// Canonical bytes, taken as they are.
    Native,
    /// The historical text/YAML encodings.
    Legacy,
}

/// Failure to convert fetched content into the canonical encoding.
#[derive(Debug)]
pub enum ConvertError {
    /// The content is not valid UTF-8 text.
    Text,
    /// A malformed legacy grid document.
    Grid(GridError),
    /// A malformed legacy metadata document.
    Metadata(InfoError),
}

/// An archive entry name that maps to no canonical file name.
#[derive(Debug, PartialEq, Eq, Structural)]
pub struct UnrecognizedName;

impl Default for Format {
    /// The default format is the native one.
    fn default() -> (r: Format)
        ensures
            r is Native,
    {
        Format::Native
    }
}

/// The last non-empty component of a slash-separated path: trailing
/// slashes name no component of their own.
pub open spec fn leaf_of(s: Seq<char>) -> Seq<char>
    decreases s.len(),
{
    let k = if piece_len(s, '/') <= s.len() {
        piece_len(s, '/') as int
    } else {
        s.len() as int
    };
    if k == s.len() {
        s
    } else {
        let rest = leaf_of(s.skip(k + 1));
        if rest.len() == 0 {
            s.take(k)
        } else {
            rest
        }
    }
}

/// A leaf that names a file: non-empty and neither the current- nor the
/// parent-directory name.
pub open spec fn is_file_leaf(l: Seq<char>) -> bool {
    l.len() > 0 && l != seq!['.'] && l != seq!['.', '.']
}

/// Whether a leaf name carries a four-digit member suffix before `.dat`,
/// as `..._0031.dat`.
pub open spec fn has_member_suffix(l: Seq<char>) -> bool {
    l.len() >= 9 && ends_with(l, ".dat"@) && l[l.len() - 9] == '_' && all_digits(
        l.subrange(l.len() - 8, l.len() - 4),
    )
}

/// The member number of a leaf with a member suffix.
pub open spec fn member_suffix_val(l: Seq<char>) -> int {
    dec_val(l.subrange(l.len() - 8, l.len() - 4))
}

/// The canonical file name a legacy archive entry maps to: metadata files
/// keep their role, member files get the zero-padded member file name, and
/// anything else is unrecognized.
pub open spec fn legacy_name_of(l: Seq<char>) -> Option<Seq<char>> {
    if ends_with(l, ".info"@) {
        Some("info.yaml"@)
    } else if has_member_suffix(l) {
        Some(padded_dec(member_suffix_val(l) as nat, 6) + ".member.lz4"@)
    } else {
        None
    }
}

/// The canonical file name an archive entry maps to under a format.
pub open spec fn spec_convert_name(f: Format, path: Seq<char>) -> Option<Seq<char>> {
    match f {
        Format::Native => {
            if is_file_leaf(leaf_of(path)) {
                Some(leaf_of(path))
            } else {
                None
            }
        },
        Format::Legacy => legacy_name_of(leaf_of(path)),
    }
}

/// The last non-empty component of a slash-separated path.
fn leaf(v: &Vec<char>, from: usize) -> (r: Vec<char>)
    requires
        from <= v@.len(),
    ensures
        r@ == leaf_of(v@.skip(from as int)),
    decreases v@.len() - from,
{
    let e = crate::text::piece_end(v, from, '/');
    if e == v.len() {
        let r = copy_range(v, from, v.len());
        proof {
            assert(r@ =~= v@.skip(from as int));
        }
        r
    } else {
        let rest = leaf(v, e + 1);
        proof {
            assert(v@.skip(from as int).skip(piece_len(v@.skip(from as int), '/') as int + 1)
                =~= v@.skip(e + 1));
        }
        if rest.len() == 0 {
            let r = copy_range(v, from, e);
            proof {
                assert(r@ =~= v@.skip(from as int).take(
                    piece_len(v@.skip(from as int), '/') as int,
                ));
            }
            r
        } else {
            rest
        }
    }
}

/// Whether the leaf names a file.
fn check_file_leaf(l: &Vec<char>) -> (r: bool)
    ensures
        r == is_file_leaf(l@),
{
    if l.len() == 0 {
        false
    } else if l.len() == 1 && l[0] == '.' {
        proof {
            assert(l@ =~= seq!['.']);
        }
        false
    } else if l.len() == 2 && l[0] == '.' && l[1] == '.' {
        proof {
            assert(l@ =~= seq!['.', '.']);
        }
        false
    } else {
        proof {
            if l@ == seq!['.'] {
                assert(l@.len() == 1 && l@[0] == '.');
            }
            if l@ == seq!['.', '.'] {
                assert(l@.len() == 2 && l@[0] == '.' && l@[1] == '.');
            }
        }
        true
    }
}

impl Format {
    /// Maps an archive entry name to the canonical file name it stands for.
    ///
    /// The leaf is the last non-empty path component. Under the native
    /// format any leaf naming a file passes through (the current- and
    /// parent-directory names do not); under the legacy format a `.info`
    /// entry becomes the metadata file and an entry with a four-digit
    /// member suffix becomes that member's file, while anything else is
    /// rejected.
    pub fn convert_name(&self, path: &str) -> (r: Result<String, UnrecognizedName>)
        ensures
            r matches Ok(name) ==> spec_convert_name(*self, path@) == Some(name@),
            r is Err <==> spec_convert_name(*self, path@) is None,
    {
        let chars = str_chars(path);
        proof {
            assert(chars@.skip(0) =~= chars@);
        }
        let l = leaf(&chars, 0);
        match self {
            Format::Native => {
                if check_file_leaf(&l) {
                    Ok(chars_string(&l))
                } else {
                    Err(UnrecognizedName)
                }
            },
            Format::Legacy => {
                // a metadata entry
                let dot_info = str_chars(".info");
                if crate::text::check_ends_with(&l, &dot_info) {
                    proof {
                        reveal_strlit(".info");
                    }
                    return Ok(String::from_str("info.yaml"));
                }
                proof {
                    reveal_strlit(".info");
                }
                // a member entry: `..._NNNN.dat`
                let dot_dat = str_chars(".dat");
                let tail_ok = crate::text::check_ends_with(&l, &dot_dat);
                proof {
                    reveal_strlit(".dat");
                }
                if l.len() >= 9 && tail_ok && l[l.len() - 9] == '_' {
                    let digits = copy_range(&l, l.len() - 8, l.len() - 4);
                    proof {
                        assert(digits@ =~= l@.subrange(l@.len() - 8, l@.len() - 4));
                    }
                    if check_all_digits(&digits) {
                        proof {
                            assert(has_member_suffix(l@));
                            crate::text::lemma_dec_val_small(digits@);
                        }
                        let num = crate::text::parse_u32_digits(&digits);
                        let padded = crate::text::padded_dec_chars(num as u64, 6);
                        let mut name = chars_string(&padded);
                        name.append(".member.lz4");
                        return Ok(name);
                    }
                }
                proof {
                    assert(legacy_name_of(l@) is None);
                }
                Err(UnrecognizedName)
            },
        }
    }

    /// Converts fetched content into the canonical encoding.
    ///
    /// The native format passes bytes through unchanged. The legacy format
    /// decodes a metadata document into an [`Info`] and re-encodes it as
    /// the canonical YAML, and decodes a member document into its blocks
    /// and re-encodes them in the canonical binary form; the index and the
    /// archive itself pass through. Success is owed exactly when the
    /// document reads cleanly, and the output is the re-encoding of what
    /// was read.
    pub fn convert(&self, content: Vec<u8>, data: &Data) -> (r: Result<Vec<u8>, ConvertError>)
        ensures
            self is Native ==> (r matches Ok(b) && b == content),
            self is Legacy && (data is Index || data is SetArchive) ==> (r matches Ok(b) && b
                == content),
            self is Legacy && data is Member ==> ({
                let text = decode_utf8(content@);
                let meta = yaml_string_map_of(encode_utf8(spec_grid_head(text)));
                &&& (r matches Err(ConvertError::Text) <==> !valid_utf8(content@))
                &&& (r is Ok <==> valid_utf8(content@) && meta is Some && spec_grid_blocks(
                    text,
                ) is Some)
                &&& (r matches Ok(b) ==> b@ == enc_member(
                    MemberView {
                        metadata: meta->Some_0,
                        blocks: spec_grid_blocks(text)->Some_0,
                    },
                ))
                &&& (r matches Err(ConvertError::Grid(g)) ==> valid_utf8(content@)
                    && spec_grid_blocks(text) is None)
                &&& (valid_utf8(content@) ==> (r matches Err(ConvertError::Metadata(ie)) <==> meta
                    is None))
            }),
            self is Legacy && data is Info ==> ({
                let es = yaml_scalars_of(content@);
                &&& (r is Ok <==> (es matches Some(ev) && first_field_error(
                    ev,
                    "SetIndex"@,
                    "SetDesc"@,
                    "Authors"@,
                    "Year"@,
                ) is None))
                &&& (r matches Ok(b) ==> b@ == encode_utf8(
                    info_yaml(
                        info_of_entries(
                            es->Some_0,
                            "SetIndex"@,
                            "SetDesc"@,
                            "Authors"@,
                            "Year"@,
                        ),
                    ),
                ))
                &&& (r matches Err(ConvertError::Metadata(InfoError::Document)) <==> es is None)
            }),
    {
        match self {
            Format::Native => Ok(content),
            Format::Legacy => match data {
                Data::Info(_) => {
                    let info = match Info::from_legacy(content.as_slice()) {
                        Ok(i) => i,
                        Err(e) => {
                            return Err(ConvertError::Metadata(e));
                        },
                    };
                    let text = info.to_canonical();
                    let bytes = text.as_str().as_bytes_vec();
                    proof {
                        assert(bytes@ == encode_utf8(info_yaml(info@)));
                    }
                    Ok(bytes)
                },
                Data::Member(_, _) => {
                    let chars = match utf8_chars(content.as_slice()) {
                        Some(c) => c,
                        None => {
                            return Err(ConvertError::Text);
                        },
                    };
                    let text = chars_string(&chars);
                    let member = match parse_member(text.as_str()) {
                        Ok(m) => m,
                        Err(GridError::Metadata) => {
                            return Err(ConvertError::Metadata(InfoError::Document));
                        },
                        Err(e) => {
                            return Err(ConvertError::Grid(e));
                        },
                    };
                    let bytes = member.encode();
                    proof {
                        let w = MemberView {
                            metadata: yaml_string_map_of(
                                encode_utf8(spec_grid_head(decode_utf8(content@))),
                            )->Some_0,
                            blocks: spec_grid_blocks(decode_utf8(content@))->Some_0,
                        };
                        assert(member@ =~~= w);
                    }
                    Ok(bytes)
                },
                _ => Ok(content),
            },
        }
    }
}

} // verus!
