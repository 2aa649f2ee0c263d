//! The registry index: parsing and name lookup.
//!
//! An index document holds one header record per line, its three fields
//! separated by blank space: `id name member_count`; a line that does not
//! supply exactly those fields fails the whole document. Lookup anchors a
//! caller-supplied regular expression against every header name and demands
//! exactly one match.

use vstd::prelude::*;

use crate::header::Header;
use crate::text::{
    all_digits, chars_string, dec_val, is_u32_token, parse_u32, split_at_char, split_char,
    split_tokens, str_chars, tokens,
};

verus! {

/// The contents of one registry's index: the headers of its sets, in
/// document order.
pub struct Index {
    pub sets: Vec<Header>,
}

/// Failure to parse an index document.
#[derive(Debug, PartialEq, Eq, Structural)]
pub struct ParseIndexError;

/// Failure of a name lookup in an index.
#[derive(Debug)]
pub enum LookupError {
    /// No header name matches the pattern.
    NoMatch,
    /// More than one header name matches; carries how many.
    Ambiguous(usize),
    /// The pattern is not a valid regular expression.
    InvalidPattern,
}

impl View for Index {
    type V = Seq<(u32, Seq<char>, u32)>;

    open spec fn view(&self) -> Seq<(u32, Seq<char>, u32)> {
        Seq::new(self.sets@.len(), |i: int| self.sets@[i]@)
    }
}

/// The header one line denotes, or `None` when the line does not split
/// into exactly three tokens with numeric first and third fields.
pub open spec fn spec_parse_line(line: Seq<char>) -> Option<(u32, Seq<char>, u32)> {
    let ts = tokens(line);
    if ts.len() == 3 && is_u32_token(ts[0]) && is_u32_token(ts[2]) {
        Some((dec_val(ts[0]) as u32, ts[1], dec_val(ts[2]) as u32))
    } else {
        None
    }
}

/// The headers a list of lines denotes, one per line and in line order, or
/// `None` as soon as any line is malformed.
pub open spec fn spec_parse_lines(lines: Seq<Seq<char>>) -> Option<Seq<(u32, Seq<char>, u32)>>
    decreases lines.len(),
{
    if lines.len() == 0 {
        Some(Seq::empty())
    } else {
        match spec_parse_lines(lines.drop_last()) {
            Some(hs) => match spec_parse_line(lines.last()) {
                Some(h) => Some(hs + seq![h]),
                None => None,
            },
            None => None,
        }
    }
}

/// The lines of an index document: the text split at every newline, with
/// the single empty piece a terminating newline produces dropped — a
/// trailing newline ends the last record, it does not open a blank one.
pub open spec fn index_lines(s: Seq<char>) -> Seq<Seq<char>> {
    let ls = split_at_char(s, '\n');
    if ls.len() > 0 && ls.last().len() == 0 {
        ls.drop_last()
    } else {
        ls
    }
}

/// The headers an index document denotes, or `None` if any line is
/// malformed.
pub open spec fn spec_parse_index(s: Seq<char>) -> Option<Seq<(u32, Seq<char>, u32)>> {
    spec_parse_lines(index_lines(s))
}

proof fn lemma_parse_lines_none_extends(lines: Seq<Seq<char>>, j: int)
    requires
        0 <= j <= lines.len(),
        spec_parse_lines(lines.take(j)) is None,
    ensures
        spec_parse_lines(lines) is None,
    decreases lines.len() - j,
{
    if j == lines.len() {
        assert(lines.take(j) =~= lines);
    } else {
        assert(lines.take(j + 1).drop_last() =~= lines.take(j));
        lemma_parse_lines_none_extends(lines, j + 1);
    }
}

impl Index {
    /// Parses an index document.
    ///
    /// Every line must split into exactly three blank-separated tokens, the
    /// first and third of which read as decimal `u32` values; any other
    /// line — a blank one included — fails the whole document. A single
    /// terminating newline closes the last record and opens no line.
    pub fn parse(s: &str) -> (r: Result<Index, ParseIndexError>)
        ensures
            r matches Ok(ix) ==> spec_parse_index(s@) == Some(ix@),
            r is Err <==> spec_parse_index(s@) is None,
    {
        let chars = str_chars(s);
        let lines = split_char(&chars, '\n');
        let ghost lv = lines.deep_view();
        // a terminating newline produces one empty trailing piece; drop it
        let n: usize = if lines.len() > 0 && lines[lines.len() - 1].len() == 0 {
            lines.len() - 1
        } else {
            lines.len()
        };
        let ghost il = index_lines(s@);
        proof {
            assert(lv[lv.len() - 1] == lines@[lines@.len() - 1]@);
            if n < lines@.len() {
                assert(il =~= lv.drop_last());
            } else {
                assert(il =~= lv);
            }
            assert(il =~= lv.take(n as int));
        }
        let mut sets: Vec<Header> = Vec::new();
        let mut i: usize = 0;
        while i < n
            invariant
                i <= n <= lines@.len(),
                lv == lines.deep_view(),
                il == index_lines(s@),
                il =~= lv.take(n as int),
                spec_parse_lines(il.take(i as int)) == Some(
                    Seq::new(sets@.len(), |k: int| sets@[k]@),
                ),
            decreases n - i,
        {
            proof {
                assert(il.take(i + 1).drop_last() =~= il.take(i as int));
                assert(il.take(i + 1).last() == il[i as int]);
                assert(il[i as int] == lv[i as int]);
                assert(lv[i as int] == lines@[i as int]@);
            }
            let toks = split_tokens(&lines[i]);
            if toks.len() == 3 {
                let id = parse_u32(&toks[0]);
                let number = parse_u32(&toks[2]);
                match (id, number) {
                    (Some(id), Some(number)) => {
                        let name = chars_string(&toks[1]);
                        let h = Header::new(id, name, number);
                        sets.push(h);
                        proof {
                            assert(toks.deep_view()[0] == toks@[0]@);
                            assert(toks.deep_view()[1] == toks@[1]@);
                            assert(toks.deep_view()[2] == toks@[2]@);
                            assert(Seq::new(sets@.len(), |k: int| sets@[k]@) =~= Seq::new(
                                (sets@.len() - 1) as nat,
                                |k: int| sets@[k]@,
                            ) + seq![(id, toks.deep_view()[1], number)]);
                        }
                    },
                    _ => {
                        proof {
                            assert(toks.deep_view()[0] == toks@[0]@);
                            assert(toks.deep_view()[2] == toks@[2]@);
                            assert(spec_parse_line(il[i as int]) is None);
                            lemma_parse_lines_none_extends(il, i + 1);
                        }
                        return Err(ParseIndexError);
                    },
                }
            } else {
                proof {
                    assert(spec_parse_line(il[i as int]) is None);
                    lemma_parse_lines_none_extends(il, i + 1);
                }
                return Err(ParseIndexError);
            }
            i = i + 1;
        }
        proof {
            assert(il.take(il.len() as int) =~= il);
        }
        Ok(Index { sets })
    }

    /// How many headers the index holds.
    pub fn len(&self) -> (r: usize)
        ensures
            r == self@.len(),
    {
        self.sets.len()
    }

    /// The header at position `i`.
    pub fn at(&self, i: usize) -> (r: &Header)
        requires
            i < self@.len(),
        ensures
            r@ == self@[i as int],
    {
        &self.sets[i]
    }
}

/// Whether `text` matches the regular expression built by gluing `^` and
/// `$` around `pattern`; `None` when that expression does not compile. A
/// function of the two strings alone.
pub uninterp spec fn full_match_of(pattern: Seq<char>, text: Seq<char>) -> Option<bool>;

/// Relies on `regex::Regex::new` and `regex::Regex::is_match`: compiles
/// `^pattern$` and tests the text against it, both deterministic in the two
/// strings.
#[verifier::external_body]
fn regex_full_match(pattern: &str, text: &str) -> (r: Option<bool>)
    ensures
        r == full_match_of(pattern@, text@),
{
    let anchored = format!("^{}$", pattern);
    match regex::Regex::new(&anchored) {
        Ok(re) => Some(re.is_match(text)),
        Err(_) => None,
    }
}

/// How many headers of `hs` the pattern matches in full.
pub open spec fn match_count(p: Seq<char>, hs: Seq<(u32, Seq<char>, u32)>) -> int
    decreases hs.len(),
{
    if hs.len() == 0 {
        0int
    } else {
        match_count(p, hs.drop_last()) + if full_match_of(p, hs.last().1) == Some(true) {
            1int
        } else {
            0int
        }
    }
}

/// Whether matching the pattern failed to compile against any header name,
/// or against the empty text.
pub open spec fn pattern_invalid(p: Seq<char>, hs: Seq<(u32, Seq<char>, u32)>) -> bool {
    full_match_of(p, Seq::<char>::empty()) is None || exists|i: int|
        0 <= i < hs.len() && full_match_of(p, #[trigger] hs[i].1) is None
}

proof fn lemma_match_count_bounds(p: Seq<char>, hs: Seq<(u32, Seq<char>, u32)>)
    ensures
        0 <= match_count(p, hs) <= hs.len(),
    decreases hs.len(),
{
    if hs.len() > 0 {
        lemma_match_count_bounds(p, hs.drop_last());
    }
}

proof fn lemma_match_count_step(p: Seq<char>, hs: Seq<(u32, Seq<char>, u32)>, i: int)
    requires
        0 <= i < hs.len(),
    ensures
        match_count(p, hs.take(i + 1)) == match_count(p, hs.take(i)) + if full_match_of(
            p,
            hs[i].1,
        ) == Some(true) {
            1int
        } else {
            0int
        },
{
    assert(hs.take(i + 1).drop_last() =~= hs.take(i));
    assert(hs.take(i + 1).last() == hs[i]);
}

impl Index {
    /// Retrieves the header whose name the pattern matches in full.
    ///
    /// The pattern is a regular expression, glued between `^` and `$`.
    /// Exactly one matching header is returned; zero matches and several
    /// matches are distinct errors, as is a pattern that does not compile.
    pub fn get(&self, name: &str) -> (r: Result<Header, LookupError>)
        ensures
            r matches Err(LookupError::InvalidPattern) <==> pattern_invalid(name@, self@),
            !pattern_invalid(name@, self@) ==> {
                &&& (r matches Ok(h) ==> match_count(name@, self@) == 1 && exists|i: int|
                    0 <= i < self@.len() && full_match_of(name@, #[trigger] self@[i].1) == Some(
                        true,
                    ) && h@ == self@[i])
                &&& (r matches Err(LookupError::NoMatch) <==> match_count(name@, self@) == 0)
                &&& (r matches Err(LookupError::Ambiguous(n)) ==> match_count(name@, self@) >= 2
                    && n == match_count(name@, self@))
                &&& (match_count(name@, self@) >= 2 ==> (r matches Err(LookupError::Ambiguous(n))
                    && n == match_count(name@, self@)))
                &&& (r is Ok <==> match_count(name@, self@) == 1)
            },
    {
        let probe = regex_full_match(name, "");
        proof {
            reveal_strlit("");
            assert(""@ =~= Seq::<char>::empty());
        }
        if probe.is_none() {
            return Err(LookupError::InvalidPattern);
        }
        let mut count: usize = 0;
        let mut found: usize = 0;
        let mut i: usize = 0;
        while i < self.sets.len()
            invariant
                i <= self.sets@.len(),
                self@.len() == self.sets@.len(),
                full_match_of(name@, Seq::<char>::empty()) is Some,
                forall|j: int| 0 <= j < i ==> full_match_of(name@, #[trigger] self@[j].1) is Some,
                count == match_count(name@, self@.take(i as int)),
                count <= i,
                count > 0 ==> found < i && full_match_of(name@, self@[found as int].1) == Some(
                    true,
                ),
            decreases self.sets@.len() - i,
        {
            proof {
                assert(self@[i as int] == self.sets@[i as int]@);
                lemma_match_count_step(name@, self@, i as int);
            }
            match regex_full_match(name, self.sets[i].name.as_str()) {
                Some(true) => {
                    if count == 0 {
                        found = i;
                    }
                    count = count + 1;
                },
                Some(false) => {},
                None => {
                    return Err(LookupError::InvalidPattern);
                },
            }
            i = i + 1;
        }
        proof {
            assert(self@.take(self@.len() as int) =~= self@);
            lemma_match_count_bounds(name@, self@);
        }
        if count == 0 {
            Err(LookupError::NoMatch)
        } else if count == 1 {
            let h = self.sets[found].clone();
            Ok(h)
        } else {
            Err(LookupError::Ambiguous(count))
        }
    }
}

} // verus!
