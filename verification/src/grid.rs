//! The legacy grid decoder.
//!
//! A legacy member document opens with a YAML metadata record and continues
//! with sections separated by `---` delimiter lines. Each section carries
//! the momentum-fraction grid, the scale grid and the particle ids on its
//! first three lines, and then a dense table with one row per `(x, mu2)`
//! pair and one column per particle id. The decoder lifts the particle-id
//! axis outermost: each section yields one block per particle id, and every
//! scalar's position is preserved exactly. Numeric entries are validated
//! against the decimal floating-point grammar and carried as their verbatim
//! tokens.

use vstd::prelude::*;

use crate::block::{Block, BlockView};
use crate::member::Member;
use crate::text::{
    chars_string, check_numeric_token, copy_range, int_val, is_i32_token, is_numeric_token,
    parse_i32, split_at_char, split_char, split_tokens, str_chars, tokens, trim, trim_spec,
};
use crate::yaml::{parse_string_map, yaml_string_map_of};
use vstd::string::StringSliceAdditionalSpecFns;
use vstd::utf8::encode_utf8;

verus! {

/// Failure to decode a legacy grid document.
#[derive(Debug, PartialEq, Eq, Structural)]
pub enum GridError {
    /// The metadata record is not a flat YAML string map.
    Metadata,
    /// A section is malformed: a bad numeric token, or a table whose shape
    /// does not match the three axis lines.
    Section,
}

/// A `---` delimiter line, possibly padded with blank space.
pub open spec fn is_delim_line(l: Seq<char>) -> bool {
    trim_spec(l) == seq!['-', '-', '-']
}

/// A line with no tokens on it.
pub open spec fn is_blank_line(l: Seq<char>) -> bool {
    tokens(l).len() == 0
}

/// The number of lines before the first delimiter line.
pub open spec fn sec_len(ls: Seq<Seq<char>>) -> nat
    decreases ls.len(),
{
    if ls.len() == 0 || is_delim_line(ls[0]) {
        0
    } else {
        1 + sec_len(ls.drop_first())
    }
}

proof fn lemma_sec_len_bound(ls: Seq<Seq<char>>)
    ensures
        sec_len(ls) <= ls.len(),
    decreases ls.len(),
{
    if ls.len() > 0 && !is_delim_line(ls[0]) {
        lemma_sec_len_bound(ls.drop_first());
    }
}

/// The lines with leading and trailing blank lines removed.
pub open spec fn strip_blank(ls: Seq<Seq<char>>) -> Seq<Seq<char>>
    decreases ls.len(),
{
    if ls.len() == 0 {
        ls
    } else if is_blank_line(ls[0]) {
        strip_blank(ls.drop_first())
    } else if is_blank_line(ls.last()) {
        strip_blank(ls.drop_last())
    } else {
        ls
    }
}

/// Whether every token of the run is a decimal floating-point token.
pub open spec fn all_numeric(ts: Seq<Seq<char>>) -> bool {
    forall|i: int| 0 <= i < ts.len() ==> is_numeric_token(#[trigger] ts[i])
}

/// A line read as a row of numeric tokens.
pub open spec fn numeric_row(l: Seq<char>) -> Option<Seq<Seq<char>>> {
    if all_numeric(tokens(l)) {
        Some(tokens(l))
    } else {
        None
    }
}

/// The values of a token run read as signed integers.
pub open spec fn ints_of(ts: Seq<Seq<char>>) -> Option<Seq<i32>>
    decreases ts.len(),
{
    if ts.len() == 0 {
        Some(Seq::empty())
    } else {
        match ints_of(ts.drop_last()) {
            Some(vs) => {
                if is_i32_token(ts.last()) {
                    Some(vs + seq![int_val(ts.last()) as i32])
                } else {
                    None
                }
            },
            None => None,
        }
    }
}

/// A line read as a row of particle ids.
pub open spec fn int_row(l: Seq<char>) -> Option<Seq<i32>> {
    ints_of(tokens(l))
}

/// The table rows a run of lines denotes.
pub open spec fn table_rows(ls: Seq<Seq<char>>) -> Option<Seq<Seq<Seq<char>>>>
    decreases ls.len(),
{
    if ls.len() == 0 {
        Some(Seq::empty())
    } else {
        match table_rows(ls.drop_last()) {
            Some(rows) => match numeric_row(ls.last()) {
                Some(row) => Some(rows + seq![row]),
                None => None,
            },
            None => None,
        }
    }
}

/// The blocks one section denotes: one per particle id, with the table
/// transposed so the discrete axis comes outermost. The value of block `p`
/// at flat position `j` is table row `j`, column `p`.
pub open spec fn section_blocks(ls: Seq<Seq<char>>) -> Option<Seq<BlockView>> {
    let t = strip_blank(ls);
    if t.len() < 4 {
        None
    } else {
        match numeric_row(t[0]) {
            Some(xs) => match numeric_row(t[1]) {
                Some(ms) => match int_row(t[2]) {
                    Some(ps) => match table_rows(t.skip(3)) {
                        Some(rows) => {
                            if ps.len() >= 1 && xs.len() >= 1 && ms.len() >= 1 && rows.len()
                                == xs.len() * ms.len() && (forall|i: int|
                                0 <= i < rows.len() ==> (#[trigger] rows[i]).len() == ps.len()) {
                                Some(
                                    Seq::new(
                                        ps.len(),
                                        |p: int|
                                            BlockView {
                                                pids: seq![ps[p]],
                                                xgrid: xs,
                                                mu2grid: ms,
                                                values: Seq::new(rows.len(), |j: int| rows[j][p]),
                                            },
                                    ),
                                )
                            } else {
                                None
                            }
                        },
                        None => None,
                    },
                    None => None,
                },
                None => None,
            },
            None => None,
        }
    }
}

/// The blocks of all sections of a line run, in order. A final section that
/// holds only blank lines (as after a trailing delimiter) carries nothing;
/// any other malformed section fails the run.
pub open spec fn sections_blocks(ls: Seq<Seq<char>>) -> Option<Seq<BlockView>>
    decreases ls.len(),
{
    let k = if sec_len(ls) <= ls.len() {
        sec_len(ls) as int
    } else {
        ls.len() as int
    };
    if k == ls.len() {
        if strip_blank(ls).len() == 0 {
            Some(Seq::empty())
        } else {
            section_blocks(ls)
        }
    } else {
        match section_blocks(ls.take(k)) {
            Some(bs) => match sections_blocks(ls.skip(k + 1)) {
                Some(rest) => Some(bs + rest),
                None => None,
            },
            None => None,
        }
    }
}

/// The blocks a whole legacy document denotes: everything after the
/// metadata record, section by section.
pub open spec fn spec_grid_blocks(s: Seq<char>) -> Option<Seq<BlockView>> {
    let ls = split_at_char(s, '\n');
    let k = if sec_len(ls) <= ls.len() {
        sec_len(ls) as int
    } else {
        ls.len() as int
    };
    if k == ls.len() {
        Some(Seq::empty())
    } else {
        sections_blocks(ls.skip(k + 1))
    }
}

/// Lines rejoined with newlines, undoing a newline split.
pub open spec fn join_nl(ls: Seq<Seq<char>>) -> Seq<char>
    decreases ls.len(),
{
    if ls.len() == 0 {
        Seq::empty()
    } else if ls.len() == 1 {
        ls[0]
    } else {
        join_nl(ls.drop_last()) + seq!['\n'] + ls.last()
    }
}

/// The metadata record of a document: its lines before the first delimiter
/// line, rejoined.
pub open spec fn spec_grid_head(s: Seq<char>) -> Seq<char> {
    let ls = split_at_char(s, '\n');
    let k = if sec_len(ls) <= ls.len() {
        sec_len(ls) as int
    } else {
        ls.len() as int
    };
    join_nl(ls.take(k))
}

// ------------------------------------------------------------------
// Executable decoding
// ------------------------------------------------------------------

/// Whether the line is a `---` delimiter line.
fn is_delim(l: &Vec<char>) -> (r: bool)
    ensures
        r == is_delim_line(l@),
{
    let t = trim(l);
    if t.len() == 3 && t[0] == '-' && t[1] == '-' && t[2] == '-' {
        proof {
            assert(t@ =~= seq!['-', '-', '-']);
        }
        true
    } else {
        proof {
            if t@ =~= seq!['-', '-', '-'] {
                assert(t@.len() == 3);
            }
        }
        false
    }
}

/// Whether the line holds no tokens.
fn is_blank(l: &Vec<char>) -> (r: bool)
    ensures
        r == is_blank_line(l@),
{
    let ts = split_tokens(l);
    proof {
        assert(ts.deep_view().len() == ts@.len());
    }
    ts.len() == 0
}

/// The position of the first delimiter line at or after `i`.
fn group_end(lines: &Vec<Vec<char>>, i: usize) -> (e: usize)
    requires
        i <= lines@.len(),
    ensures
        i <= e <= lines@.len(),
        e - i == sec_len(lines.deep_view().skip(i as int)),
    decreases lines@.len() - i,
{
    let ghost lv = lines.deep_view();
    if i == lines.len() {
        proof {
            assert(lv.skip(i as int) =~= Seq::<Seq<char>>::empty());
        }
        i
    } else if is_delim(&lines[i]) {
        proof {
            assert(lv.skip(i as int)[0] == lv[i as int]);
            assert(lv[i as int] == lines@[i as int]@);
        }
        i
    } else {
        proof {
            assert(lv.skip(i as int)[0] == lv[i as int]);
            assert(lv[i as int] == lines@[i as int]@);
        }
        let e = group_end(lines, i + 1);
        proof {
            assert(lv.skip(i as int).drop_first() =~= lv.skip(i + 1));
        }
        e
    }
}

/// Narrows `[lo, hi)` to the blank-stripped core of those lines.
fn strip_range(lines: &Vec<Vec<char>>, lo: usize, hi: usize) -> (r: (usize, usize))
    requires
        lo <= hi <= lines@.len(),
    ensures
        lo <= r.0 <= r.1 <= hi,
        strip_blank(lines.deep_view().subrange(lo as int, hi as int)) == lines.deep_view().subrange(
            r.0 as int,
            r.1 as int,
        ),
    decreases hi - lo,
{
    let ghost lv = lines.deep_view();
    if lo == hi {
        proof {
            assert(lv.subrange(lo as int, hi as int).len() == 0);
        }
        (lo, hi)
    } else if is_blank(&lines[lo]) {
        proof {
            let sub = lv.subrange(lo as int, hi as int);
            assert(sub[0] == lv[lo as int]);
            assert(lv[lo as int] == lines@[lo as int]@);
            assert(sub.drop_first() =~= lv.subrange(lo as int + 1, hi as int));
        }
        strip_range(lines, lo + 1, hi)
    } else {
        proof {
            let sub = lv.subrange(lo as int, hi as int);
            assert(sub[0] == lv[lo as int]);
            assert(lv[lo as int] == lines@[lo as int]@);
        }
        if is_blank(&lines[hi - 1]) {
            proof {
                let sub = lv.subrange(lo as int, hi as int);
                assert(sub.last() == lv[hi - 1]);
                assert(lv[hi - 1] == lines@[hi - 1]@);
                assert(sub.drop_last() =~= lv.subrange(lo as int, hi - 1));
            }
            strip_range(lines, lo, hi - 1)
        } else {
            proof {
                let sub = lv.subrange(lo as int, hi as int);
                assert(sub.last() == lv[hi - 1]);
                assert(lv[hi - 1] == lines@[hi - 1]@);
                assert(strip_blank(sub) == sub);
            }
            (lo, hi)
        }
    }
}

/// Reads a line as a row of numeric tokens.
fn parse_numeric_row(l: &Vec<char>) -> (r: Option<Vec<String>>)
    ensures
        r matches Some(v) ==> numeric_row(l@) == Some(
            Seq::new(v@.len() as nat, |q: int| v@[q]@),
        ),
        r is None <==> numeric_row(l@) is None,
{
    let ts = split_tokens(l);
    let ghost tv = ts.deep_view();
    let mut out: Vec<String> = Vec::new();
    let mut i: usize = 0;
    while i < ts.len()
        invariant
            i <= ts@.len(),
            tv == ts.deep_view(),
            tv == tokens(l@),
            out@.len() == i,
            forall|q: int| 0 <= q < i ==> is_numeric_token(#[trigger] tv[q]),
            forall|q: int| 0 <= q < i ==> (#[trigger] out@[q]@) == tv[q],
        decreases ts@.len() - i,
    {
        proof {
            assert(tv[i as int] == ts@[i as int]@);
        }
        if !check_numeric_token(&ts[i]) {
            proof {
                assert(!is_numeric_token(tv[i as int]));
                assert(!all_numeric(tv));
            }
            return None;
        }
        let tok = chars_string(&ts[i]);
        out.push(tok);
        i = i + 1;
    }
    proof {
        assert(all_numeric(tv));
        assert(Seq::new(out@.len() as nat, |q: int| out@[q]@) =~= tv);
    }
    Some(out)
}

proof fn lemma_ints_none_extends(ts: Seq<Seq<char>>, j: int)
    requires
        0 <= j <= ts.len(),
        ints_of(ts.take(j)) is None,
    ensures
        ints_of(ts) is None,
    decreases ts.len() - j,
{
    if j == ts.len() {
        assert(ts.take(j) =~= ts);
    } else {
        assert(ts.take(j + 1).drop_last() =~= ts.take(j));
        lemma_ints_none_extends(ts, j + 1);
    }
}

/// Reads a line as a row of particle ids.
fn parse_int_row(l: &Vec<char>) -> (r: Option<Vec<i32>>)
    ensures
        r matches Some(v) ==> int_row(l@) == Some(v@),
        r is None <==> int_row(l@) is None,
{
    let ts = split_tokens(l);
    let ghost tv = ts.deep_view();
    let mut out: Vec<i32> = Vec::new();
    let mut i: usize = 0;
    while i < ts.len()
        invariant
            i <= ts@.len(),
            tv == ts.deep_view(),
            tv == tokens(l@),
            ints_of(tv.take(i as int)) == Some(out@),
        decreases ts@.len() - i,
    {
        proof {
            assert(tv.take(i + 1).drop_last() =~= tv.take(i as int));
            assert(tv.take(i + 1).last() == tv[i as int]);
            assert(tv[i as int] == ts@[i as int]@);
        }
        match parse_i32(&ts[i]) {
            Some(v) => {
                out.push(v);
            },
            None => {
                proof {
                    lemma_ints_none_extends(tv, i + 1);
                }
                return None;
            },
        }
        i = i + 1;
    }
    proof {
        assert(tv.take(ts@.len() as int) =~= tv);
    }
    Some(out)
}

/// Copies a vector of tokens.
fn copy_strings(v: &Vec<String>) -> (r: Vec<String>)
    ensures
        r@.len() == v@.len(),
        forall|i: int| 0 <= i < v@.len() ==> (#[trigger] r@[i])@ == v@[i]@,
{
    let mut r: Vec<String> = Vec::new();
    let mut i: usize = 0;
    while i < v.len()
        invariant
            i <= v@.len(),
            r@.len() == i,
            forall|q: int| 0 <= q < i ==> (#[trigger] r@[q])@ == v@[q]@,
        decreases v@.len() - i,
    {
        r.push(v[i].clone());
        i = i + 1;
    }
    r
}

proof fn lemma_table_none_extends(ls: Seq<Seq<char>>, j: int)
    requires
        0 <= j <= ls.len(),
        table_rows(ls.take(j)) is None,
    ensures
        table_rows(ls) is None,
    decreases ls.len() - j,
{
    if j == ls.len() {
        assert(ls.take(j) =~= ls);
    } else {
        assert(ls.take(j + 1).drop_last() =~= ls.take(j));
        lemma_table_none_extends(ls, j + 1);
    }
}

proof fn lemma_mul_le(a: int, b: int)
    by (nonlinear_arith)
    requires
        a >= 0,
        b >= 1,
    ensures
        a * b >= a,
{
}

/// Decodes the section held in lines `[lo, hi)` into its blocks.
#[verifier::rlimit(100)]
fn section_to_blocks(lines: &Vec<Vec<char>>, lo: usize, hi: usize) -> (r: Result<
    Vec<Block>,
    GridError,
>)
    requires
        lo <= hi <= lines@.len(),
    ensures
        r matches Ok(bs) ==> section_blocks(lines.deep_view().subrange(lo as int, hi as int))
            == Some(Seq::new(bs@.len() as nat, |k: int| bs@[k]@)),
        r is Err <==> section_blocks(lines.deep_view().subrange(lo as int, hi as int)) is None,
        r matches Err(e) ==> e is Section,
        r matches Ok(bs) ==> forall|k: int|
            0 <= k < bs@.len() ==> (#[trigger] bs@[k]@).well_formed(),
{
    let ghost lv = lines.deep_view();
    let ghost t = strip_blank(lv.subrange(lo as int, hi as int));
    let (slo, shi) = strip_range(lines, lo, hi);
    proof {
        assert(t =~= lv.subrange(slo as int, shi as int));
        assert(t.len() == shi - slo);
    }
    if shi - slo < 4 {
        return Err(GridError::Section);
    }
    proof {
        assert(t[0] == lv[slo as int]);
        assert(t[1] == lv[slo as int + 1]);
        assert(t[2] == lv[slo as int + 2]);
        assert(lv[slo as int] == lines@[slo as int]@);
        assert(lv[slo as int + 1] == lines@[slo as int + 1]@);
        assert(lv[slo as int + 2] == lines@[slo as int + 2]@);
    }
    let xs = match parse_numeric_row(&lines[slo]) {
        Some(v) => v,
        None => {
            return Err(GridError::Section);
        },
    };
    let ms = match parse_numeric_row(&lines[slo + 1]) {
        Some(v) => v,
        None => {
            return Err(GridError::Section);
        },
    };
    let ps = match parse_int_row(&lines[slo + 2]) {
        Some(v) => v,
        None => {
            return Err(GridError::Section);
        },
    };
    let ghost xsv = Seq::new(xs@.len() as nat, |q: int| xs@[q]@);
    let ghost msv = Seq::new(ms@.len() as nat, |q: int| ms@[q]@);
    proof {
        assert(numeric_row(t[0]) == Some(xsv));
        assert(numeric_row(t[1]) == Some(msv));
        assert(int_row(t[2]) == Some(ps@));
    }
    // table rows
    let mut rows: Vec<Vec<String>> = Vec::new();
    let mut j: usize = slo + 3;
    while j < shi
        invariant
            slo + 3 <= j <= shi <= lines@.len(),
            lv == lines.deep_view(),
            t == strip_blank(lv.subrange(lo as int, hi as int)),
            t =~= lv.subrange(slo as int, shi as int),
            table_rows(t.skip(3).take(j - slo - 3)) == Some(rows.deep_view()),
        decreases shi - j,
    {
        proof {
            let tail = t.skip(3);
            assert(tail.take(j - slo - 3 + 1).drop_last() =~= tail.take(j - slo - 3));
            assert(tail.take(j - slo - 3 + 1).last() == tail[j - slo - 3]);
            assert(tail[j - slo - 3] == lv[j as int]);
            assert(lv[j as int] == lines@[j as int]@);
        }
        match parse_numeric_row(&lines[j]) {
            Some(row) => {
                let ghost prev = rows.deep_view();
                let ghost rowv = Seq::new(row@.len() as nat, |q: int| row@[q]@);
                rows.push(row);
                proof {
                    assert(rows.deep_view() =~~= prev + seq![rowv]);
                }
            },
            None => {
                proof {
                    lemma_table_none_extends(t.skip(3), j - slo - 3 + 1);
                }
                return Err(GridError::Section);
            },
        }
        j = j + 1;
    }
    proof {
        assert(t.skip(3).take(shi - slo - 3) =~= t.skip(3));
    }
    // shape checks
    let n_rows = rows.len();
    let np = ps.len();
    let nx = xs.len();
    let nm = ms.len();
    proof {
        assert(xsv.len() == nx && msv.len() == nm);
    }
    if np == 0 || nx == 0 || nm == 0 {
        proof {
            assert(section_blocks(lv.subrange(lo as int, hi as int)) is None);
        }
        return Err(GridError::Section);
    }
    let plane = match nx.checked_mul(nm) {
        Some(p) => p,
        None => {
            proof {
                lemma_mul_le((nx as int) * (nm as int), 1);
                assert((nx as int) * (nm as int) > usize::MAX);
            }
            return Err(GridError::Section);
        },
    };
    if rows.len() != plane {
        proof {
            assert(rows.deep_view().len() != xsv.len() * msv.len());
            assert(section_blocks(lv.subrange(lo as int, hi as int)) is None);
        }
        return Err(GridError::Section);
    }
    proof {
        assert(rows@.len() == xsv.len() * msv.len());
    }
    // every row must be as wide as the particle-id line
    let mut ri: usize = 0;
    while ri < rows.len()
        invariant
            ri <= rows@.len(),
            lv == lines.deep_view(),
            lo <= hi <= lines@.len(),
            t == strip_blank(lv.subrange(lo as int, hi as int)),
            t.len() >= 4,
            numeric_row(t[0]) == Some(xsv),
            numeric_row(t[1]) == Some(msv),
            int_row(t[2]) == Some(ps@),
            table_rows(t.skip(3)) == Some(rows.deep_view()),
            rows.deep_view().len() == rows@.len(),
            rows@.len() == xsv.len() * msv.len(),
            xsv.len() >= 1,
            msv.len() >= 1,
            np >= 1,
            forall|q: int| 0 <= q < ri ==> (#[trigger] rows.deep_view()[q]).len() == np as nat,
            np == ps@.len(),
        decreases rows@.len() - ri,
    {
        if rows[ri].len() != np {
            proof {
                assert(rows.deep_view()[ri as int].len() == rows@[ri as int]@.len());
                assert(rows.deep_view()[ri as int].len() != ps@.len());
                assert(section_blocks(lv.subrange(lo as int, hi as int)) is None);
            }
            return Err(GridError::Section);
        }
        proof {
            assert(rows.deep_view()[ri as int].len() == rows@[ri as int]@.len());
        }
        ri = ri + 1;
    }
    // assemble one block per particle id
    let mut out: Vec<Block> = Vec::new();
    let mut p: usize = 0;
    while p < np
        invariant
            p <= np,
            np == ps@.len(),
            nx == xs@.len(),
            nm == ms@.len(),
            np >= 1 && nx >= 1 && nm >= 1,
            lv == lines.deep_view(),
            lo <= hi <= lines@.len(),
            t == strip_blank(lv.subrange(lo as int, hi as int)),
            t.len() >= 4,
            numeric_row(t[0]) == Some(xsv),
            numeric_row(t[1]) == Some(msv),
            int_row(t[2]) == Some(ps@),
            table_rows(t.skip(3)) == Some(rows.deep_view()),
            forall|q: int| 0 <= q < rows@.len() ==> (#[trigger] rows.deep_view()[q]).len() == np,
            xsv == Seq::new(xs@.len() as nat, |q: int| xs@[q]@),
            msv == Seq::new(ms@.len() as nat, |q: int| ms@[q]@),
            rows@.len() == nx * nm,
            rows@.len() == xsv.len() * msv.len(),
            rows.deep_view().len() == rows@.len(),
            forall|q: int| 0 <= q < rows@.len() ==> (#[trigger] rows.deep_view()[q]).len() == np,
            out@.len() == p,
            forall|q: int| 0 <= q < p ==> (#[trigger] out@[q]@).well_formed(),
            forall|q: int|
                0 <= q < p ==> (#[trigger] out@[q]@) =~~= (BlockView {
                    pids: seq![ps@[q]],
                    xgrid: xsv,
                    mu2grid: msv,
                    values: Seq::new(rows@.len() as nat, |j: int| rows.deep_view()[j][q]),
                }),
        decreases np - p,
    {
        let mut vals: Vec<String> = Vec::new();
        let mut j: usize = 0;
        while j < rows.len()
            invariant
                j <= rows@.len(),
                p < np,
                rows.deep_view().len() == rows@.len(),
                forall|q: int|
                    0 <= q < rows@.len() ==> (#[trigger] rows.deep_view()[q]).len() == np,
                vals@.len() == j,
                forall|q: int|
                    0 <= q < j ==> (#[trigger] vals@[q]@) == rows.deep_view()[q][p as int],
            decreases rows@.len() - j,
        {
            proof {
                assert(rows.deep_view()[j as int] == Seq::new(
                    rows@[j as int]@.len(),
                    |q: int| rows@[j as int]@[q]@,
                ));
            }
            vals.push(rows[j][p].clone());
            j = j + 1;
        }
        let mut pid: Vec<i32> = Vec::new();
        pid.push(ps[p]);
        proof {
            assert(vals@.len() == rows@.len());
            assert(pid@.len() == 1);
            assert(pid@.len() * xs@.len() * ms@.len() == xs@.len() * ms@.len()) by (
            nonlinear_arith)
                requires
                    pid@.len() == 1,
            ;
        }
        let blk = Block::new(pid, copy_strings(&xs), copy_strings(&ms), vals);
        out.push(blk);
        proof {
            assert(pid@ =~= seq![ps@[p as int]]);
            assert(out@[p as int]@ =~~= (BlockView {
                pids: seq![ps@[p as int]],
                xgrid: xsv,
                mu2grid: msv,
                values: Seq::new(rows@.len() as nat, |j: int| rows.deep_view()[j][p as int]),
            }));
        }
        p = p + 1;
    }
    proof {
        assert(section_blocks(lv.subrange(lo as int, hi as int)) matches Some(bs) && bs
            =~~= Seq::new(out@.len() as nat, |k: int| out@[k]@));
    }
    Ok(out)
}

/// Decodes all sections from line `i` on.
fn sections_to_blocks(lines: &Vec<Vec<char>>, i: usize) -> (r: Result<Vec<Block>, GridError>)
    requires
        i <= lines@.len(),
    ensures
        r matches Ok(bs) ==> sections_blocks(lines.deep_view().skip(i as int)) == Some(
            Seq::new(bs@.len() as nat, |k: int| bs@[k]@),
        ),
        r is Err <==> sections_blocks(lines.deep_view().skip(i as int)) is None,
        r matches Err(e) ==> e is Section,
        r matches Ok(bs) ==> forall|k: int|
            0 <= k < bs@.len() ==> (#[trigger] bs@[k]@).well_formed(),
    decreases lines@.len() - i,
{
    let ghost lv = lines.deep_view();
    let ghost ls = lv.skip(i as int);
    let e = group_end(lines, i);
    proof {
        lemma_sec_len_bound(ls);
    }
    if e == lines.len() {
        let (slo, shi) = strip_range(lines, i, e);
        proof {
            assert(ls =~= lv.subrange(i as int, e as int));
        }
        if slo == shi {
            let empty: Vec<Block> = Vec::new();
            proof {
                assert(strip_blank(ls).len() == 0);
                assert(Seq::new(empty@.len() as nat, |k: int| empty@[k]@) =~= Seq::<
                    BlockView,
                >::empty());
            }
            Ok(empty)
        } else {
            proof {
                assert(strip_blank(ls).len() > 0);
            }
            let r = section_to_blocks(lines, i, e);
            r
        }
    } else {
        proof {
            assert(ls.take(e - i) =~= lv.subrange(i as int, e as int));
            assert(ls.skip(e - i + 1) =~= lv.skip(e + 1));
        }
        let head = match section_to_blocks(lines, i, e) {
            Ok(bs) => bs,
            Err(err) => {
                return Err(err);
            },
        };
        let rest = match sections_to_blocks(lines, e + 1) {
            Ok(bs) => bs,
            Err(err) => {
                return Err(err);
            },
        };
        let mut out = head;
        let ghost hv = out@;
        let mut tail = rest;
        let ghost tlv = tail@;
        out.append(&mut tail);
        proof {
            assert(Seq::new(out@.len() as nat, |k: int| out@[k]@) =~= Seq::new(
                hv.len() as nat,
                |k: int| hv[k]@,
            ) + Seq::new(tlv.len() as nat, |k: int| tlv[k]@));
        }
        Ok(out)
    }
}

/// Decodes the numeric sections of a legacy document into blocks.
///
/// The metadata record before the first delimiter line is ignored here;
/// [`parse_member`] reads it.
pub fn grid_blocks(s: &str) -> (r: Result<Vec<Block>, GridError>)
    ensures
        r matches Ok(bs) ==> spec_grid_blocks(s@) == Some(
            Seq::new(bs@.len() as nat, |k: int| bs@[k]@),
        ),
        r is Err <==> spec_grid_blocks(s@) is None,
        r matches Err(e) ==> e is Section,
        r matches Ok(bs) ==> forall|k: int|
            0 <= k < bs@.len() ==> (#[trigger] bs@[k]@).well_formed(),
{
    let chars = str_chars(s);
    let lines = split_char(&chars, '\n');
    let ghost lv = lines.deep_view();
    proof {
        assert(lv.skip(0) =~= lv);
        lemma_sec_len_bound(lv);
        assert(lv == split_at_char(s@, '\n'));
    }
    let e = group_end(&lines, 0);
    if e == lines.len() {
        let empty: Vec<Block> = Vec::new();
        proof {
            assert(Seq::new(empty@.len() as nat, |k: int| empty@[k]@) =~= Seq::<
                BlockView,
            >::empty());
        }
        Ok(empty)
    } else {
        sections_to_blocks(&lines, e + 1)
    }
}

/// Decodes a whole legacy member document: the YAML metadata record, then
/// the numeric sections.
///
/// The blocks are pinned exactly by [`spec_grid_blocks`] and the metadata
/// by [`yaml_string_map_of`] on the head record; success is owed exactly
/// when both reads succeed.
pub fn parse_member(s: &str) -> (r: Result<Member, GridError>)
    ensures
        ({
            let meta = yaml_string_map_of(encode_utf8(spec_grid_head(s@)));
            &&& (r matches Err(GridError::Metadata) <==> meta is None)
            &&& (r is Ok <==> meta is Some && spec_grid_blocks(s@) is Some)
            &&& (r matches Ok(m) ==> spec_grid_blocks(s@) == Some(m@.blocks) && m@.well_formed()
                && meta == Some(m@.metadata))
            &&& (r matches Err(GridError::Section) ==> spec_grid_blocks(s@) is None)
        }),
{
    let chars = str_chars(s);
    let lines = split_char(&chars, '\n');
    let ghost lv = lines.deep_view();
    proof {
        assert(lv.skip(0) =~= lv);
        lemma_sec_len_bound(lv);
    }
    let e = group_end(&lines, 0);
    // the metadata record: the lines before the first delimiter, rejoined
    let mut head: Vec<char> = Vec::new();
    let mut i: usize = 0;
    while i < e
        invariant
            i <= e <= lines@.len(),
            lv == lines.deep_view(),
            head@ == join_nl(lv.take(i as int)),
        decreases e - i,
    {
        proof {
            assert(lv.take(i + 1).drop_last() =~= lv.take(i as int));
            assert(lv.take(i + 1).last() == lv[i as int]);
            assert(lv[i as int] == lines@[i as int]@);
        }
        if i > 0 {
            head.push('\n');
        }
        let mut line = copy_range(&lines[i], 0, lines[i].len());
        proof {
            assert(line@ =~= lv[i as int]);
        }
        head.append(&mut line);
        proof {
            if i == 0 {
                assert(lv.take(1).len() == 1);
                assert(lv.take(1)[0] == lv[0]);
                assert(head@ =~= join_nl(lv.take(1)));
            } else {
                assert(head@ =~= join_nl(lv.take(i as int)) + seq!['\n'] + lv[i as int]);
                assert(head@ =~= join_nl(lv.take(i + 1)));
            }
        }
        i = i + 1;
    }
    proof {
        assert(head@ == spec_grid_head(s@));
    }
    let head_string = chars_string(&head);
    let head_bytes = head_string.as_str().as_bytes();
    proof {
        assert(head_bytes@ == encode_utf8(spec_grid_head(s@)));
    }
    let metadata = match parse_string_map(head_bytes) {
        Ok(m) => m,
        Err(_) => {
            return Err(GridError::Metadata);
        },
    };
    let blocks = match grid_blocks(s) {
        Ok(bs) => bs,
        Err(err) => {
            return Err(err);
        },
    };
    let m = Member { metadata, blocks };
    proof {
        assert(m@.blocks =~= Seq::new(m.blocks@.len() as nat, |k: int| m.blocks@[k]@));
        assert(m@.metadata =~= Seq::new(
            m.metadata@.len() as nat,
            |k: int| (m.metadata@[k].0@, m.metadata@[k].1@),
        ));
    }
    Ok(m)
}

} // verus!
