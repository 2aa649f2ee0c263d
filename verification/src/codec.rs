//! The canonical binary encoding of a member.
//!
//! A member is stored as a length-prefixed, little-endian byte stream:
//! counts are eight-byte words, characters travel as their Unicode scalar
//! values, numeric entries ride as their tokens, and particle ids are
//! biased into the unsigned range. Decoding is proved to invert encoding
//! exactly.

use vstd::prelude::*;

use vstd::utf8::is_scalar;

use crate::block::{Block, BlockView};
use crate::member::{Member, MemberView};
use crate::text::chars_string;

verus! {

/// A byte stream that does not decode as a member.
#[derive(Debug, PartialEq, Eq, Structural)]
pub struct MemberDecodeError;

// ------------------------------------------------------------------
// Eight-byte little-endian words
// ------------------------------------------------------------------

/// The eight little-endian bytes of `v`.
pub open spec fn u64_le(v: u64) -> Seq<u8> {
    seq![
        v as u8,
        (v >> 8) as u8,
        (v >> 16) as u8,
        (v >> 24) as u8,
        (v >> 32) as u8,
        (v >> 40) as u8,
        (v >> 48) as u8,
        (v >> 56) as u8,
    ]
}

/// The word eight little-endian bytes denote.
pub open spec fn u64_of8(b0: u8, b1: u8, b2: u8, b3: u8, b4: u8, b5: u8, b6: u8, b7: u8) -> u64 {
    (b0 as u64) | ((b1 as u64) << 8) | ((b2 as u64) << 16) | ((b3 as u64) << 24) | ((b4
        as u64) << 32) | ((b5 as u64) << 40) | ((b6 as u64) << 48) | ((b7 as u64) << 56)
}

proof fn lemma_u64_le_inverse(v: u64)
    ensures
        u64_of8(
            v as u8,
            (v >> 8) as u8,
            (v >> 16) as u8,
            (v >> 24) as u8,
            (v >> 32) as u8,
            (v >> 40) as u8,
            (v >> 48) as u8,
            (v >> 56) as u8,
        ) == v,
{
    assert(((v as u8) as u64) | (((v >> 8) as u8 as u64) << 8) | (((v >> 16) as u8 as u64)
        << 16) | (((v >> 24) as u8 as u64) << 24) | (((v >> 32) as u8 as u64) << 32) | (((v
        >> 40) as u8 as u64) << 40) | (((v >> 48) as u8 as u64) << 48) | (((v >> 56) as u8
        as u64) << 56) == v) by (bit_vector);
}

proof fn lemma_u32_to_u64(x: u32)
    ensures
        ((x as u64) as u32) == x,
        (x as u64) <= u32::MAX,
{
    assert(((x as u64) as u32) == x && (x as u64) <= 0xFFFF_FFFFu64) by (bit_vector);
}

proof fn lemma_u64_to_u32(v: u64)
    requires
        v <= u32::MAX,
    ensures
        ((v as u32) as u64) == v,
{
    assert(v <= 0xFFFF_FFFFu64 ==> ((v as u32) as u64) == v) by (bit_vector);
}

/// Reads one word: the value and the rest of the stream.
pub open spec fn sp_u64(s: Seq<u8>) -> Option<(u64, Seq<u8>)> {
    if s.len() >= 8 {
        Some((u64_of8(s[0], s[1], s[2], s[3], s[4], s[5], s[6], s[7]), s.skip(8)))
    } else {
        None
    }
}

proof fn lemma_sp_u64(v: u64, rest: Seq<u8>)
    ensures
        sp_u64(u64_le(v) + rest) == Some((v, rest)),
{
    let s = u64_le(v) + rest;
    assert(s.len() >= 8);
    assert(s[0] == v as u8);
    assert(s[1] == (v >> 8) as u8);
    assert(s[2] == (v >> 16) as u8);
    assert(s[3] == (v >> 24) as u8);
    assert(s[4] == (v >> 32) as u8);
    assert(s[5] == (v >> 40) as u8);
    assert(s[6] == (v >> 48) as u8);
    assert(s[7] == (v >> 56) as u8);
    lemma_u64_le_inverse(v);
    assert(s.skip(8) =~= rest);
}

/// Appends the eight little-endian bytes of `v`.
fn put_u64(out: &mut Vec<u8>, v: u64)
    ensures
        final(out)@ == old(out)@ + u64_le(v),
{
    out.push(#[verifier::truncate] (v as u8));
    out.push(#[verifier::truncate] ((v >> 8) as u8));
    out.push(#[verifier::truncate] ((v >> 16) as u8));
    out.push(#[verifier::truncate] ((v >> 24) as u8));
    out.push(#[verifier::truncate] ((v >> 32) as u8));
    out.push(#[verifier::truncate] ((v >> 40) as u8));
    out.push(#[verifier::truncate] ((v >> 48) as u8));
    out.push(#[verifier::truncate] ((v >> 56) as u8));
    assert(out@ =~= old(out)@ + u64_le(v));
}

/// Reads the word at byte position `i`.
fn dec_u64(b: &Vec<u8>, i: usize) -> (r: Option<(u64, usize)>)
    requires
        i <= b@.len(),
    ensures
        match r {
            Some(p) => {
                &&& sp_u64(b@.skip(i as int)) == Some((p.0, b@.skip(p.1 as int)))
                &&& i < p.1 <= b@.len()
            },
            None => sp_u64(b@.skip(i as int)) is None,
        },
{
    let n = b.len();
    if n - i < 8 {
        return None;
    }
    let v = (b[i] as u64) | ((b[i + 1] as u64) << 8) | ((b[i + 2] as u64) << 16) | ((b[i
        + 3] as u64) << 24) | ((b[i + 4] as u64) << 32) | ((b[i + 5] as u64) << 40) | ((b[i
        + 6] as u64) << 48) | ((b[i + 7] as u64) << 56);
    proof {
        let s = b@.skip(i as int);
        assert(s[0] == b@[i as int]);
        assert(s[1] == b@[i as int + 1]);
        assert(s[2] == b@[i as int + 2]);
        assert(s[3] == b@[i as int + 3]);
        assert(s[4] == b@[i as int + 4]);
        assert(s[5] == b@[i as int + 5]);
        assert(s[6] == b@[i as int + 6]);
        assert(s[7] == b@[i as int + 7]);
        assert(s.skip(8) =~= b@.skip(i as int + 8));
    }
    Some((v, i + 8))
}

// ------------------------------------------------------------------
// Character runs and strings
// ------------------------------------------------------------------

/// The encoding of a character run: one word per scalar value.
pub open spec fn enc_chars(s: Seq<char>) -> Seq<u8>
    decreases s.len(),
{
    if s.len() == 0 {
        Seq::empty()
    } else {
        u64_le((s[0] as u32) as u64) + enc_chars(s.drop_first())
    }
}

/// The encoding of a string: its length, then its characters.
pub open spec fn enc_string(s: Seq<char>) -> Seq<u8> {
    u64_le(s.len() as u64) + enc_chars(s)
}

/// Reads `n` characters.
pub open spec fn sp_chars(s: Seq<u8>, n: nat) -> Option<(Seq<char>, Seq<u8>)>
    decreases n,
{
    if n == 0 {
        Some((Seq::empty(), s))
    } else {
        match sp_u64(s) {
            Some(p) => {
                if p.0 <= u32::MAX && is_scalar(p.0 as u32) {
                    match sp_chars(p.1, (n - 1) as nat) {
                        Some(q) => Some((seq![(p.0 as u32) as char] + q.0, q.1)),
                        None => None,
                    }
                } else {
                    None
                }
            },
            None => None,
        }
    }
}

/// Reads a string: a length word, then that many characters.
pub open spec fn sp_string(s: Seq<u8>) -> Option<(Seq<char>, Seq<u8>)> {
    match sp_u64(s) {
        Some(p) => sp_chars(p.1, p.0 as nat),
        None => None,
    }
}

proof fn lemma_sp_chars(s: Seq<char>, rest: Seq<u8>)
    ensures
        sp_chars(enc_chars(s) + rest, s.len()) == Some((s, rest)),
    decreases s.len(),
{
    broadcast use vstd::utf8::char_is_scalar;
    broadcast use vstd::utf8::char_u32_cast;

    if s.len() == 0 {
        assert(enc_chars(s) + rest =~= rest);
        assert(sp_chars(rest, 0) == Some((Seq::<char>::empty(), rest)));
        assert(s =~= Seq::<char>::empty());
    } else {
        let c = s[0];
        let code = (c as u32) as u64;
        let tail = enc_chars(s.drop_first());
        assert(enc_chars(s) + rest =~= u64_le(code) + (tail + rest));
        lemma_sp_u64(code, tail + rest);
        lemma_u32_to_u64(c as u32);
        vstd::utf8::char_is_scalar(c);
        vstd::utf8::char_u32_cast(c, c as u32);
        assert(code <= u32::MAX);
        assert(code as u32 == c as u32);
        assert(is_scalar(code as u32));
        lemma_sp_chars(s.drop_first(), rest);
        assert((code as u32) as char == c);
        assert(seq![c] + s.drop_first() =~= s);
    }
}

proof fn lemma_sp_string(s: Seq<char>, rest: Seq<u8>)
    requires
        s.len() <= u64::MAX,
    ensures
        sp_string(enc_string(s) + rest) == Some((s, rest)),
{
    assert(enc_string(s) + rest =~= u64_le(s.len() as u64) + (enc_chars(s) + rest));
    lemma_sp_u64(s.len() as u64, enc_chars(s) + rest);
    lemma_sp_chars(s, rest);
}

/// Relies on `char::from_u32`: yields a character exactly on Unicode
/// scalar values, and then the one with that value.
#[verifier::external_body]
fn char_from_u32(v: u32) -> (r: Option<char>)
    ensures
        r == if is_scalar(v) {
            Some(v as char)
        } else {
            None::<char>
        },
{
    char::from_u32(v)
}

/// Appends the character run of `s`, starting at position `i`.
fn put_chars_from(out: &mut Vec<u8>, s: &Vec<char>, i: usize)
    requires
        i <= s@.len(),
    ensures
        final(out)@ == old(out)@ + enc_chars(s@.skip(i as int)),
    decreases s@.len() - i,
{
    if i == s.len() {
        assert(s@.skip(i as int) =~= Seq::<char>::empty());
        assert(out@ =~= out@ + enc_chars(s@.skip(i as int)));
    } else {
        let c = s[i];
        put_u64(out, (c as u32) as u64);
        put_chars_from(out, s, i + 1);
        proof {
            let t = s@.skip(i as int);
            assert(t[0] == s@[i as int]);
            assert(t.drop_first() =~= s@.skip(i as int + 1));
            assert(old(out)@ + u64_le((c as u32) as u64) + enc_chars(s@.skip(i as int + 1))
                =~= old(out)@ + enc_chars(t));
        }
    }
}

/// Appends the encoding of the string `s`.
fn put_string(out: &mut Vec<u8>, s: &String)
    ensures
        final(out)@ == old(out)@ + enc_string(s@),
{
    let cv = crate::text::str_chars(s.as_str());
    put_u64(out, cv.len() as u64);
    put_chars_from(out, &cv, 0);
    proof {
        assert(cv@.skip(0) =~= cv@);
        assert(old(out)@ + u64_le(s@.len() as u64) + enc_chars(s@) =~= old(out)@ + enc_string(
            s@,
        ));
    }
}

/// Reads `n` characters from position `i`.
fn dec_chars(b: &Vec<u8>, i: usize, n: u64) -> (r: Option<(Vec<char>, usize)>)
    requires
        i <= b@.len(),
    ensures
        match r {
            Some(p) => {
                &&& sp_chars(b@.skip(i as int), n as nat) == Some((p.0@, b@.skip(p.1 as int)))
                &&& i <= p.1 <= b@.len()
            },
            None => sp_chars(b@.skip(i as int), n as nat) is None,
        },
    decreases n,
{
    if n == 0 {
        let empty: Vec<char> = Vec::new();
        proof {
            assert(empty@ =~= Seq::<char>::empty());
        }
        return Some((empty, i));
    }
    match dec_u64(b, i) {
        Some((code, j)) => {
            if code <= 0xFFFF_FFFFu64 {
                match char_from_u32(code as u32) {
                    Some(c) => {
                        proof {
                            lemma_u64_to_u32(code);
                        }
                        match dec_chars(b, j, n - 1) {
                            Some((mut tail, k)) => {
                                tail.insert(0, c);
                                proof {
                                    assert(tail@ =~= seq![c] + tail@.drop_first());
                                }
                                Some((tail, k))
                            },
                            None => None,
                        }
                    },
                    None => None,
                }
            } else {
                proof {
                    assert(!(code <= u32::MAX));
                }
                None
            }
        },
        None => None,
    }
}

/// Reads a string from position `i`.
fn dec_string(b: &Vec<u8>, i: usize) -> (r: Option<(String, usize)>)
    requires
        i <= b@.len(),
    ensures
        match r {
            Some(p) => {
                &&& sp_string(b@.skip(i as int)) == Some((p.0@, b@.skip(p.1 as int)))
                &&& i <= p.1 <= b@.len()
            },
            None => sp_string(b@.skip(i as int)) is None,
        },
{
    match dec_u64(b, i) {
        Some((n, j)) => match dec_chars(b, j, n) {
            Some((cv, k)) => {
                let s = chars_string(&cv);
                Some((s, k))
            },
            None => None,
        },
        None => None,
    }
}

// ------------------------------------------------------------------
// String runs and particle ids
// ------------------------------------------------------------------

/// The encoding of a string run.
pub open spec fn enc_strs(s: Seq<Seq<char>>) -> Seq<u8>
    decreases s.len(),
{
    if s.len() == 0 {
        Seq::empty()
    } else {
        enc_string(s[0]) + enc_strs(s.drop_first())
    }
}

/// Reads `n` strings.
pub open spec fn sp_strs(s: Seq<u8>, n: nat) -> Option<(Seq<Seq<char>>, Seq<u8>)>
    decreases n,
{
    if n == 0 {
        Some((Seq::empty(), s))
    } else {
        match sp_string(s) {
            Some(p) => match sp_strs(p.1, (n - 1) as nat) {
                Some(q) => Some((seq![p.0] + q.0, q.1)),
                None => None,
            },
            None => None,
        }
    }
}

/// Every string of the run fits a length word.
pub open spec fn strs_bounded(s: Seq<Seq<char>>) -> bool {
    forall|i: int| 0 <= i < s.len() ==> (#[trigger] s[i]).len() <= u64::MAX
}

proof fn lemma_sp_strs(s: Seq<Seq<char>>, rest: Seq<u8>)
    requires
        strs_bounded(s),
    ensures
        sp_strs(enc_strs(s) + rest, s.len()) == Some((s, rest)),
    decreases s.len(),
{
    if s.len() == 0 {
        assert(enc_strs(s) + rest =~= rest);
        assert(s =~= Seq::<Seq<char>>::empty());
    } else {
        assert(enc_strs(s) + rest =~= enc_string(s[0]) + (enc_strs(s.drop_first()) + rest));
        lemma_sp_string(s[0], enc_strs(s.drop_first()) + rest);
        assert(strs_bounded(s.drop_first()));
        lemma_sp_strs(s.drop_first(), rest);
        assert(seq![s[0]] + s.drop_first() =~= s);
    }
}

fn put_strs_from(out: &mut Vec<u8>, s: &Vec<String>, i: usize)
    requires
        i <= s@.len(),
    ensures
        final(out)@ == old(out)@ + enc_strs(
            Seq::new((s@.len() - i) as nat, |k: int| s@[i + k]@),
        ),
    decreases s@.len() - i,
{
    let ghost t = Seq::new((s@.len() - i) as nat, |k: int| s@[i + k]@);
    if i == s.len() {
        assert(out@ =~= out@ + enc_strs(t));
    } else {
        put_string(out, &s[i]);
        put_strs_from(out, s, i + 1);
        proof {
            let t1 = Seq::new((s@.len() - (i + 1)) as nat, |k: int| s@[i + 1 + k]@);
            assert(t[0] == s@[i as int]@);
            assert(t.drop_first() =~= t1);
            assert(old(out)@ + enc_string(s@[i as int]@) + enc_strs(t1) =~= old(out)@ + enc_strs(
                t,
            ));
        }
    }
}

fn dec_strs(b: &Vec<u8>, i: usize, n: u64) -> (r: Option<(Vec<String>, usize)>)
    requires
        i <= b@.len(),
    ensures
        match r {
            Some(p) => {
                &&& sp_strs(b@.skip(i as int), n as nat) == Some((
                    Seq::new(p.0@.len() as nat, |k: int| p.0@[k]@),
                    b@.skip(p.1 as int),
                ))
                &&& i <= p.1 <= b@.len()
            },
            None => sp_strs(b@.skip(i as int), n as nat) is None,
        },
    decreases n,
{
    if n == 0 {
        let empty: Vec<String> = Vec::new();
        proof {
            assert(Seq::new(empty@.len() as nat, |k: int| empty@[k]@) =~= Seq::<
                Seq<char>,
            >::empty());
        }
        return Some((empty, i));
    }
    match dec_string(b, i) {
        Some((v, j)) => match dec_strs(b, j, n - 1) {
            Some((mut tail, k)) => {
                tail.insert(0, v);
                proof {
                    let vw = Seq::new(tail@.len() as nat, |q: int| tail@[q]@);
                    let tw = Seq::new((tail@.len() - 1) as nat, |q: int| tail@[q + 1]@);
                    assert(vw =~= seq![tail@[0]@] + tw);
                }
                Some((tail, k))
            },
            None => None,
        },
        None => None,
    }
}

/// The biased word carrying a particle id.
pub open spec fn pid_code(p: i32) -> u64 {
    (p + 0x8000_0000) as u64
}

/// The encoding of a particle-id run.
pub open spec fn enc_pids(s: Seq<i32>) -> Seq<u8>
    decreases s.len(),
{
    if s.len() == 0 {
        Seq::empty()
    } else {
        u64_le(pid_code(s[0])) + enc_pids(s.drop_first())
    }
}

/// Reads `n` particle ids.
pub open spec fn sp_pids(s: Seq<u8>, n: nat) -> Option<(Seq<i32>, Seq<u8>)>
    decreases n,
{
    if n == 0 {
        Some((Seq::empty(), s))
    } else {
        match sp_u64(s) {
            Some(p) => {
                if p.0 < 0x1_0000_0000u64 {
                    match sp_pids(p.1, (n - 1) as nat) {
                        Some(q) => Some((seq![(p.0 - 0x8000_0000) as i32] + q.0, q.1)),
                        None => None,
                    }
                } else {
                    None
                }
            },
            None => None,
        }
    }
}

proof fn lemma_sp_pids(s: Seq<i32>, rest: Seq<u8>)
    ensures
        sp_pids(enc_pids(s) + rest, s.len()) == Some((s, rest)),
    decreases s.len(),
{
    if s.len() == 0 {
        assert(enc_pids(s) + rest =~= rest);
        assert(s =~= Seq::<i32>::empty());
    } else {
        let code = pid_code(s[0]);
        assert(enc_pids(s) + rest =~= u64_le(code) + (enc_pids(s.drop_first()) + rest));
        lemma_sp_u64(code, enc_pids(s.drop_first()) + rest);
        assert(code < 0x1_0000_0000u64);
        assert((code - 0x8000_0000) as i32 == s[0]);
        lemma_sp_pids(s.drop_first(), rest);
        assert(seq![s[0]] + s.drop_first() =~= s);
    }
}

fn put_pids_from(out: &mut Vec<u8>, s: &Vec<i32>, i: usize)
    requires
        i <= s@.len(),
    ensures
        final(out)@ == old(out)@ + enc_pids(s@.skip(i as int)),
    decreases s@.len() - i,
{
    if i == s.len() {
        assert(s@.skip(i as int) =~= Seq::<i32>::empty());
        assert(out@ =~= out@ + enc_pids(s@.skip(i as int)));
    } else {
        let p = s[i];
        let code: u64 = ((p as i64) + 0x8000_0000i64) as u64;
        proof {
            assert(code == pid_code(s@[i as int]));
        }
        put_u64(out, code);
        put_pids_from(out, s, i + 1);
        proof {
            let t = s@.skip(i as int);
            assert(t[0] == s@[i as int]);
            assert(t.drop_first() =~= s@.skip(i as int + 1));
            assert(old(out)@ + u64_le(code) + enc_pids(s@.skip(i as int + 1)) =~= old(out)@
                + enc_pids(t));
        }
    }
}

fn dec_pids(b: &Vec<u8>, i: usize, n: u64) -> (r: Option<(Vec<i32>, usize)>)
    requires
        i <= b@.len(),
    ensures
        match r {
            Some(p) => {
                &&& sp_pids(b@.skip(i as int), n as nat) == Some((p.0@, b@.skip(p.1 as int)))
                &&& i <= p.1 <= b@.len()
            },
            None => sp_pids(b@.skip(i as int), n as nat) is None,
        },
    decreases n,
{
    if n == 0 {
        let empty: Vec<i32> = Vec::new();
        proof {
            assert(empty@ =~= Seq::<i32>::empty());
        }
        return Some((empty, i));
    }
    match dec_u64(b, i) {
        Some((code, j)) => {
            if code < 0x1_0000_0000u64 {
                let p: i32 = ((code as i64) - 0x8000_0000i64) as i32;
                match dec_pids(b, j, n - 1) {
                    Some((mut tail, k)) => {
                        tail.insert(0, p);
                        proof {
                            assert(tail@ =~= seq![p] + tail@.drop_first());
                        }
                        Some((tail, k))
                    },
                    None => None,
                }
            } else {
                None
            }
        },
        None => None,
    }
}

// ------------------------------------------------------------------
// Metadata
// ------------------------------------------------------------------

/// The encoding of the metadata pairs.
pub open spec fn enc_meta(s: Seq<(Seq<char>, Seq<char>)>) -> Seq<u8>
    decreases s.len(),
{
    if s.len() == 0 {
        Seq::empty()
    } else {
        enc_string(s[0].0) + enc_string(s[0].1) + enc_meta(s.drop_first())
    }
}

/// Reads `n` metadata pairs.
pub open spec fn sp_meta(s: Seq<u8>, n: nat) -> Option<(Seq<(Seq<char>, Seq<char>)>, Seq<u8>)>
    decreases n,
{
    if n == 0 {
        Some((Seq::empty(), s))
    } else {
        match sp_string(s) {
            Some(p) => match sp_string(p.1) {
                Some(q) => match sp_meta(q.1, (n - 1) as nat) {
                    Some(t) => Some((seq![(p.0, q.0)] + t.0, t.1)),
                    None => None,
                },
                None => None,
            },
            None => None,
        }
    }
}

/// Every string of the metadata fits a length word.
pub open spec fn meta_bounded(s: Seq<(Seq<char>, Seq<char>)>) -> bool {
    forall|i: int|
        0 <= i < s.len() ==> (#[trigger] s[i]).0.len() <= u64::MAX && s[i].1.len() <= u64::MAX
}

proof fn lemma_sp_meta(s: Seq<(Seq<char>, Seq<char>)>, rest: Seq<u8>)
    requires
        meta_bounded(s),
    ensures
        sp_meta(enc_meta(s) + rest, s.len()) == Some((s, rest)),
    decreases s.len(),
{
    if s.len() == 0 {
        assert(enc_meta(s) + rest =~= rest);
        assert(s =~= Seq::<(Seq<char>, Seq<char>)>::empty());
    } else {
        let k = s[0].0;
        let v = s[0].1;
        let tail = enc_meta(s.drop_first());
        assert(enc_meta(s) + rest =~= enc_string(k) + (enc_string(v) + (tail + rest)));
        lemma_sp_string(k, enc_string(v) + (tail + rest));
        lemma_sp_string(v, tail + rest);
        assert(meta_bounded(s.drop_first()));
        lemma_sp_meta(s.drop_first(), rest);
        assert(seq![(k, v)] + s.drop_first() =~= s);
    }
}

fn put_meta_from(out: &mut Vec<u8>, s: &Vec<(String, String)>, i: usize)
    requires
        i <= s@.len(),
    ensures
        final(out)@ == old(out)@ + enc_meta(
            Seq::new((s@.len() - i) as nat, |k: int| (s@[i + k].0@, s@[i + k].1@)),
        ),
    decreases s@.len() - i,
{
    let ghost t = Seq::new((s@.len() - i) as nat, |k: int| (s@[i + k].0@, s@[i + k].1@));
    if i == s.len() {
        assert(out@ =~= out@ + enc_meta(t));
    } else {
        put_string(out, &s[i].0);
        put_string(out, &s[i].1);
        put_meta_from(out, s, i + 1);
        proof {
            let t1 = Seq::new(
                (s@.len() - (i + 1)) as nat,
                |k: int| (s@[i + 1 + k].0@, s@[i + 1 + k].1@),
            );
            assert(t[0] == (s@[i as int].0@, s@[i as int].1@));
            assert(t.drop_first() =~= t1);
            assert(old(out)@ + enc_string(s@[i as int].0@) + enc_string(s@[i as int].1@)
                + enc_meta(t1) =~= old(out)@ + enc_meta(t));
        }
    }
}

fn dec_meta(b: &Vec<u8>, i: usize, n: u64) -> (r: Option<(Vec<(String, String)>, usize)>)
    requires
        i <= b@.len(),
    ensures
        match r {
            Some(p) => {
                &&& sp_meta(b@.skip(i as int), n as nat) == Some((
                    Seq::new(p.0@.len() as nat, |k: int| (p.0@[k].0@, p.0@[k].1@)),
                    b@.skip(p.1 as int),
                ))
                &&& i <= p.1 <= b@.len()
            },
            None => sp_meta(b@.skip(i as int), n as nat) is None,
        },
    decreases n,
{
    if n == 0 {
        let empty: Vec<(String, String)> = Vec::new();
        proof {
            assert(Seq::new(empty@.len() as nat, |k: int| (empty@[k].0@, empty@[k].1@))
                =~= Seq::<(Seq<char>, Seq<char>)>::empty());
        }
        return Some((empty, i));
    }
    match dec_string(b, i) {
        Some((key, j)) => match dec_string(b, j) {
            Some((val, k)) => match dec_meta(b, k, n - 1) {
                Some((mut tail, e)) => {
                    tail.insert(0, (key, val));
                    proof {
                        let vw = Seq::new(
                            tail@.len() as nat,
                            |q: int| (tail@[q].0@, tail@[q].1@),
                        );
                        let tw = Seq::new(
                            (tail@.len() - 1) as nat,
                            |q: int| (tail@[q + 1].0@, tail@[q + 1].1@),
                        );
                        assert(vw =~= seq![(tail@[0].0@, tail@[0].1@)] + tw);
                    }
                    Some((tail, e))
                },
                None => None,
            },
            None => None,
        },
        None => None,
    }
}

// ------------------------------------------------------------------
// Blocks and the member
// ------------------------------------------------------------------

/// The encoding of one block: the three axis lengths and runs, then the
/// value count and run.
pub open spec fn enc_block(b: BlockView) -> Seq<u8> {
    u64_le(b.pids.len() as u64) + enc_pids(b.pids) + u64_le(b.xgrid.len() as u64) + enc_strs(
        b.xgrid,
    ) + u64_le(b.mu2grid.len() as u64) + enc_strs(b.mu2grid) + u64_le(b.values.len() as u64)
        + enc_strs(b.values)
}

/// Reads one block, checking its shape invariant.
pub open spec fn sp_block(s: Seq<u8>) -> Option<(BlockView, Seq<u8>)> {
    match sp_u64(s) {
        Some(np) => match sp_pids(np.1, np.0 as nat) {
            Some(ps) => match sp_u64(ps.1) {
                Some(nx) => match sp_strs(nx.1, nx.0 as nat) {
                    Some(xs) => match sp_u64(xs.1) {
                        Some(nm) => match sp_strs(nm.1, nm.0 as nat) {
                            Some(ms) => match sp_u64(ms.1) {
                                Some(nv) => {
                                    if nv.0 == np.0 * nx.0 * nm.0 {
                                        match sp_strs(nv.1, nv.0 as nat) {
                                            Some(vs) => Some((
                                                BlockView {
                                                    pids: ps.0,
                                                    xgrid: xs.0,
                                                    mu2grid: ms.0,
                                                    values: vs.0,
                                                },
                                                vs.1,
                                            )),
                                            None => None,
                                        }
                                    } else {
                                        None
                                    }
                                },
                                None => None,
                            },
                            None => None,
                        },
                        None => None,
                    },
                    None => None,
                },
                None => None,
            },
            None => None,
        },
        None => None,
    }
}

/// Every run of the block fits a length word.
pub open spec fn block_bounded(b: BlockView) -> bool {
    &&& b.pids.len() <= u64::MAX
    &&& b.xgrid.len() <= u64::MAX && strs_bounded(b.xgrid)
    &&& b.mu2grid.len() <= u64::MAX && strs_bounded(b.mu2grid)
    &&& b.values.len() <= u64::MAX && strs_bounded(b.values)
}

#[verifier::rlimit(60)]
proof fn lemma_sp_block(b: BlockView, rest: Seq<u8>)
    requires
        b.well_formed(),
        block_bounded(b),
    ensures
        sp_block(enc_block(b) + rest) == Some((b, rest)),
{
    let np = b.pids.len() as u64;
    let nx = b.xgrid.len() as u64;
    let nm = b.mu2grid.len() as u64;
    let nv = b.values.len() as u64;
    let s1 = enc_pids(b.pids) + (u64_le(nx) + (enc_strs(b.xgrid) + (u64_le(nm) + (enc_strs(
        b.mu2grid,
    ) + (u64_le(nv) + (enc_strs(b.values) + rest))))));
    assert(enc_block(b) + rest =~= u64_le(np) + s1);
    lemma_sp_u64(np, s1);
    let s2 = u64_le(nx) + (enc_strs(b.xgrid) + (u64_le(nm) + (enc_strs(b.mu2grid) + (u64_le(
        nv,
    ) + (enc_strs(b.values) + rest)))));
    assert(s1 =~= enc_pids(b.pids) + s2);
    lemma_sp_pids(b.pids, s2);
    let s3 = enc_strs(b.xgrid) + (u64_le(nm) + (enc_strs(b.mu2grid) + (u64_le(nv) + (enc_strs(
        b.values,
    ) + rest))));
    lemma_sp_u64(nx, s3);
    let s4 = u64_le(nm) + (enc_strs(b.mu2grid) + (u64_le(nv) + (enc_strs(b.values) + rest)));
    assert(s3 =~= enc_strs(b.xgrid) + s4);
    lemma_sp_strs(b.xgrid, s4);
    let s5 = enc_strs(b.mu2grid) + (u64_le(nv) + (enc_strs(b.values) + rest));
    lemma_sp_u64(nm, s5);
    let s6 = u64_le(nv) + (enc_strs(b.values) + rest);
    assert(s5 =~= enc_strs(b.mu2grid) + s6);
    lemma_sp_strs(b.mu2grid, s6);
    let s7 = enc_strs(b.values) + rest;
    lemma_sp_u64(nv, s7);
    assert(nv == np * nx * nm) by {
        assert(b.values.len() == b.pids.len() * b.xgrid.len() * b.mu2grid.len());
    };
    lemma_sp_strs(b.values, rest);
}

/// The encoding of a block run.
pub open spec fn enc_blocks(s: Seq<BlockView>) -> Seq<u8>
    decreases s.len(),
{
    if s.len() == 0 {
        Seq::empty()
    } else {
        enc_block(s[0]) + enc_blocks(s.drop_first())
    }
}

/// Reads `n` blocks.
pub open spec fn sp_blocks(s: Seq<u8>, n: nat) -> Option<(Seq<BlockView>, Seq<u8>)>
    decreases n,
{
    if n == 0 {
        Some((Seq::empty(), s))
    } else {
        match sp_block(s) {
            Some(p) => match sp_blocks(p.1, (n - 1) as nat) {
                Some(q) => Some((seq![p.0] + q.0, q.1)),
                None => None,
            },
            None => None,
        }
    }
}

#[verifier::rlimit(100)]
proof fn lemma_sp_blocks(s: Seq<BlockView>, rest: Seq<u8>)
    requires
        forall|i: int|
            0 <= i < s.len() ==> (#[trigger] s[i]).well_formed() && block_bounded(s[i]),
    ensures
        sp_blocks(enc_blocks(s) + rest, s.len()) == Some((s, rest)),
    decreases s.len(),
{
    if s.len() == 0 {
        assert(enc_blocks(s) + rest =~= rest);
        assert(s =~= Seq::<BlockView>::empty());
    } else {
        assert(enc_blocks(s) + rest =~= enc_block(s[0]) + (enc_blocks(s.drop_first()) + rest));
        assert(s[0].well_formed() && block_bounded(s[0]));
        lemma_sp_block(s[0], enc_blocks(s.drop_first()) + rest);
        assert(forall|i: int|
            0 <= i < s.drop_first().len() ==> (#[trigger] s.drop_first()[i]).well_formed()
                && block_bounded(s.drop_first()[i]));
        lemma_sp_blocks(s.drop_first(), rest);
        assert(seq![s[0]] + s.drop_first() =~= s);
    }
}

/// The encoding of a whole member.
pub open spec fn enc_member(m: MemberView) -> Seq<u8> {
    u64_le(m.metadata.len() as u64) + enc_meta(m.metadata) + u64_le(m.blocks.len() as u64)
        + enc_blocks(m.blocks)
}

/// Reads a whole member; every byte must be consumed.
pub open spec fn sp_member(s: Seq<u8>) -> Option<MemberView> {
    match sp_u64(s) {
        Some(nm) => match sp_meta(nm.1, nm.0 as nat) {
            Some(meta) => match sp_u64(meta.1) {
                Some(nb) => match sp_blocks(nb.1, nb.0 as nat) {
                    Some(blocks) => {
                        if blocks.1.len() == 0 {
                            Some(MemberView { metadata: meta.0, blocks: blocks.0 })
                        } else {
                            None
                        }
                    },
                    None => None,
                },
                None => None,
            },
            None => None,
        },
        None => None,
    }
}

/// Every count of the member fits a length word.
pub open spec fn member_bounded(m: MemberView) -> bool {
    &&& m.metadata.len() <= u64::MAX
    &&& meta_bounded(m.metadata)
    &&& m.blocks.len() <= u64::MAX
    &&& forall|i: int| 0 <= i < m.blocks.len() ==> block_bounded(#[trigger] m.blocks[i])
}

/// The round-trip law of the canonical member encoding: decoding an encoded
/// member reproduces it exactly, for every well-formed member.
pub proof fn lemma_member_codec_round_trip(m: MemberView)
    requires
        m.well_formed(),
        member_bounded(m),
    ensures
        sp_member(enc_member(m)) == Some(m),
{
    let s1 = enc_meta(m.metadata) + (u64_le(m.blocks.len() as u64) + enc_blocks(m.blocks));
    assert(enc_member(m) =~= u64_le(m.metadata.len() as u64) + s1);
    lemma_sp_u64(m.metadata.len() as u64, s1);
    let s2 = u64_le(m.blocks.len() as u64) + enc_blocks(m.blocks);
    lemma_sp_meta(m.metadata, s2);
    let s3 = enc_blocks(m.blocks) + Seq::<u8>::empty();
    assert(s3 =~= enc_blocks(m.blocks));
    lemma_sp_u64(m.blocks.len() as u64, enc_blocks(m.blocks));
    lemma_sp_blocks(m.blocks, Seq::<u8>::empty());
    assert(sp_member(enc_member(m)) == Some(MemberView { metadata: m.metadata, blocks: m.blocks }));
    assert(MemberView { metadata: m.metadata, blocks: m.blocks } == m);
}

#[verifier::rlimit(60)]
proof fn lemma_enc_blocks_snoc(s: Seq<BlockView>, i: int)
    requires
        0 <= i < s.len(),
    ensures
        enc_blocks(s.take(i + 1)) == enc_blocks(s.take(i)) + enc_block(s[i]),
    decreases i,
{
    if i == 0 {
        assert(s.take(1) =~= seq![s[0]]);
        assert(s.take(0) =~= Seq::<BlockView>::empty());
        assert(s.take(1).len() == 1);
        assert(enc_blocks(s.take(1)) == enc_block(s.take(1)[0]) + enc_blocks(
            s.take(1).drop_first(),
        ));
        assert(s.take(1)[0] == s[0]);
        assert(s.take(1).drop_first() =~= Seq::<BlockView>::empty());
        assert(enc_blocks(Seq::<BlockView>::empty()) == Seq::<u8>::empty());
        assert(enc_blocks(s.take(1)) =~= enc_block(s[0]));
        assert(enc_blocks(s.take(0)) + enc_block(s[0]) =~= enc_block(s[0]));
    } else {
        let d = s.drop_first();
        lemma_enc_blocks_snoc(d, i - 1);
        assert(s.take(i + 1).drop_first() =~= d.take(i));
        assert(s.take(i).drop_first() =~= d.take(i - 1));
        assert(s.take(i + 1)[0] == s[0]);
        assert(s.take(i)[0] == s[0]);
        assert(d[i - 1] == s[i]);
        assert(enc_blocks(s.take(i + 1)) =~= enc_blocks(s.take(i)) + enc_block(s[i]));
    }
}

/// Appends the encoding of one block.
#[verifier::rlimit(60)]
fn put_block(out: &mut Vec<u8>, b: &Block)
    ensures
        final(out)@ == old(out)@ + enc_block(b@),
{
    put_u64(out, b.pids.len() as u64);
    put_pids_from(out, &b.pids, 0);
    put_u64(out, b.xgrid.len() as u64);
    put_strs_from(out, &b.xgrid, 0);
    put_u64(out, b.mu2grid.len() as u64);
    put_strs_from(out, &b.mu2grid, 0);
    put_u64(out, b.values.len() as u64);
    put_strs_from(out, &b.values, 0);
    proof {
        assert(b.pids@.skip(0) =~= b.pids@);
        assert(Seq::new((b.xgrid@.len() - 0) as nat, |k: int| b.xgrid@[0 + k]@) =~= b@.xgrid);
        assert(Seq::new((b.mu2grid@.len() - 0) as nat, |k: int| b.mu2grid@[0 + k]@) =~= b@.mu2grid);
        assert(Seq::new((b.values@.len() - 0) as nat, |k: int| b.values@[0 + k]@) =~= b@.values);
        assert(b@.pids =~= b.pids@);
        assert(b@.xgrid.len() == b.xgrid@.len());
        assert(b@.mu2grid.len() == b.mu2grid@.len());
        assert(b@.values.len() == b.values@.len());
        assert(out@ =~= old(out)@ + enc_block(b@));
    }
}

impl Member {
    /// Encodes the member in the canonical binary form.
    #[verifier::rlimit(100)]
    pub fn encode(&self) -> (r: Vec<u8>)
        ensures
            r@ == enc_member(self@),
    {
        let mut out: Vec<u8> = Vec::new();
        put_u64(&mut out, self.metadata.len() as u64);
        put_meta_from(&mut out, &self.metadata, 0);
        put_u64(&mut out, self.blocks.len() as u64);
        proof {
            assert(Seq::new(
                (self.metadata@.len() - 0) as nat,
                |k: int| (self.metadata@[0 + k].0@, self.metadata@[0 + k].1@),
            ) =~= self@.metadata);
            assert(self@.blocks.take(0) =~= Seq::<BlockView>::empty());
            assert(out@ =~= u64_le(self.metadata@.len() as u64) + enc_meta(self@.metadata)
                + u64_le(self.blocks@.len() as u64) + enc_blocks(self@.blocks.take(0)));
        }
        let mut bi: usize = 0;
        while bi < self.blocks.len()
            invariant
                bi <= self.blocks@.len(),
                out@ == u64_le(self.metadata@.len() as u64) + enc_meta(self@.metadata) + u64_le(
                    self.blocks@.len() as u64,
                ) + enc_blocks(self@.blocks.take(bi as int)),
            decreases self.blocks@.len() - bi,
        {
            let b = &self.blocks[bi];
            put_block(&mut out, b);
            proof {
                assert(self@.blocks[bi as int] == b@);
                lemma_enc_blocks_snoc(self@.blocks, bi as int);
                assert(out@ =~= u64_le(self.metadata@.len() as u64) + enc_meta(self@.metadata)
                    + u64_le(self.blocks@.len() as u64) + enc_blocks(
                    self@.blocks.take(bi + 1),
                ));
            }
            bi = bi + 1;
        }
        proof {
            assert(self@.blocks.take(self.blocks@.len() as int) =~= self@.blocks);
            assert(self@.metadata =~= Seq::new(
                (self.metadata@.len() - 0) as nat,
                |k: int| (self.metadata@[0 + k].0@, self.metadata@[0 + k].1@),
            ));
            assert(self@.metadata.len() == self.metadata@.len());
            assert(out@ =~= enc_member(self@));
        }
        out
    }

    /// Decodes a member from the canonical binary form.
    ///
    /// Succeeds exactly on the byte streams that denote a member, and the
    /// result is well formed.
    pub fn decode(b: &Vec<u8>) -> (r: Result<Member, MemberDecodeError>)
        ensures
            r matches Ok(m) ==> sp_member(b@) == Some(m@) && m@.well_formed(),
            r is Err <==> sp_member(b@) is None,
    {
        proof {
            assert(b@.skip(0) =~= b@);
        }
        let nm = match dec_u64(b, 0) {
            Some(p) => p,
            None => {
                return Err(MemberDecodeError);
            },
        };
        let meta = match dec_meta(b, nm.1, nm.0) {
            Some(p) => p,
            None => {
                return Err(MemberDecodeError);
            },
        };
        let nb = match dec_u64(b, meta.1) {
            Some(p) => p,
            None => {
                return Err(MemberDecodeError);
            },
        };
        let blocks = match dec_blocks(b, nb.1, nb.0) {
            Some(p) => p,
            None => {
                return Err(MemberDecodeError);
            },
        };
        if blocks.1 != b.len() {
            proof {
                assert(b@.skip(blocks.1 as int).len() > 0);
            }
            return Err(MemberDecodeError);
        }
        let m = Member { metadata: meta.0, blocks: blocks.0 };
        proof {
            assert(b@.skip(blocks.1 as int).len() == 0);
            assert(m@.metadata =~= Seq::new(
                meta.0@.len() as nat,
                |k: int| (meta.0@[k].0@, meta.0@[k].1@),
            ));
            assert(m@.blocks =~= Seq::new(blocks.0@.len() as nat, |k: int| blocks.0@[k]@));
        }
        Ok(m)
    }
}

proof fn lemma_sp_strs_len(s: Seq<u8>, n: nat)
    ensures
        sp_strs(s, n) matches Some(p) ==> p.0.len() == n,
    decreases n,
{
    if n > 0 {
        if sp_string(s) is Some {
            lemma_sp_strs_len(sp_string(s)->Some_0.1, (n - 1) as nat);
        }
    }
}

proof fn lemma_sp_pids_len(s: Seq<u8>, n: nat)
    ensures
        sp_pids(s, n) matches Some(p) ==> p.0.len() == n,
    decreases n,
{
    if n > 0 {
        if sp_u64(s) is Some {
            lemma_sp_pids_len(sp_u64(s)->Some_0.1, (n - 1) as nat);
        }
    }
}

proof fn lemma_mul_ge(a: int, b: int)
    by (nonlinear_arith)
    requires
        a >= 0,
        b >= 1,
    ensures
        a * b >= a,
{
}

/// Reads one block at position `i`.
fn dec_block(b: &Vec<u8>, i: usize) -> (r: Option<(Block, usize)>)
    requires
        i <= b@.len(),
    ensures
        match r {
            Some(p) => {
                &&& sp_block(b@.skip(i as int)) == Some((p.0@, b@.skip(p.1 as int)))
                &&& i <= p.1 <= b@.len()
                &&& p.0@.well_formed()
            },
            None => sp_block(b@.skip(i as int)) is None,
        },
{
    let np = match dec_u64(b, i) {
        Some(p) => p,
        None => {
            return None;
        },
    };
    let ps = match dec_pids(b, np.1, np.0) {
        Some(p) => p,
        None => {
            return None;
        },
    };
    let nx = match dec_u64(b, ps.1) {
        Some(p) => p,
        None => {
            return None;
        },
    };
    let xs = match dec_strs(b, nx.1, nx.0) {
        Some(p) => p,
        None => {
            return None;
        },
    };
    let nm = match dec_u64(b, xs.1) {
        Some(p) => p,
        None => {
            return None;
        },
    };
    let ms = match dec_strs(b, nm.1, nm.0) {
        Some(p) => p,
        None => {
            return None;
        },
    };
    let nv = match dec_u64(b, ms.1) {
        Some(p) => p,
        None => {
            return None;
        },
    };
    // The value count must equal the product of the three axis lengths.
    let shape_ok: bool = if np.0 == 0 || nx.0 == 0 || nm.0 == 0 {
        proof {
            assert(np.0 * nx.0 * nm.0 == 0) by (nonlinear_arith)
                requires
                    np.0 == 0 || nx.0 == 0 || nm.0 == 0,
            ;
        }
        nv.0 == 0
    } else {
        match np.0.checked_mul(nx.0) {
            Some(a) => match a.checked_mul(nm.0) {
                Some(prod) => prod == nv.0,
                None => {
                    proof {
                        lemma_mul_ge((np.0 * nx.0) as int, nm.0 as int);
                    }
                    false
                },
            },
            None => {
                proof {
                    lemma_mul_ge((np.0 as int) * (nx.0 as int), nm.0 as int);
                }
                false
            },
        }
    };
    if !shape_ok {
        return None;
    }
    let vs = match dec_strs(b, nv.1, nv.0) {
        Some(p) => p,
        None => {
            return None;
        },
    };
    let blk = Block { pids: ps.0, xgrid: xs.0, mu2grid: ms.0, values: vs.0 };
    proof {
        lemma_sp_pids_len(b@.skip(np.1 as int), np.0 as nat);
        lemma_sp_strs_len(b@.skip(nx.1 as int), nx.0 as nat);
        lemma_sp_strs_len(b@.skip(nm.1 as int), nm.0 as nat);
        lemma_sp_strs_len(b@.skip(nv.1 as int), nv.0 as nat);
        assert(blk@.well_formed());
    }
    Some((blk, vs.1))
}

/// Reads `n` blocks from position `i`.
fn dec_blocks(b: &Vec<u8>, i: usize, n: u64) -> (r: Option<(Vec<Block>, usize)>)
    requires
        i <= b@.len(),
    ensures
        match r {
            Some(p) => {
                &&& sp_blocks(b@.skip(i as int), n as nat) == Some((
                    Seq::new(p.0@.len() as nat, |k: int| p.0@[k]@),
                    b@.skip(p.1 as int),
                ))
                &&& i <= p.1 <= b@.len()
                &&& forall|k: int| 0 <= k < p.0@.len() ==> (#[trigger] p.0@[k]@).well_formed()
            },
            None => sp_blocks(b@.skip(i as int), n as nat) is None,
        },
    decreases n,
{
    if n == 0 {
        let empty: Vec<Block> = Vec::new();
        proof {
            assert(Seq::new(empty@.len() as nat, |k: int| empty@[k]@) =~= Seq::<
                BlockView,
            >::empty());
        }
        return Some((empty, i));
    }
    match dec_block(b, i) {
        Some((blk, j)) => match dec_blocks(b, j, n - 1) {
            Some((mut tail, k)) => {
                tail.insert(0, blk);
                proof {
                    let vw = Seq::new(tail@.len() as nat, |q: int| tail@[q]@);
                    let tw = Seq::new((tail@.len() - 1) as nat, |q: int| tail@[q + 1]@);
                    assert(vw =~= seq![tail@[0]@] + tw);
                }
                Some((tail, k))
            },
            None => None,
        },
        None => None,
    }
}


} // verus!
