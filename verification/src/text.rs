//! Verified text utilities.
//!
//! Decimal formatting and parsing, whitespace tokenisation, line splitting
//! and trimming, all over character vectors, with two trusted bridges
//! between `&str`/`String` and `Vec<char>`.

use vstd::prelude::*;

verus! {

/// The characters treated as blank space by the tokeniser.
pub open spec fn is_space_char(c: char) -> bool {
    c == ' ' || c == '\t' || c == '\r' || c == '\n'
}

/// Exec test for [`is_space_char`].
pub fn is_space(c: char) -> (r: bool)
    ensures
        r == is_space_char(c),
{
    c == ' ' || c == '\t' || c == '\r' || c == '\n'
}

/// The characters of a string, in order.
pub fn str_chars(s: &str) -> (r: Vec<char>)
    ensures
        r@ == s@,
{
    let n = s.unicode_len();
    let mut r: Vec<char> = Vec::new();
    let mut i: usize = 0;
    while i < n
        invariant
            n == s@.len(),
            i <= n,
            r@ == s@.take(i as int),
        decreases n - i,
    {
        r.push(s.get_char(i));
        assert(r@ =~= s@.take(i + 1));
        i = i + 1;
    }
    assert(r@ =~= s@);
    r
}

/// Relies on `String`'s `FromIterator<char>`: collects exactly the given
/// characters into a string.
#[verifier::external_body]
pub fn chars_string(v: &Vec<char>) -> (r: String)
    ensures
        r@ == v@,
{
    v.iter().collect()
}

// ------------------------------------------------------------------
// Decimal digits
// ------------------------------------------------------------------

/// The digit character for a value below ten.
pub open spec fn digit_char(d: int) -> char {
    (d + 48) as char
}

/// Whether `c` is a decimal digit.
pub open spec fn is_digit_char(c: char) -> bool {
    '0' <= c && c <= '9'
}

/// The numeric value of a digit character.
pub open spec fn digit_val(c: char) -> int {
    c as int - 48
}

/// The decimal digits of `n`, most significant first, without padding.
pub open spec fn dec_digits(n: nat) -> Seq<char>
    decreases n,
{
    if n < 10 {
        seq![digit_char(n as int)]
    } else {
        dec_digits(n / 10) + seq![digit_char((n % 10) as int)]
    }
}

/// `k` copies of `c`.
pub open spec fn char_repeat(c: char, k: nat) -> Seq<char> {
    Seq::new(k, |i: int| c)
}

/// The decimal digits of `n`, left-padded with zeros to at least `w` characters.
pub open spec fn padded_dec(n: nat, w: nat) -> Seq<char> {
    if dec_digits(n).len() >= w {
        dec_digits(n)
    } else {
        char_repeat('0', (w - dec_digits(n).len()) as nat) + dec_digits(n)
    }
}

/// The digit character for `d`.
pub fn digit(d: u64) -> (c: char)
    requires
        d < 10,
    ensures
        c == digit_char(d as int),
{
    broadcast use vstd::utf8::char_u32_cast;

    let c: char = match d {
        0 => '0',
        1 => '1',
        2 => '2',
        3 => '3',
        4 => '4',
        5 => '5',
        6 => '6',
        7 => '7',
        8 => '8',
        _ => '9',
    };
    assert(c as u32 == d + 48);
    c
}

/// The numeric value of the digit character `c`.
pub fn digit_value(c: char) -> (r: u32)
    requires
        is_digit_char(c),
    ensures
        r == digit_val(c),
{
    match c {
        '0' => 0,
        '1' => 1,
        '2' => 2,
        '3' => 3,
        '4' => 4,
        '5' => 5,
        '6' => 6,
        '7' => 7,
        '8' => 8,
        _ => 9,
    }
}

/// Appends the decimal digits of `n` to `out`.
pub fn push_dec(out: &mut Vec<char>, n: u64)
    ensures
        final(out)@ == old(out)@ + dec_digits(n as nat),
    decreases n,
{
    if n < 10 {
        out.push(digit(n));
        assert(out@ =~= old(out)@ + dec_digits(n as nat));
    } else {
        push_dec(out, n / 10);
        out.push(digit(n % 10));
        assert(out@ =~= old(out)@ + dec_digits(n as nat));
    }
}

/// The decimal digits of `n` as characters.
pub fn dec_chars(n: u64) -> (r: Vec<char>)
    ensures
        r@ == dec_digits(n as nat),
{
    let mut r: Vec<char> = Vec::new();
    push_dec(&mut r, n);
    assert(r@ =~= dec_digits(n as nat));
    r
}

/// The decimal digits of `n`, zero-padded to at least `w` characters.
pub fn padded_dec_chars(n: u64, w: usize) -> (r: Vec<char>)
    ensures
        r@ == padded_dec(n as nat, w as nat),
{
    let digits = dec_chars(n);
    if digits.len() >= w {
        digits
    } else {
        let pad = w - digits.len();
        let mut r: Vec<char> = Vec::new();
        let mut i: usize = 0;
        while i < pad
            invariant
                i <= pad,
                r@ == char_repeat('0', i as nat),
            decreases pad - i,
        {
            r.push('0');
            assert(r@ =~= char_repeat('0', (i + 1) as nat));
            i = i + 1;
        }
        let mut tail = digits;
        r.append(&mut tail);
        assert(r@ == char_repeat('0', pad as nat) + dec_digits(n as nat));
        r
    }
}

// ------------------------------------------------------------------
// Decimal parsing
// ------------------------------------------------------------------

/// Whether every character of `s` is a decimal digit.
pub open spec fn all_digits(s: Seq<char>) -> bool {
    forall|i: int| 0 <= i < s.len() ==> is_digit_char(#[trigger] s[i])
}

/// The value of `s` read as decimal digits.
pub open spec fn dec_val(s: Seq<char>) -> int
    decreases s.len(),
{
    if s.len() == 0 {
        0
    } else {
        dec_val(s.drop_last()) * 10 + digit_val(s.last())
    }
}

/// A nonempty all-digit sequence denoting a value that fits in `u32`.
pub open spec fn is_u32_token(s: Seq<char>) -> bool {
    s.len() > 0 && all_digits(s) && dec_val(s) <= u32::MAX
}

proof fn lemma_dec_val_nonneg(s: Seq<char>)
    requires
        all_digits(s),
    ensures
        dec_val(s) >= 0,
    decreases s.len(),
{
    if s.len() > 0 {
        assert(is_digit_char(s[s.len() - 1]));
        lemma_dec_val_nonneg(s.drop_last());
    }
}

proof fn lemma_dec_val_take_step(s: Seq<char>, i: int)
    requires
        0 <= i < s.len(),
    ensures
        dec_val(s.take(i + 1)) == dec_val(s.take(i)) * 10 + digit_val(s[i]),
{
    assert(s.take(i + 1).drop_last() =~= s.take(i));
    assert(s.take(i + 1).last() == s[i]);
}

/// Reading a prefix of an all-digit sequence never exceeds reading the whole.
proof fn lemma_dec_val_prefix(s: Seq<char>, i: int)
    requires
        all_digits(s),
        0 <= i <= s.len(),
    ensures
        dec_val(s.take(i)) <= dec_val(s),
    decreases s.len() - i,
{
    if i < s.len() {
        lemma_dec_val_take_step(s, i);
        lemma_dec_val_nonneg(s.take(i));
        assert(is_digit_char(s[i]));
        lemma_dec_val_prefix(s, i + 1);
        assert(s.take(s.len() as int) =~= s);
    } else {
        assert(s.take(i) =~= s);
    }
}

/// Parses `s` as an unsigned decimal number.
///
/// Returns `Some` exactly when `s` is nonempty, all digits, and its value
/// fits in `u32`.
pub fn parse_u32(s: &Vec<char>) -> (r: Option<u32>)
    ensures
        r is Some <==> is_u32_token(s@),
        r matches Some(x) ==> x == dec_val(s@),
{
    if s.len() == 0 {
        return None;
    }
    let mut acc: u32 = 0;
    let mut i: usize = 0;
    while i < s.len()
        invariant
            i <= s@.len(),
            all_digits(s@.take(i as int)),
            acc == dec_val(s@.take(i as int)),
        decreases s@.len() - i,
    {
        let c = s[i];
        if c < '0' || c > '9' {
            assert(!is_digit_char(s@[i as int]));
            return None;
        }
        let cv: u32 = digit_value(c);
        proof {
            lemma_dec_val_take_step(s@, i as int);
            assert(is_digit_char(s@[i as int]));
            assert forall|k: int| 0 <= k < i + 1 implies is_digit_char(
                #[trigger] s@.take(i + 1)[k],
            ) by {
                assert(s@.take(i + 1)[k] == s@[k]);
                if k < i {
                    assert(is_digit_char(s@.take(i as int)[k]));
                }
            }
            assert(all_digits(s@.take(i + 1)));
        }
        let step = match acc.checked_mul(10) {
            Some(m) => m.checked_add(cv),
            None => None,
        };
        match step {
            Some(v) => {
                acc = v;
            },
            None => {
                proof {
                    lemma_dec_val_nonneg(s@.take(i as int));
                    assert(dec_val(s@.take(i + 1)) > u32::MAX);
                    if all_digits(s@) {
                        lemma_dec_val_prefix(s@, i + 1);
                    }
                }
                return None;
            },
        }
        i = i + 1;
    }
    proof {
        assert(s@.take(s@.len() as int) =~= s@);
    }
    Some(acc)
}

/// An optional minus sign followed by a nonempty digit run whose value fits
/// in `i32`.
pub open spec fn is_i32_token(s: Seq<char>) -> bool {
    if s.len() > 0 && s[0] == '-' {
        let d = s.drop_first();
        d.len() > 0 && all_digits(d) && -dec_val(d) >= i32::MIN
    } else {
        s.len() > 0 && all_digits(s) && dec_val(s) <= i32::MAX
    }
}

/// The signed value `s` denotes.
pub open spec fn int_val(s: Seq<char>) -> int {
    if s.len() > 0 && s[0] == '-' {
        -dec_val(s.drop_first())
    } else {
        dec_val(s)
    }
}

/// Parses `s` as a signed decimal number.
///
/// Returns `Some` exactly when `s` is an optional minus sign followed by a
/// nonempty digit run, with a value that fits in `i32`.
pub fn parse_i32(s: &Vec<char>) -> (r: Option<i32>)
    ensures
        r is Some <==> is_i32_token(s@),
        r matches Some(x) ==> x == int_val(s@),
{
    if s.len() == 0 {
        return None;
    }
    if s[0] == '-' {
        let mut digits: Vec<char> = Vec::new();
        let mut i: usize = 1;
        while i < s.len()
            invariant
                1 <= i <= s@.len(),
                s@.len() >= 1,
                digits@ == s@.drop_first().take(i - 1),
            decreases s@.len() - i,
        {
            digits.push(s[i]);
            assert(digits@ =~= s@.drop_first().take(i as int));
            i = i + 1;
        }
        assert(digits@ =~= s@.drop_first());
        match parse_u32(&digits) {
            Some(v) => {
                proof {
                    lemma_dec_val_nonneg(digits@);
                }
                if v <= 0x8000_0000u32 {
                    let r: i32 = if v == 0x8000_0000u32 {
                        i32::MIN
                    } else {
                        -(v as i32)
                    };
                    Some(r)
                } else {
                    None
                }
            },
            None => {
                if digits.len() > 0 {
                    // A digit run too large for `u32` is far below `i32::MIN`
                    // once negated; tell the two reasons for `None` apart.
                    let all = check_all_digits(&digits);
                    if all {
                        proof {
                            lemma_dec_val_nonneg(digits@);
                        }
                        assert(dec_val(digits@) > u32::MAX);
                        None
                    } else {
                        None
                    }
                } else {
                    None
                }
            },
        }
    } else {
        match parse_u32(s) {
            Some(v) => {
                if v <= i32::MAX as u32 {
                    Some(v as i32)
                } else {
                    None
                }
            },
            None => {
                if check_all_digits(s) && s.len() > 0 {
                    proof {
                        lemma_dec_val_nonneg(s@);
                    }
                    assert(dec_val(s@) > u32::MAX);
                }
                None
            },
        }
    }
}

/// Whether every character of `s` is a decimal digit.
pub fn check_all_digits(s: &Vec<char>) -> (r: bool)
    ensures
        r == all_digits(s@),
{
    let mut i: usize = 0;
    while i < s.len()
        invariant
            i <= s@.len(),
            all_digits(s@.take(i as int)),
        decreases s@.len() - i,
    {
        let c = s[i];
        if c < '0' || c > '9' {
            assert(!is_digit_char(s@[i as int]));
            return false;
        }
        proof {
            assert forall|k: int| 0 <= k < i + 1 implies is_digit_char(
                #[trigger] s@.take(i + 1)[k],
            ) by {
                assert(s@.take(i + 1)[k] == s@[k]);
                if k < i {
                    assert(is_digit_char(s@.take(i as int)[k]));
                }
            }
            assert(all_digits(s@.take(i + 1)));
        }
        i = i + 1;
    }
    assert(s@.take(s@.len() as int) =~= s@);
    true
}

// ------------------------------------------------------------------
// Tokenisation on blank space
// ------------------------------------------------------------------

/// The length of the leading run of non-space characters.
pub open spec fn token_len(s: Seq<char>) -> nat
    decreases s.len(),
{
    if s.len() == 0 || is_space_char(s[0]) {
        0
    } else {
        1 + token_len(s.drop_first())
    }
}

/// The space-separated tokens of `s`, in order.
pub open spec fn tokens(s: Seq<char>) -> Seq<Seq<char>>
    decreases s.len(),
{
    if s.len() == 0 {
        Seq::empty()
    } else if is_space_char(s[0]) {
        tokens(s.drop_first())
    } else {
        let k = if token_len(s) <= s.len() {
            token_len(s) as int
        } else {
            s.len() as int
        };
        seq![s.take(k)] + tokens(s.skip(k))
    }
}

proof fn lemma_token_len_bound(s: Seq<char>)
    ensures
        token_len(s) <= s.len(),
    decreases s.len(),
{
    if s.len() > 0 && !is_space_char(s[0]) {
        lemma_token_len_bound(s.drop_first());
    }
}

/// The end of the token starting at `i` (exclusive), scanning `v` from `i`.
fn token_end(v: &Vec<char>, i: usize) -> (e: usize)
    requires
        i <= v@.len(),
    ensures
        i <= e <= v@.len(),
        e - i == token_len(v@.skip(i as int)),
    decreases v@.len() - i,
{
    if i == v.len() {
        proof {
            assert(v@.skip(i as int) =~= Seq::<char>::empty());
        }
        i
    } else if is_space(v[i]) {
        assert(v@.skip(i as int)[0] == v@[i as int]);
        i
    } else {
        assert(v@.skip(i as int)[0] == v@[i as int]);
        let e = token_end(v, i + 1);
        proof {
            assert(v@.skip(i as int).drop_first() =~= v@.skip(i + 1));
        }
        e
    }
}

/// Copies `v[from..to]` into a fresh vector.
pub fn copy_range(v: &Vec<char>, from: usize, to: usize) -> (r: Vec<char>)
    requires
        from <= to <= v@.len(),
    ensures
        r@ == v@.subrange(from as int, to as int),
{
    let mut r: Vec<char> = Vec::new();
    let mut i: usize = from;
    while i < to
        invariant
            from <= i <= to <= v@.len(),
            r@ == v@.subrange(from as int, i as int),
        decreases to - i,
    {
        r.push(v[i]);
        assert(r@ =~= v@.subrange(from as int, i + 1));
        i = i + 1;
    }
    r
}

/// The space-separated tokens of `v` from position `i` on.
fn split_tokens_from(v: &Vec<char>, i: usize) -> (r: Vec<Vec<char>>)
    requires
        i <= v@.len(),
    ensures
        r.deep_view() == tokens(v@.skip(i as int)),
    decreases v@.len() - i,
{
    if i == v.len() {
        let r: Vec<Vec<char>> = Vec::new();
        proof {
            assert(v@.skip(i as int) =~= Seq::<char>::empty());
            assert(r.deep_view() =~~= tokens(v@.skip(i as int)));
        }
        r
    } else if is_space(v[i]) {
        assert(v@.skip(i as int)[0] == v@[i as int]);
        let r = split_tokens_from(v, i + 1);
        proof {
            assert(v@.skip(i as int).drop_first() =~= v@.skip(i + 1));
        }
        r
    } else {
        assert(v@.skip(i as int)[0] == v@[i as int]);
        let e = token_end(v, i);
        proof {
            lemma_token_len_bound(v@.skip(i as int));
        }
        let tok = copy_range(v, i, e);
        let rest = split_tokens_from(v, e);
        let mut r: Vec<Vec<char>> = Vec::new();
        r.push(tok);
        let mut tail = rest;
        r.append(&mut tail);
        proof {
            let s = v@.skip(i as int);
            assert(tok@ =~= s.take(token_len(s) as int));
            assert(v@.skip(i as int).skip(token_len(s) as int) =~= v@.skip(e as int));
            assert(r.deep_view() =~~= seq![s.take(token_len(s) as int)] + tokens(
                s.skip(token_len(s) as int),
            ));
        }
        r
    }
}

/// The space-separated tokens of `v`.
pub fn split_tokens(v: &Vec<char>) -> (r: Vec<Vec<char>>)
    ensures
        r.deep_view() == tokens(v@),
{
    let r = split_tokens_from(v, 0);
    proof {
        assert(v@.skip(0) =~= v@);
    }
    r
}

// ------------------------------------------------------------------
// Splitting on a separator character
// ------------------------------------------------------------------

/// The length of the leading run free of the separator `sep`.
pub open spec fn piece_len(s: Seq<char>, sep: char) -> nat
    decreases s.len(),
{
    if s.len() == 0 || s[0] == sep {
        0
    } else {
        1 + piece_len(s.drop_first(), sep)
    }
}

/// `s` split at every occurrence of `sep`: `n` separators give `n + 1` pieces.
pub open spec fn split_at_char(s: Seq<char>, sep: char) -> Seq<Seq<char>>
    decreases s.len(),
{
    let k = if piece_len(s, sep) <= s.len() {
        piece_len(s, sep) as int
    } else {
        s.len() as int
    };
    if k == s.len() {
        seq![s]
    } else {
        seq![s.take(k)] + split_at_char(s.skip(k + 1), sep)
    }
}

proof fn lemma_piece_len_bound(s: Seq<char>, sep: char)
    ensures
        piece_len(s, sep) <= s.len(),
        piece_len(s, sep) < s.len() ==> s[piece_len(s, sep) as int] == sep,
    decreases s.len(),
{
    if s.len() > 0 && s[0] != sep {
        lemma_piece_len_bound(s.drop_first(), sep);
    }
}

/// The end of the piece starting at `i` (exclusive), scanning `v` from `i`.
pub fn piece_end(v: &Vec<char>, i: usize, sep: char) -> (e: usize)
    requires
        i <= v@.len(),
    ensures
        i <= e <= v@.len(),
        e - i == piece_len(v@.skip(i as int), sep),
    decreases v@.len() - i,
{
    if i == v.len() {
        proof {
            assert(v@.skip(i as int) =~= Seq::<char>::empty());
        }
        i
    } else if v[i] == sep {
        assert(v@.skip(i as int)[0] == v@[i as int]);
        i
    } else {
        assert(v@.skip(i as int)[0] == v@[i as int]);
        let e = piece_end(v, i + 1, sep);
        proof {
            assert(v@.skip(i as int).drop_first() =~= v@.skip(i + 1));
        }
        e
    }
}

fn split_char_from(v: &Vec<char>, i: usize, sep: char) -> (r: Vec<Vec<char>>)
    requires
        i <= v@.len(),
    ensures
        r.deep_view() == split_at_char(v@.skip(i as int), sep),
    decreases v@.len() - i,
{
    let e = piece_end(v, i, sep);
    let piece = copy_range(v, i, e);
    let s = Ghost(v@.skip(i as int));
    proof {
        lemma_piece_len_bound(s@, sep);
        assert(piece@ =~= s@.take(piece_len(s@, sep) as int));
    }
    if e == v.len() {
        let mut r: Vec<Vec<char>> = Vec::new();
        r.push(piece);
        proof {
            assert(piece@ =~= s@);
            assert(r.deep_view() =~~= seq![s@]);
        }
        r
    } else {
        let rest = split_char_from(v, e + 1, sep);
        let mut r: Vec<Vec<char>> = Vec::new();
        r.push(piece);
        let mut tail = rest;
        r.append(&mut tail);
        proof {
            let k = piece_len(s@, sep) as int;
            assert(s@.skip(k + 1) =~= v@.skip(e + 1));
            assert(r.deep_view() =~~= seq![s@.take(k)] + split_at_char(s@.skip(k + 1), sep));
        }
        r
    }
}

/// `v` split at every occurrence of `sep`.
pub fn split_char(v: &Vec<char>, sep: char) -> (r: Vec<Vec<char>>)
    ensures
        r.deep_view() == split_at_char(v@, sep),
{
    let r = split_char_from(v, 0, sep);
    proof {
        assert(v@.skip(0) =~= v@);
    }
    r
}

// ------------------------------------------------------------------
// Trimming
// ------------------------------------------------------------------

/// The length of the leading run of space characters.
pub open spec fn leading_spaces(s: Seq<char>) -> nat
    decreases s.len(),
{
    if s.len() == 0 || !is_space_char(s[0]) {
        0
    } else {
        1 + leading_spaces(s.drop_first())
    }
}

/// `s` without leading and trailing blank space.
pub open spec fn trim_spec(s: Seq<char>) -> Seq<char>
    decreases s.len(),
{
    if s.len() == 0 {
        s
    } else if is_space_char(s[0]) {
        trim_spec(s.drop_first())
    } else if is_space_char(s.last()) {
        trim_spec(s.drop_last())
    } else {
        s
    }
}

/// `v` without leading and trailing blank space.
pub fn trim(v: &Vec<char>) -> (r: Vec<char>)
    ensures
        r@ == trim_spec(v@),
    decreases v@.len(),
{
    if v.len() == 0 {
        Vec::new()
    } else if is_space(v[0]) {
        let rest = copy_range(v, 1, v.len());
        proof {
            assert(rest@ =~= v@.drop_first());
        }
        trim(&rest)
    } else if is_space(v[v.len() - 1]) {
        let rest = copy_range(v, 0, v.len() - 1);
        proof {
            assert(rest@ =~= v@.drop_last());
        }
        trim(&rest)
    } else {
        let r = copy_range(v, 0, v.len());
        proof {
            assert(r@ =~= v@);
        }
        r
    }
}

// ------------------------------------------------------------------
// Pattern search and replacement
// ------------------------------------------------------------------

/// Whether `pat` occurs in `s` at position `i`.
pub open spec fn matches_at(s: Seq<char>, i: int, pat: Seq<char>) -> bool {
    0 <= i && i + pat.len() <= s.len() && s.subrange(i, i + pat.len()) == pat
}

/// Exec test for [`matches_at`].
pub fn check_match_at(v: &Vec<char>, i: usize, pat: &Vec<char>) -> (r: bool)
    requires
        i <= v@.len(),
    ensures
        r == matches_at(v@, i as int, pat@),
{
    if v.len() - i < pat.len() {
        return false;
    }
    let mut j: usize = 0;
    while j < pat.len()
        invariant
            j <= pat@.len(),
            i + pat@.len() <= v@.len(),
            v@.subrange(i as int, i + j) =~= pat@.take(j as int),
        decreases pat@.len() - j,
    {
        let n = v.len();
        assert(i + j < n);
        if v[i + j] != pat[j] {
            assert(v@.subrange(i as int, i + pat@.len())[j as int] == v@[i + j]);
            return false;
        }
        assert(v@.subrange(i as int, i + j + 1) =~= pat@.take(j + 1));
        j = j + 1;
    }
    proof {
        assert(v@.subrange(i as int, i + pat@.len()) =~= pat@);
    }
    true
}

/// `s` with every occurrence of `pat` replaced by `rep`, scanning left to
/// right without overlap.
pub open spec fn replace_spec(s: Seq<char>, pat: Seq<char>, rep: Seq<char>) -> Seq<char>
    recommends
        pat.len() > 0,
    decreases s.len(),
{
    if s.len() == 0 {
        s
    } else if pat.len() > 0 && matches_at(s, 0, pat) {
        rep + replace_spec(s.skip(pat.len() as int), pat, rep)
    } else {
        seq![s[0]] + replace_spec(s.drop_first(), pat, rep)
    }
}

fn replace_from(v: &Vec<char>, i: usize, pat: &Vec<char>, rep: &Vec<char>) -> (r: Vec<char>)
    requires
        i <= v@.len(),
        pat@.len() > 0,
    ensures
        r@ == replace_spec(v@.skip(i as int), pat@, rep@),
    decreases v@.len() - i,
{
    let s = Ghost(v@.skip(i as int));
    if i == v.len() {
        proof {
            assert(s@ =~= Seq::<char>::empty());
        }
        Vec::new()
    } else if check_match_at(v, i, pat) {
        proof {
            assert(s@.subrange(0, pat@.len() as int) =~= v@.subrange(
                i as int,
                i + pat@.len(),
            ));
            assert(matches_at(s@, 0, pat@));
        }
        let mut r = copy_range(rep, 0, rep.len());
        let mut tail = replace_from(v, i + pat.len(), pat, rep);
        r.append(&mut tail);
        proof {
            assert(r@.subrange(0, rep@.len() as int) =~= rep@);
            assert(s@.skip(pat@.len() as int) =~= v@.skip(i + pat@.len()));
            assert(r@ =~= rep@ + replace_spec(s@.skip(pat@.len() as int), pat@, rep@));
        }
        r
    } else {
        proof {
            if matches_at(s@, 0, pat@) {
                assert(v@.subrange(i as int, i + pat@.len()) =~= s@.subrange(
                    0,
                    pat@.len() as int,
                ));
            }
        }
        let mut r: Vec<char> = Vec::new();
        r.push(v[i]);
        let mut tail = replace_from(v, i + 1, pat, rep);
        r.append(&mut tail);
        proof {
            assert(s@[0] == v@[i as int]);
            assert(s@.drop_first() =~= v@.skip(i + 1));
            assert(r@ =~= seq![s@[0]] + replace_spec(s@.drop_first(), pat@, rep@));
        }
        r
    }
}

/// `v` with every occurrence of `pat` replaced by `rep`.
pub fn replace_all(v: &Vec<char>, pat: &Vec<char>, rep: &Vec<char>) -> (r: Vec<char>)
    requires
        pat@.len() > 0,
    ensures
        r@ == replace_spec(v@, pat@, rep@),
{
    let r = replace_from(v, 0, pat, rep);
    proof {
        assert(v@.skip(0) =~= v@);
    }
    r
}

/// Whether `s` ends with `suffix`.
pub open spec fn ends_with(s: Seq<char>, suffix: Seq<char>) -> bool {
    s.len() >= suffix.len() && s.skip(s.len() - suffix.len()) == suffix
}

/// Exec test for [`ends_with`].
pub fn check_ends_with(v: &Vec<char>, suffix: &Vec<char>) -> (r: bool)
    ensures
        r == ends_with(v@, suffix@),
{
    if v.len() < suffix.len() {
        return false;
    }
    let start = v.len() - suffix.len();
    let r = check_match_at(v, start, suffix);
    proof {
        assert(v@.subrange(start as int, start + suffix@.len()) =~= v@.skip(
            v@.len() - suffix@.len(),
        ));
    }
    r
}


// ------------------------------------------------------------------
// Numeric tokens
// ------------------------------------------------------------------

/// `s` without one leading sign character.
pub open spec fn strip_sign(s: Seq<char>) -> Seq<char> {
    if s.len() > 0 && (s[0] == '+' || s[0] == '-') {
        s.drop_first()
    } else {
        s
    }
}

/// A nonempty run of decimal digits.
pub open spec fn is_digit_run(s: Seq<char>) -> bool {
    s.len() > 0 && all_digits(s)
}

/// The position of the first exponent marker, or the length.
pub open spec fn exp_pos(s: Seq<char>) -> nat
    decreases s.len(),
{
    if s.len() == 0 || s[0] == 'e' || s[0] == 'E' {
        0
    } else {
        1 + exp_pos(s.drop_first())
    }
}

/// A significand: an optional sign, then digits with at most one point and
/// at least one digit somewhere — `.5` and `5.` both qualify.
pub open spec fn is_mantissa(s: Seq<char>) -> bool {
    let m = strip_sign(s);
    let d = piece_len(m, '.') as int;
    if d == m.len() {
        is_digit_run(m)
    } else {
        all_digits(m.take(d)) && all_digits(m.skip(d + 1)) && m.len() > 1
    }
}

/// An exponent: an optional sign, then a digit run.
pub open spec fn is_exponent(s: Seq<char>) -> bool {
    is_digit_run(strip_sign(s))
}

/// A decimal floating-point token: a significand, optionally followed by an
/// exponent marker and an exponent.
pub open spec fn is_numeric_token(s: Seq<char>) -> bool {
    let k = exp_pos(s) as int;
    if k == s.len() {
        is_mantissa(s)
    } else {
        is_mantissa(s.take(k)) && is_exponent(s.skip(k + 1))
    }
}

fn exp_end(v: &Vec<char>, i: usize) -> (e: usize)
    requires
        i <= v@.len(),
    ensures
        i <= e <= v@.len(),
        e - i == exp_pos(v@.skip(i as int)),
    decreases v@.len() - i,
{
    if i == v.len() {
        proof {
            assert(v@.skip(i as int) =~= Seq::<char>::empty());
        }
        i
    } else if v[i] == 'e' || v[i] == 'E' {
        assert(v@.skip(i as int)[0] == v@[i as int]);
        i
    } else {
        assert(v@.skip(i as int)[0] == v@[i as int]);
        let e = exp_end(v, i + 1);
        proof {
            assert(v@.skip(i as int).drop_first() =~= v@.skip(i + 1));
        }
        e
    }
}

/// Whether `v` holds a significand.
fn check_mantissa(v: &Vec<char>) -> (r: bool)
    ensures
        r == is_mantissa(v@),
{
    let lo: usize = if v.len() > 0 && (v[0] == '+' || v[0] == '-') {
        1
    } else {
        0
    };
    let m = copy_range(v, lo, v.len());
    proof {
        if lo == 1 {
            assert(m@ =~= v@.drop_first());
        } else {
            assert(m@ =~= v@);
        }
    }
    let d = piece_end(&m, 0, '.');
    proof {
        assert(m@.skip(0) =~= m@);
    }
    if d == m.len() {
        let r = check_all_digits(&m);
        r && m.len() > 0
    } else {
        let before = copy_range(&m, 0, d);
        let after = copy_range(&m, d + 1, m.len());
        proof {
            assert(before@ =~= m@.take(d as int));
            assert(after@ =~= m@.skip(d as int + 1));
        }
        let rb = check_all_digits(&before);
        let ra = check_all_digits(&after);
        rb && ra && m.len() > 1
    }
}

/// Whether `v` holds a decimal floating-point token.
pub fn check_numeric_token(v: &Vec<char>) -> (r: bool)
    ensures
        r == is_numeric_token(v@),
{
    let k = exp_end(v, 0);
    proof {
        assert(v@.skip(0) =~= v@);
    }
    if k == v.len() {
        check_mantissa(v)
    } else {
        let mant = copy_range(v, 0, k);
        let exp = copy_range(v, k + 1, v.len());
        proof {
            assert(mant@ =~= v@.take(k as int));
            assert(exp@ =~= v@.skip(k as int + 1));
        }
        let rm = check_mantissa(&mant);
        let re = if exp.len() > 0 && (exp[0] == '+' || exp[0] == '-') {
            let run = copy_range(&exp, 1, exp.len());
            proof {
                assert(run@ =~= exp@.drop_first());
            }
            let rr = check_all_digits(&run);
            rr && run.len() > 0
        } else {
            proof {
                assert(strip_sign(exp@) =~= exp@);
            }
            let rr = check_all_digits(&exp);
            rr && exp.len() > 0
        };
        rm && re
    }
}



/// A short digit run reads as a small value: at most four digits stay below
/// ten thousand.
pub proof fn lemma_dec_val_small(s: Seq<char>)
    requires
        all_digits(s),
        s.len() <= 4,
    ensures
        0 <= dec_val(s) <= 9999,
    decreases s.len(),
{
    if s.len() == 0 {
    } else {
        assert(is_digit_char(s.last()));
        lemma_dec_val_small_aux(s);
    }
}

proof fn lemma_dec_val_small_aux(s: Seq<char>)
    requires
        all_digits(s),
        s.len() <= 4,
    ensures
        dec_val(s) <= if s.len() == 0 {
            0int
        } else if s.len() == 1 {
            9int
        } else if s.len() == 2 {
            99int
        } else if s.len() == 3 {
            999int
        } else {
            9999int
        },
        dec_val(s) >= 0,
    decreases s.len(),
{
    if s.len() > 0 {
        assert(is_digit_char(s.last()));
        assert(all_digits(s.drop_last()));
        lemma_dec_val_small_aux(s.drop_last());
    }
}

/// Reads an all-digit token whose value is known to fit.
pub fn parse_u32_digits(s: &Vec<char>) -> (r: u32)
    requires
        is_u32_token(s@),
    ensures
        r == dec_val(s@),
{
    parse_u32(s).unwrap()
}

/// Whether two strings hold the same characters.
pub fn str_eq(a: &str, b: &str) -> (r: bool)
    ensures
        r == (a@ == b@),
{
    let av = str_chars(a);
    let bv = str_chars(b);
    if av.len() != bv.len() {
        return false;
    }
    let mut i: usize = 0;
    while i < av.len()
        invariant
            i <= av@.len(),
            av@.len() == bv@.len(),
            av@ == a@,
            bv@ == b@,
            forall|j: int| 0 <= j < i ==> av@[j] == bv@[j],
        decreases av@.len() - i,
    {
        if av[i] != bv[i] {
            return false;
        }
        i = i + 1;
    }
    proof {
        assert(a@ =~= b@);
    }
    true
}

/// Relies on `core::str::from_utf8`: decodes exactly the valid UTF-8 byte
/// streams, to the characters the bytes encode.
#[verifier::external_body]
pub fn utf8_chars(b: &[u8]) -> (r: Option<Vec<char>>)
    ensures
        r is Some <==> vstd::utf8::valid_utf8(b@),
        r matches Some(v) ==> v@ == vstd::utf8::decode_utf8(b@),
{
    core::str::from_utf8(b).ok().map(|s| s.chars().collect())
}

} // verus!
