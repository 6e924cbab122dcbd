//! Character classes and string building blocks shared by the whole crate.

use vstd::prelude::*;
use vstd::string::StrSliceExecFns;
use vstd::string::StringExecFns;

verus! {

/// `c` is an ASCII letter or digit.
pub open spec fn is_ascii_alnum(c: char) -> bool {
    ('a' <= c && c <= 'z') || ('A' <= c && c <= 'Z') || ('0' <= c && c <= '9')
}

/// `c` is a Unicode `White_Space` character (the set `char::is_whitespace` uses).
pub open spec fn is_white(c: char) -> bool {
    ||| ('\u{9}' <= c && c <= '\u{d}')
    ||| c == ' '
    ||| c == '\u{85}'
    ||| c == '\u{a0}'
    ||| c == '\u{1680}'
    ||| ('\u{2000}' <= c && c <= '\u{200a}')
    ||| c == '\u{2028}'
    ||| c == '\u{2029}'
    ||| c == '\u{202f}'
    ||| c == '\u{205f}'
    ||| c == '\u{3000}'
}

pub fn ascii_alnum(c: char) -> (r: bool)
    ensures
        r == is_ascii_alnum(c),
{
    ('a' <= c && c <= 'z') || ('A' <= c && c <= 'Z') || ('0' <= c && c <= '9')
}

pub fn white(c: char) -> (r: bool)
    ensures
        r == is_white(c),
{
    ('\u{9}' <= c && c <= '\u{d}') || c == ' ' || c == '\u{85}' || c == '\u{a0}' || c == '\u{1680}'
        || ('\u{2000}' <= c && c <= '\u{200a}') || c == '\u{2028}' || c == '\u{2029}'
        || c == '\u{202f}' || c == '\u{205f}' || c == '\u{3000}'
}

/// `String::push`: the string afterwards is the one before with `c` appended.
#[verifier::external_body]
pub(crate) fn push_char(s: &mut String, c: char)
    ensures
        final(s)@ == old(s)@.push(c),
{
    s.push(c)
}

/// The characters of `s`, collected into a vector.
pub fn chars_of(s: &str) -> (r: Vec<char>)
    ensures
        r@ == s@,
{
    let n = s.unicode_len();
    let mut out: Vec<char> = Vec::new();
    let mut i: usize = 0;
    while i < n
        invariant
            n == s@.len(),
            i <= n,
            out@ == s@.subrange(0, i as int),
        decreases n - i,
    {
        out.push(s.get_char(i));
        i = i + 1;
    }
    out
}


/// The characters of `s` from `from` (inclusive) to `to` (exclusive), as a string.
pub fn string_of(chars: &Vec<char>, from: usize, to: usize) -> (r: String)
    requires
        from <= to <= chars@.len(),
    ensures
        r@ == chars@.subrange(from as int, to as int),
{
    let mut out = String::new();
    let mut i = from;
    while i < to
        invariant
            from <= i <= to,
            to <= chars@.len(),
            out@ == chars@.subrange(from as int, i as int),
        decreases to - i,
    {
        push_char(&mut out, chars[i]);
        i = i + 1;
    }
    out
}

/// Appends every character of `t` to `s`.
pub fn push_str(s: &mut String, t: &str)
    ensures
        final(s)@ == old(s)@ + t@,
{
    s.append(t);
}

/// The ASCII digit for `d` < 10.
pub open spec fn digit_char(d: nat) -> char {
    if d == 0 { '0' } else if d == 1 { '1' } else if d == 2 { '2' } else if d == 3 { '3' }
    else if d == 4 { '4' } else if d == 5 { '5' } else if d == 6 { '6' } else if d == 7 { '7' }
    else if d == 8 { '8' } else { '9' }
}

/// The value of an ASCII digit.
pub open spec fn digit_value(c: char) -> nat {
    if c == '0' { 0 } else if c == '1' { 1 } else if c == '2' { 2 } else if c == '3' { 3 }
    else if c == '4' { 4 } else if c == '5' { 5 } else if c == '6' { 6 } else if c == '7' { 7 }
    else if c == '8' { 8 } else { 9 }
}

pub fn digit(d: u64) -> (c: char)
    requires
        d < 10,
    ensures
        c == digit_char(d as nat),
{
    if d == 0 { '0' } else if d == 1 { '1' } else if d == 2 { '2' } else if d == 3 { '3' }
    else if d == 4 { '4' } else if d == 5 { '5' } else if d == 6 { '6' } else if d == 7 { '7' }
    else if d == 8 { '8' } else { '9' }
}

/// The decimal representation of `n`, without sign or leading zeros.
pub open spec fn decimal(n: nat) -> Seq<char>
    decreases n,
{
    if n < 10 { seq![digit_char(n)] } else { decimal(n / 10).push(digit_char(n % 10)) }
}

/// `n` written with at least `width` digits, zero-padded on the left.
pub open spec fn zero_padded(n: nat, width: nat) -> Seq<char> {
    let d = decimal(n);
    if d.len() >= width { d } else { Seq::new((width - d.len()) as nat, |i: int| '0') + d }
}

/// Appends the decimal representation of `n`.
pub fn push_decimal(s: &mut String, n: u64)
    ensures
        final(s)@ == old(s)@ + decimal(n as nat),
    decreases n,
{
    if n >= 10 {
        push_decimal(s, n / 10);
    }
    push_char(s, digit(n % 10));
}

/// The decimal representation of `n`.
pub fn decimal_string(n: u64) -> (r: String)
    ensures
        r@ == decimal(n as nat),
{
    let mut s = String::new();
    push_decimal(&mut s, n);
    s
}

proof fn lemma_decimal_len(n: nat)
    ensures
        decimal(n).len() >= 1,
        n < 10 ==> decimal(n).len() == 1,
    decreases n,
{
    if n >= 10 {
        lemma_decimal_len(n / 10);
    }
}

/// Appends `n` zero-padded to `width` digits.
pub fn push_zero_padded(s: &mut String, n: u64, width: usize)
    ensures
        final(s)@ == old(s)@ + zero_padded(n as nat, width as nat),
{
    let d = decimal_string(n);
    let len = d.as_str().unicode_len();
    if len < width {
        let mut k: usize = 0;
        while k < width - len
            invariant
                len < width,
                k <= width - len,
                s@ == old(s)@ + Seq::new(k as nat, |i: int| '0'),
            decreases width - len - k,
        {
            push_char(s, '0');
            k = k + 1;
            assert(s@ =~= old(s)@ + Seq::new(k as nat, |i: int| '0'));
        }
    }
    let ghost mid = s@;
    push_str(s, d.as_str());
    assert(s@ =~= old(s)@ + zero_padded(n as nat, width as nat));
}

/// The text of a boolean, as `bool::to_string` writes it.
pub open spec fn bool_text(b: bool) -> Seq<char> {
    if b { "true"@ } else { "false"@ }
}

pub fn bool_string(b: bool) -> (r: String)
    ensures
        r@ == bool_text(b),
{
    if b { String::from_str("true") } else { String::from_str("false") }
}

/// The value of a string of ASCII digits.
pub open spec fn digits_value(s: Seq<char>) -> nat
    decreases s.len(),
{
    if s.len() == 0 { 0 } else { digits_value(s.drop_last()) * 10 + digit_value(s.last()) }
}

pub open spec fn is_digit(c: char) -> bool {
    '0' <= c && c <= '9'
}

proof fn lemma_decimal_value(n: nat)
    ensures
        digits_value(decimal(n)) == n,
        forall|i: int| 0 <= i < decimal(n).len() ==> is_digit(#[trigger] decimal(n)[i]),
    decreases n,
{
    if n >= 10 {
        lemma_decimal_value(n / 10);
        let d = decimal(n / 10);
        assert(decimal(n).drop_last() == d);
        assert(decimal(n).last() == digit_char(n % 10));
        assert(digit_value(digit_char(n % 10)) == n % 10);
        assert(digits_value(decimal(n)) == digits_value(d) * 10 + n % 10);
        assert(digits_value(d) == n / 10);
        assert((n / 10) * 10 + n % 10 == n);
    } else {
        assert(decimal(n).drop_last() =~= Seq::<char>::empty());
        assert(digit_value(digit_char(n)) == n);
        assert(digits_value(decimal(n)) == digits_value(decimal(n).drop_last()) * 10 + digit_value(decimal(n).last()));
        assert(digits_value(Seq::<char>::empty()) == 0);
    }
}

/// Distinct numbers have distinct decimal representations.
pub proof fn lemma_decimal_injective(a: nat, b: nat)
    requires
        decimal(a) == decimal(b),
    ensures
        a == b,
{
    lemma_decimal_value(a);
    lemma_decimal_value(b);
}


/// `s` begins with `p`.
pub open spec fn starts_with(s: Seq<char>, p: Seq<char>) -> bool {
    p.len() <= s.len() && s.subrange(0, p.len() as int) == p
}

/// `s` ends with `p`.
pub open spec fn ends_with(s: Seq<char>, p: Seq<char>) -> bool {
    p.len() <= s.len() && s.subrange(s.len() - p.len(), s.len() as int) == p
}

/// `p` occurs in `s` starting at index `i`.
pub open spec fn occurs_at(s: Seq<char>, p: Seq<char>, i: int) -> bool {
    0 <= i && i + p.len() <= s.len() && s.subrange(i, i + p.len()) == p
}

/// The first index at or after `i` where `p` occurs in `s`, or -1.
pub open spec fn find_from(s: Seq<char>, p: Seq<char>, i: int) -> int
    decreases s.len() + 1 - i,
{
    if i < 0 || i + p.len() > s.len() {
        -1
    } else if occurs_at(s, p, i) {
        i
    } else {
        find_from(s, p, i + 1)
    }
}

/// The first index where `p` occurs in `s`, or -1.
pub open spec fn find(s: Seq<char>, p: Seq<char>) -> int {
    find_from(s, p, 0)
}

/// The last index at or before `i` where `p` occurs in `s`, or -1.
pub open spec fn rfind_upto(s: Seq<char>, p: Seq<char>, i: int) -> int
    decreases i + 1,
{
    if i < 0 {
        -1
    } else if occurs_at(s, p, i) {
        i
    } else {
        rfind_upto(s, p, i - 1)
    }
}

/// The last index where `p` occurs in `s`, or -1.
pub open spec fn rfind(s: Seq<char>, p: Seq<char>) -> int {
    rfind_upto(s, p, s.len() - p.len())
}

/// `p` occurs somewhere in `s`.
pub open spec fn contains(s: Seq<char>, p: Seq<char>) -> bool {
    find(s, p) >= 0
}

/// `s` without its leading white space.
pub open spec fn trim_start(s: Seq<char>) -> Seq<char>
    decreases s.len(),
{
    if s.len() > 0 && is_white(s[0]) { trim_start(s.drop_first()) } else { s }
}

/// `s` without its trailing white space.
pub open spec fn trim_end(s: Seq<char>) -> Seq<char>
    decreases s.len(),
{
    if s.len() > 0 && is_white(s.last()) { trim_end(s.drop_last()) } else { s }
}

/// `s` without leading and trailing white space.
pub open spec fn trim(s: Seq<char>) -> Seq<char> {
    trim_end(trim_start(s))
}

/// `s` without any leading `c`.
pub open spec fn trim_start_char(s: Seq<char>, c: char) -> Seq<char>
    decreases s.len(),
{
    if s.len() > 0 && s[0] == c { trim_start_char(s.drop_first(), c) } else { s }
}

/// `s` without any trailing `c`.
pub open spec fn trim_end_char(s: Seq<char>, c: char) -> Seq<char>
    decreases s.len(),
{
    if s.len() > 0 && s.last() == c { trim_end_char(s.drop_last(), c) } else { s }
}

/// `s` without one trailing carriage return.
pub open spec fn strip_cr(s: Seq<char>) -> Seq<char> {
    if s.len() > 0 && s.last() == '\r' { s.drop_last() } else { s }
}

/// Where `find_from` lands: nowhere, or on an occurrence inside `s`.
pub proof fn lemma_find_bounds(s: Seq<char>, p: Seq<char>, i: int)
    ensures
        find_from(s, p, i) == -1
            || (0 <= i <= find_from(s, p, i) && find_from(s, p, i) + p.len() <= s.len()
                && occurs_at(s, p, find_from(s, p, i))),
    decreases s.len() + 1 - i,
{
    if i < 0 || i + p.len() > s.len() {
    } else if !occurs_at(s, p, i) {
        lemma_find_bounds(s, p, i + 1);
    }
}

/// Where `rfind_upto` lands: nowhere, or on an occurrence inside `s`.
pub proof fn lemma_rfind_bounds(s: Seq<char>, p: Seq<char>, i: int)
    ensures
        rfind_upto(s, p, i) == -1
            || (0 <= rfind_upto(s, p, i) <= i && occurs_at(s, p, rfind_upto(s, p, i))
                && rfind_upto(s, p, i) + p.len() <= s.len()),
    decreases i + 1,
{
    if i >= 0 && !occurs_at(s, p, i) {
        lemma_rfind_bounds(s, p, i - 1);
    }
}

/// The lines of `s` as `str::lines` yields them: split at each line feed,
/// a final empty line after a trailing line feed dropped, and one trailing
/// carriage return removed from each line.
pub open spec fn lines(s: Seq<char>) -> Seq<Seq<char>>
    decreases s.len(),
{
    if s.len() == 0 {
        seq![]
    } else {
        let i = find(s, seq!['\n']);
        proof { lemma_find_bounds(s, seq!['\n'], 0); }
        if i < 0 {
            seq![strip_cr(s)]
        } else {
            seq![strip_cr(s.subrange(0, i))] + lines(s.subrange(i + 1, s.len() as int))
        }
    }
}

/// `p` matches `chars` at `i` (character-wise comparison with a literal).
pub fn matches_at(chars: &Vec<char>, p: &Vec<char>, i: usize) -> (r: bool)
    requires
        i <= chars@.len(),
    ensures
        r == occurs_at(chars@, p@, i as int),
{
    let n = chars.len();
    let m = p.len();
    if m > n - i {
        return false;
    }
    let mut k: usize = 0;
    while k < m
        invariant
            n == chars@.len(),
            m == p@.len(),
            i + m <= n,
            k <= m,
            forall|t: int| 0 <= t < k ==> chars@[i + t] == p@[t],
        decreases m - k,
    {
        if chars[i + k] != p[k] {
            assert(chars@.subrange(i as int, i + p@.len())[k as int] != p@[k as int]);
            return false;
        }
        k = k + 1;
    }
    assert(chars@.subrange(i as int, i + p@.len()) =~= p@);
    true
}

/// First index at or after `from` where `p` occurs in `chars`, or `None`.
pub fn find_in(chars: &Vec<char>, p: &Vec<char>, from: usize) -> (r: Option<usize>)
    requires
        from <= chars@.len(),
    ensures
        match r {
            Some(i) => i as int == find_from(chars@, p@, from as int),
            None => find_from(chars@, p@, from as int) == -1,
        },
{
    let n = chars.len();
    let m = p.len();
    if m == 0 {
        assert(chars@.subrange(from as int, from as int) =~= p@);
        return Some(from);
    }
    let mut i = from;
    while m <= n - i
        invariant
            n == chars@.len(),
            m == p@.len(),
            m >= 1,
            from <= i <= n,
            find_from(chars@, p@, from as int) == find_from(chars@, p@, i as int),
        decreases n - i,
    {
        if matches_at(chars, p, i) {
            return Some(i);
        }
        i = i + 1;
    }
    assert(find_from(chars@, p@, i as int) == -1);
    None
}

/// Last index where `p` occurs in `chars`, or `None`.
pub fn rfind_in(chars: &Vec<char>, p: &Vec<char>) -> (r: Option<usize>)
    ensures
        match r {
            Some(i) => i as int == rfind(chars@, p@),
            None => rfind(chars@, p@) == -1,
        },
{
    if p.len() > chars.len() {
        return None;
    }
    let mut i = chars.len() - p.len();
    loop
        invariant
            i + p@.len() <= chars@.len(),
            rfind(chars@, p@) == rfind_upto(chars@, p@, i as int),
        decreases i,
    {
        if matches_at(chars, p, i) {
            return Some(i);
        }
        if i == 0 {
            assert(rfind_upto(chars@, p@, -1) == -1);
            return None;
        }
        i = i - 1;
    }
}

/// The characters of a literal or any string slice.
pub fn lit(s: &str) -> (r: Vec<char>)
    ensures
        r@ == s@,
{
    chars_of(s)
}


/// A copy of `v[from..to]`.
pub fn sub_vec(v: &Vec<char>, from: usize, to: usize) -> (r: Vec<char>)
    requires
        from <= to <= v@.len(),
    ensures
        r@ == v@.subrange(from as int, to as int),
{
    let mut out: Vec<char> = Vec::new();
    let mut i = from;
    while i < to
        invariant
            from <= i <= to,
            to <= v@.len(),
            out@ == v@.subrange(from as int, i as int),
        decreases to - i,
    {
        out.push(v[i]);
        i = i + 1;
    }
    out
}

/// The character sequences held by a vector of character vectors.
pub open spec fn seqs_of(v: Seq<Vec<char>>) -> Seq<Seq<char>> {
    v.map_values(|x: Vec<char>| x@)
}

/// The lines of `chars`, as `str::lines` yields them.
pub fn split_lines(chars: &Vec<char>) -> (r: Vec<Vec<char>>)
    ensures
        seqs_of(r@) == lines(chars@),
{
    let nl: Vec<char> = vec!['\n'];
    let mut out: Vec<Vec<char>> = Vec::new();
    let mut rest: Vec<char> = sub_vec(chars, 0, chars.len());
    assert(chars@.subrange(0, chars@.len() as int) =~= chars@);
    loop
        invariant
            nl@ == seq!['\n'],
            lines(chars@) == seqs_of(out@) + lines(rest@),
        decreases rest@.len(),
    {
        if rest.len() == 0 {
            assert(seqs_of(out@) + lines(rest@) =~= seqs_of(out@));
            return out;
        }
        let ghost before = seqs_of(out@);
        match find_in(&rest, &nl, 0) {
            None => {
                assert(rest@.subrange(0, rest@.len() as int) =~= rest@);
                assert(lines(rest@) == seq![strip_cr(rest@)]);
                let line = strip_cr_vec(&rest, rest.len());
                out.push(line);
                assert(seqs_of(out@) =~= before + lines(rest@));
                return out;
            },
            Some(i) => {
                proof { lemma_find_bounds(rest@, seq!['\n'], 0); }
                let line = strip_cr_vec(&rest, i);
                out.push(line);
                let next = sub_vec(&rest, i + 1, rest.len());
                assert(seqs_of(out@) =~= before + seq![strip_cr(rest@.subrange(0, i as int))]);
                assert(lines(rest@) == seq![strip_cr(rest@.subrange(0, i as int))] + lines(next@));
                assert(before + lines(rest@) =~= seqs_of(out@) + lines(next@));
                rest = next;
            },
        }
    }
}

/// `v[0..to]` without one trailing carriage return.
fn strip_cr_vec(v: &Vec<char>, to: usize) -> (r: Vec<char>)
    requires
        to <= v@.len(),
    ensures
        r@ == strip_cr(v@.subrange(0, to as int)),
{
    if to > 0 && v[to - 1] == '\r' {
        let r = sub_vec(v, 0, to - 1);
        assert(v@.subrange(0, to as int).drop_last() =~= v@.subrange(0, to - 1));
        r
    } else {
        sub_vec(v, 0, to)
    }
}

/// Length of `s` once its leading white space is dropped: the index of the
/// first non-white character.
pub fn trim_start_index(v: &Vec<char>) -> (r: usize)
    ensures
        r <= v@.len(),
        trim_start(v@) == v@.subrange(r as int, v@.len() as int),
{
    let mut i: usize = 0;
    assert(v@.subrange(0, v@.len() as int) =~= v@);
    while i < v.len() && white(v[i])
        invariant
            i <= v@.len(),
            trim_start(v@) == trim_start(v@.subrange(i as int, v@.len() as int)),
        decreases v@.len() - i,
    {
        assert(v@.subrange(i as int, v@.len() as int).drop_first() =~= v@.subrange(i + 1, v@.len() as int));
        i = i + 1;
    }
    i
}

/// The index just past the last non-white character of `v`.
pub fn trim_end_index(v: &Vec<char>) -> (r: usize)
    ensures
        r <= v@.len(),
        trim_end(v@) == v@.subrange(0, r as int),
{
    let mut j: usize = v.len();
    assert(v@.subrange(0, j as int) =~= v@);
    while j > 0 && white(v[j - 1])
        invariant
            j <= v@.len(),
            trim_end(v@) == trim_end(v@.subrange(0, j as int)),
        decreases j,
    {
        assert(v@.subrange(0, j as int).drop_last() =~= v@.subrange(0, j - 1));
        j = j - 1;
    }
    j
}

/// `v` without leading and trailing white space.
pub fn trimmed(v: &Vec<char>) -> (r: Vec<char>)
    ensures
        r@ == trim(v@),
{
    let a = trim_start_index(v);
    let t = sub_vec(v, a, v.len());
    let b = trim_end_index(&t);
    sub_vec(&t, 0, b)
}


/// The character sequences held by a vector of strings.
pub open spec fn strings_of(v: Seq<String>) -> Seq<Seq<char>> {
    v.map_values(|x: String| x@)
}

/// `v` ends with `p`.
pub fn vec_ends_with(v: &Vec<char>, p: &Vec<char>) -> (r: bool)
    ensures
        r == ends_with(v@, p@),
{
    if p.len() > v.len() {
        return false;
    }
    matches_at(v, p, v.len() - p.len())
}

/// `v` starts with `p`.
pub fn vec_starts_with(v: &Vec<char>, p: &Vec<char>) -> (r: bool)
    ensures
        r == starts_with(v@, p@),
{
    if p.len() > v.len() {
        return false;
    }
    matches_at(v, p, 0)
}

/// `p` occurs in `v`.
pub fn vec_contains(v: &Vec<char>, p: &Vec<char>) -> (r: bool)
    ensures
        r == contains(v@, p@),
{
    find_in(v, p, 0).is_some()
}

/// Whether two character vectors hold the same characters.
pub fn vec_eq(a: &Vec<char>, b: &Vec<char>) -> (r: bool)
    ensures
        r == (a@ == b@),
{
    if a.len() != b.len() {
        return false;
    }
    let r = matches_at(a, b, 0);
    assert(a@.subrange(0, b@.len() as int) =~= a@);
    r
}

/// The index of the first character of `v` that is not `c`.
pub fn trim_start_char_index(v: &Vec<char>, c: char) -> (r: usize)
    ensures
        r <= v@.len(),
        trim_start_char(v@, c) == v@.subrange(r as int, v@.len() as int),
{
    let mut i: usize = 0;
    assert(v@.subrange(0, v@.len() as int) =~= v@);
    while i < v.len() && v[i] == c
        invariant
            i <= v@.len(),
            trim_start_char(v@, c) == trim_start_char(v@.subrange(i as int, v@.len() as int), c),
        decreases v@.len() - i,
    {
        assert(v@.subrange(i as int, v@.len() as int).drop_first() =~= v@.subrange(i + 1, v@.len() as int));
        i = i + 1;
    }
    i
}

/// Strings holding the character vectors of `v`, in order.
pub fn strings_from(v: &Vec<Vec<char>>) -> (r: Vec<String>)
    ensures
        strings_of(r@) == seqs_of(v@),
{
    let mut out: Vec<String> = Vec::new();
    let mut i: usize = 0;
    while i < v.len()
        invariant
            i <= v@.len(),
            strings_of(out@) == seqs_of(v@).subrange(0, i as int),
        decreases v@.len() - i,
    {
        let s = string_of(&v[i], 0, v[i].len());
        assert(v@[i as int]@.subrange(0, v@[i as int]@.len() as int) =~= v@[i as int]@);
        assert(s@ == v@[i as int]@);
        let ghost prev = out@;
        out.push(s);
        assert(strings_of(out@) =~= strings_of(prev).push(s@));
        assert(seqs_of(v@).subrange(0, i + 1) =~= seqs_of(v@).subrange(0, i as int).push(v@[i as int]@));
        i = i + 1;
        assert(strings_of(out@) =~= seqs_of(v@).subrange(0, i as int));
    }
    assert(seqs_of(v@).subrange(0, v@.len() as int) =~= seqs_of(v@));
    out
}


/// The leading run of non-white characters of `s`.
pub open spec fn word_prefix(s: Seq<char>) -> Seq<char>
    decreases s.len(),
{
    if s.len() == 0 || is_white(s[0]) { seq![] } else { seq![s[0]] + word_prefix(s.drop_first()) }
}

/// The first white-space separated word of `s` (empty when there is none),
/// as `split_whitespace().next().unwrap_or_default()` gives it.
pub open spec fn first_word(s: Seq<char>) -> Seq<char> {
    word_prefix(trim_start(s))
}

/// The first white-space separated word of `v`.
pub fn first_word_of(v: &Vec<char>) -> (r: Vec<char>)
    ensures
        r@ == first_word(v@),
{
    let a = trim_start_index(v);
    let mut j = a;
    while j < v.len() && !white(v[j])
        invariant
            a <= j <= v@.len(),
            word_prefix(v@.subrange(a as int, v@.len() as int))
                == v@.subrange(a as int, j as int) + word_prefix(v@.subrange(j as int, v@.len() as int)),
        decreases v@.len() - j,
    {
        let ghost rest = v@.subrange(j as int, v@.len() as int);
        assert(rest.drop_first() =~= v@.subrange(j + 1, v@.len() as int));
        assert(v@.subrange(a as int, j + 1) =~= v@.subrange(a as int, j as int) + seq![v@[j as int]]);
        j = j + 1;
    }
    assert(word_prefix(v@.subrange(j as int, v@.len() as int)) =~= seq![]);
    assert(v@.subrange(a as int, j as int) + seq![] =~= v@.subrange(a as int, j as int));
    sub_vec(v, a, j)
}


/// Whether two string slices hold the same characters.
pub fn str_eq(a: &str, b: &str) -> (r: bool)
    ensures
        r == (a@ == b@),
{
    vec_eq(&chars_of(a), &chars_of(b))
}


/// The decimal representation of a signed integer, with a leading `-` when
/// it is negative.
pub open spec fn signed_decimal(v: int) -> Seq<char> {
    if v < 0 { seq!['-'] + decimal((-v) as nat) } else { decimal(v as nat) }
}

/// Appends the decimal representation of `v`.
pub fn push_signed(s: &mut String, v: i64)
    ensures
        final(s)@ == old(s)@ + signed_decimal(v as int),
{
    if v < 0 {
        push_char(s, '-');
        let m: u64 = if v == i64::MIN { 9223372036854775808 } else { (-v) as u64 };
        push_decimal(s, m);
        assert(s@ =~= old(s)@ + signed_decimal(v as int));
    } else {
        push_decimal(s, v as u64);
    }
}

/// The decimal representation of `v`.
pub fn signed_string(v: i64) -> (r: String)
    ensures
        r@ == signed_decimal(v as int),
{
    let mut s = String::new();
    push_signed(&mut s, v);
    s
}

/// `fields` joined by `sep`.
pub open spec fn joined(fields: Seq<Seq<char>>, sep: char) -> Seq<char>
    decreases fields.len(),
{
    if fields.len() == 0 {
        seq![]
    } else if fields.len() == 1 {
        fields[0]
    } else {
        joined(fields.drop_last(), sep) + seq![sep] + fields.last()
    }
}

/// The texts of `fields` joined by `sep`.
pub fn join_with(fields: &Vec<String>, sep: char) -> (r: String)
    ensures
        r@ == joined(strings_of(fields@), sep),
{
    let mut out = String::new();
    let mut i: usize = 0;
    while i < fields.len()
        invariant
            i <= fields@.len(),
            out@ == joined(strings_of(fields@).subrange(0, i as int), sep),
        decreases fields@.len() - i,
    {
        let ghost done = strings_of(fields@).subrange(0, i as int);
        let ghost next = strings_of(fields@).subrange(0, i + 1);
        assert(next.drop_last() =~= done);
        if i > 0 {
            push_char(&mut out, sep);
        }
        push_str(&mut out, fields[i].as_str());
        assert(out@ =~= joined(next, sep));
        i = i + 1;
    }
    assert(strings_of(fields@).subrange(0, fields@.len() as int) =~= strings_of(fields@));
    out
}


/// The pieces of `s` between the occurrences of `c`, as `str::split` yields
/// them: one more piece than there are separators, empty pieces included.
pub open spec fn split_on(s: Seq<char>, c: char) -> Seq<Seq<char>>
    decreases s.len(),
{
    if s.len() == 0 {
        seq![seq![]]
    } else {
        let f = split_on(s.drop_last(), c);
        if s.last() == c {
            f.push(seq![])
        } else {
            f.update(f.len() - 1, f.last().push(s.last()))
        }
    }
}

proof fn lemma_split_on_nonempty(s: Seq<char>, c: char)
    ensures
        split_on(s, c).len() >= 1,
    decreases s.len(),
{
    if s.len() > 0 {
        lemma_split_on_nonempty(s.drop_last(), c);
    }
}

/// The pieces of `v` between the occurrences of `c`.
pub fn split_fields(v: &Vec<char>, c: char) -> (r: Vec<Vec<char>>)
    ensures
        seqs_of(r@) == split_on(v@, c),
{
    let mut out: Vec<Vec<char>> = Vec::new();
    let mut cur: Vec<char> = Vec::new();
    let mut i: usize = 0;
    assert(v@.subrange(0, 0) =~= seq![]);
    assert(seqs_of(out@).push(cur@) =~= seq![seq![]]);
    while i < v.len()
        invariant
            i <= v@.len(),
            seqs_of(out@).push(cur@) == split_on(v@.subrange(0, i as int), c),
        decreases v@.len() - i,
    {
        let ghost pre = v@.subrange(0, i as int);
        let ghost post = v@.subrange(0, i + 1);
        assert(post.drop_last() =~= pre);
        proof { lemma_split_on_nonempty(pre, c); }
        let ghost before = seqs_of(out@);
        let ghost cur0 = cur@;
        if v[i] == c {
            let done = cur;
            out.push(done);
            cur = Vec::new();
            assert(seqs_of(out@) =~= before.push(cur0));
            assert(seqs_of(out@).push(cur@) =~= split_on(post, c));
        } else {
            cur.push(v[i]);
            assert(seqs_of(out@).push(cur@) =~= before.push(cur0).update(before.len() as int, cur0.push(v@[i as int])));
        }
        i = i + 1;
    }
    assert(v@.subrange(0, v@.len() as int) =~= v@);
    let ghost before = seqs_of(out@);
    let ghost last = cur@;
    out.push(cur);
    assert(seqs_of(out@) =~= before.push(last));
    out
}


/// Ten to the power `k`.
pub open spec fn pow10(k: nat) -> nat
    decreases k,
{
    if k == 0 { 1 } else { 10 * pow10((k - 1) as nat) }
}

/// A number below ten to the `k` has at most `k` digits (and at least one).
pub proof fn lemma_decimal_len_below(n: nat, k: nat)
    requires
        n < pow10(k),
        k >= 1,
    ensures
        1 <= decimal(n).len() <= k,
    decreases k,
{
    if n >= 10 {
        assert(k >= 2) by {
            if k == 1 {
                assert(pow10(1) == 10 * pow10(0));
            }
        }
        assert(n / 10 < pow10((k - 1) as nat));
        lemma_decimal_len_below(n / 10, (k - 1) as nat);
    }
}

/// `n` zero-padded to `width` digits: as long as the longer of `width` and
/// the decimal representation of `n`, and made of digits only.
pub proof fn lemma_zero_padded_shape(n: nat, width: nat)
    ensures
        zero_padded(n, width).len() == if decimal(n).len() >= width { decimal(n).len() } else { width },
        zero_padded(n, width).len() >= 1,
        forall|i: int| 0 <= i < zero_padded(n, width).len() ==> is_digit(#[trigger] zero_padded(n, width)[i]),
{
    lemma_decimal_value(n);
    lemma_decimal_len(n);
    let d = decimal(n);
    if d.len() < width {
        let z = zero_padded(n, width);
        assert forall|i: int| 0 <= i < z.len() implies is_digit(#[trigger] z[i]) by {
            if i >= width - d.len() {
                assert(z[i] == d[i - (width - d.len())]);
            }
        }
    }
}


/// The white-space separated words of `s`, as `str::split_whitespace`
/// yields them.
pub open spec fn words(s: Seq<char>) -> Seq<Seq<char>>
    decreases s.len(),
{
    if s.len() == 0 {
        seq![]
    } else {
        let w = words(s.drop_last());
        let c = s.last();
        if is_white(c) {
            w
        } else if s.len() >= 2 && !is_white(s[s.len() - 2]) && w.len() > 0 {
            w.update(w.len() - 1, w.last().push(c))
        } else {
            w.push(seq![c])
        }
    }
}

proof fn lemma_words_open(s: Seq<char>)
    requires
        s.len() > 0,
        !is_white(s.last()),
    ensures
        words(s).len() > 0,
{
    let w = words(s.drop_last());
    if !(s.len() >= 2 && !is_white(s[s.len() - 2]) && w.len() > 0) {
        assert(words(s) == w.push(seq![s.last()]));
    }
}

/// The words of `s` joined by single spaces: runs of white space collapsed,
/// leading and trailing ones dropped.
pub fn collapse_whitespace(s: &str) -> (r: String)
    ensures
        r@ == joined(words(s@), ' '),
{
    let v = chars_of(s);
    let mut out: Vec<Vec<char>> = Vec::new();
    let mut i: usize = 0;
    assert(v@.subrange(0, 0) =~= seq![]);
    while i < v.len()
        invariant
            v@ == s@,
            i <= v@.len(),
            seqs_of(out@) == words(v@.subrange(0, i as int)),
            i > 0 && !is_white(v@[i - 1]) ==> out@.len() > 0,
        decreases v@.len() - i,
    {
        let ghost pre = v@.subrange(0, i as int);
        let ghost post = v@.subrange(0, i + 1);
        assert(post.drop_last() =~= pre);
        assert(post.last() == v@[i as int]);
        let c = v[i];
        if !white(c) {
            let ghost before = seqs_of(out@);
            if i > 0 && !white(v[i - 1]) {
                assert(post[post.len() - 2] == v@[i - 1]);
                let last = out.len() - 1;
                let mut word = out[last].clone();
                assert(word@ == out@[last as int]@);
                word.push(c);
                out.set(last, word);
                assert(seqs_of(out@) =~= before.update(before.len() - 1, before.last().push(c)));
            } else {
                let mut word: Vec<char> = Vec::new();
                word.push(c);
                out.push(word);
                assert(seqs_of(out@) =~= before.push(seq![c]));
            }
            proof { lemma_words_open(post); }
        }
        i = i + 1;
    }
    assert(v@.subrange(0, v@.len() as int) =~= v@);
    let ws = strings_from(&out);
    join_with(&ws, ' ')
}


/// `c` does not occur in `s`.
pub open spec fn lacks(s: Seq<char>, c: char) -> bool {
    forall|i: int| 0 <= i < s.len() ==> #[trigger] s[i] != c
}

/// The decimal representation of a number holds digits only, so neither a
/// comma nor a minus sign.
pub proof fn lemma_decimal_lacks(n: nat, c: char)
    requires
        !is_digit(c),
    ensures
        lacks(decimal(n), c),
{
    lemma_decimal_value(n);
}

/// A signed decimal holds no comma.
pub proof fn lemma_signed_decimal_lacks_comma(v: int)
    ensures
        lacks(signed_decimal(v), ','),
{
    if v < 0 {
        lemma_decimal_lacks((-v) as nat, ',');
        let s = signed_decimal(v);
        assert forall|i: int| 0 <= i < s.len() implies #[trigger] s[i] != ',' by {
            if i > 0 {
                assert(s[i] == decimal((-v) as nat)[i - 1]);
            }
        }
    } else {
        lemma_decimal_lacks(v as nat, ',');
    }
}

proof fn lemma_split_piece(s: Seq<char>, t: Seq<char>, c: char)
    requires
        lacks(t, c),
    ensures
        split_on(s + seq![c] + t, c) == split_on(s, c).push(t),
    decreases t.len(),
{
    if t.len() == 0 {
        let whole = s + seq![c] + t;
        assert(whole =~= s.push(c));
        assert(whole.drop_last() =~= s);
        assert(whole.last() == c);
        assert(t =~= seq![]);
        assert(split_on(whole, c) == split_on(whole.drop_last(), c).push(seq![]));
    } else {
        let u = t.drop_last();
        let x = t.last();
        assert(lacks(u, c)) by {
            assert forall|i: int| 0 <= i < u.len() implies #[trigger] u[i] != c by {
                assert(u[i] == t[i]);
            }
        }
        assert(x != c) by {
            assert(t[t.len() - 1] != c);
        }
        lemma_split_piece(s, u, c);
        let whole = s + seq![c] + t;
        assert(whole.drop_last() =~= s + seq![c] + u);
        assert(whole.last() == x);
        assert(u.push(x) =~= t);
        let f = split_on(whole.drop_last(), c);
        assert(f == split_on(s, c).push(u));
        assert(split_on(whole, c) == f.update(f.len() - 1, f.last().push(x)));
        assert(split_on(s, c).push(u).update(split_on(s, c).len() as int, u.push(x)) =~= split_on(s, c).push(t));
    }
}

proof fn lemma_split_single(t: Seq<char>, c: char)
    requires
        lacks(t, c),
    ensures
        split_on(t, c) == seq![t],
    decreases t.len(),
{
    if t.len() > 0 {
        let u = t.drop_last();
        assert(lacks(u, c)) by {
            assert forall|i: int| 0 <= i < u.len() implies #[trigger] u[i] != c by {
                assert(u[i] == t[i]);
            }
        }
        assert(t.last() != c) by {
            assert(t[t.len() - 1] != c);
        }
        lemma_split_single(u, c);
        assert(u.push(t.last()) =~= t);
        assert(seq![u].update(0, u.push(t.last())) =~= seq![t]);
    } else {
        assert(t =~= seq![]);
    }
}

/// Splitting fields joined by a separator none of them holds gives the
/// fields back.
pub proof fn lemma_split_undoes_join(fields: Seq<Seq<char>>, c: char)
    requires
        fields.len() >= 1,
        forall|k: int| 0 <= k < fields.len() ==> lacks(#[trigger] fields[k], c),
    ensures
        split_on(joined(fields, c), c) == fields,
    decreases fields.len(),
{
    if fields.len() == 1 {
        lemma_split_single(fields[0], c);
        assert(seq![fields[0]] =~= fields);
    } else {
        let init = fields.drop_last();
        assert forall|k: int| 0 <= k < init.len() implies lacks(#[trigger] init[k], c) by {
            assert(init[k] == fields[k]);
        }
        lemma_split_undoes_join(init, c);
        assert(lacks(fields[fields.len() - 1], c));
        lemma_split_piece(joined(init, c), fields.last(), c);
        assert(init.push(fields.last()) =~= fields);
    }
}

/// `a` sorts strictly before `b` as text: code point by code point, a proper
/// prefix first (the order of `str`).
pub open spec fn text_lt(a: Seq<char>, b: Seq<char>) -> bool
    decreases a.len(),
{
    if b.len() == 0 {
        false
    } else if a.len() == 0 {
        true
    } else if a[0] != b[0] {
        (a[0] as u32) < (b[0] as u32)
    } else {
        text_lt(a.drop_first(), b.drop_first())
    }
}

pub proof fn lemma_text_lt_irreflexive(a: Seq<char>)
    ensures
        !text_lt(a, a),
    decreases a.len(),
{
    if a.len() > 0 {
        lemma_text_lt_irreflexive(a.drop_first());
    }
}

pub proof fn lemma_text_lt_transitive(a: Seq<char>, b: Seq<char>, c: Seq<char>)
    requires
        text_lt(a, b),
        text_lt(b, c),
    ensures
        text_lt(a, c),
    decreases a.len(),
{
    if a.len() > 0 && b.len() > 0 && c.len() > 0 && a[0] == b[0] && b[0] == c[0] {
        lemma_text_lt_transitive(a.drop_first(), b.drop_first(), c.drop_first());
    }
}

/// Whether `a` sorts strictly before `b` as text.
pub fn text_less(a: &str, b: &str) -> (r: bool)
    ensures
        r == text_lt(a@, b@),
{
    let x = chars_of(a);
    let y = chars_of(b);
    let mut i: usize = 0;
    assert(x@.subrange(0, x@.len() as int) =~= x@);
    assert(y@.subrange(0, y@.len() as int) =~= y@);
    while i < x.len() && i < y.len() && x[i] == y[i]
        invariant
            i <= x@.len(),
            i <= y@.len(),
            x@ == a@,
            y@ == b@,
            text_lt(a@, b@) == text_lt(x@.subrange(i as int, x@.len() as int), y@.subrange(i as int, y@.len() as int)),
        decreases x@.len() - i,
    {
        let ghost xs = x@.subrange(i as int, x@.len() as int);
        let ghost ys = y@.subrange(i as int, y@.len() as int);
        assert(xs.drop_first() =~= x@.subrange(i + 1, x@.len() as int));
        assert(ys.drop_first() =~= y@.subrange(i + 1, y@.len() as int));
        i = i + 1;
    }
    if i == y.len() {
        return false;
    }
    if i == x.len() {
        return true;
    }
    (#[verifier::truncate] (x[i] as u32)) < (#[verifier::truncate] (y[i] as u32))
}

} // verus!
