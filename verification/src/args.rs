//! The bench instrument's minimal `--key value` argument parser.

use vstd::prelude::*;
use crate::strmap::StrMap;
use crate::text::{chars_of, digits_value, is_digit, push_str, string_of, vec_starts_with, lit};

verus! {

/// Parsed `--key value` arguments.
#[derive(Debug)]
pub struct Args {
    map: StrMap<String>,
}

/// The key-to-value map the arguments `argv` spell out after `m`: each
/// `--key` followed by its value, later keys winning; an error text for a
/// word that is not `--key`, or a key without a value.
pub open spec fn parsed_args(argv: Seq<Seq<char>>, m: Map<Seq<char>, Seq<char>>) -> Result<Map<Seq<char>, Seq<char>>, Seq<char>>
    decreases argv.len(),
{
    if argv.len() == 0 {
        Ok(m)
    } else {
        let word = argv[0];
        if !crate::text::starts_with(word, "--"@) {
            Err("expected --key, got '"@ + word + "'"@)
        } else {
            let key = word.subrange(2, word.len() as int);
            if argv.len() < 2 {
                Err("--"@ + key + " needs a value"@)
            } else {
                parsed_args(argv.subrange(2, argv.len() as int), m.insert(key, argv[1]))
            }
        }
    }
}

/// The texts a string map holds.
pub open spec fn text_map(m: Map<Seq<char>, String>) -> Map<Seq<char>, Seq<char>> {
    m.map_values(|s: String| s@)
}

impl View for Args {
    type V = Map<Seq<char>, Seq<char>>;

    closed spec fn view(&self) -> Map<Seq<char>, Seq<char>> {
        text_map(self.map@)
    }
}

/// The view of a parse result.
pub open spec fn args_result(r: Result<Args, String>) -> Result<Map<Seq<char>, Seq<char>>, Seq<char>> {
    match r {
        Ok(a) => Ok(a@),
        Err(e) => Err(e@),
    }
}

/// How `u64::from_str` reads `s`: an optional `+`, then one or more ASCII
/// digits, within range.
pub open spec fn u64_text(s: Seq<char>) -> Option<u64> {
    let d = unsigned_digits(s);
    if d.len() > 0 && all_digits(d) && digits_value(d) <= u64::MAX {
        Some(digits_value(d) as u64)
    } else {
        None
    }
}

/// `s` without one leading `+`.
pub open spec fn unsigned_digits(s: Seq<char>) -> Seq<char> {
    if s.len() > 0 && s[0] == '+' { s.subrange(1, s.len() as int) } else { s }
}

/// Every character of `d` is an ASCII digit.
pub open spec fn all_digits(d: Seq<char>) -> bool {
    forall|i: int| 0 <= i < d.len() ==> is_digit(#[trigger] d[i])
}

/// Parses the digits of `v[from..]`, `None` when one is not a digit or the
/// value overflows.
fn parse_digits(v: &Vec<char>, from: usize) -> (r: Option<u64>)
    requires
        from <= v@.len(),
    ensures
        ({
            let d = v@.subrange(from as int, v@.len() as int);
            match r {
                Some(n) => all_digits(d) && n == digits_value(d),
                None => !all_digits(d) || digits_value(d) > u64::MAX,
            }
        }),
{
    let mut n: u64 = 0;
    let mut i = from;
    assert(v@.subrange(from as int, from as int) =~= Seq::<char>::empty());
    while i < v.len()
        invariant
            from <= i <= v@.len(),
            forall|k: int| from <= k < i ==> is_digit(#[trigger] v@[k]),
            n == digits_value(v@.subrange(from as int, i as int)),
        decreases v@.len() - i,
    {
        let c = v[i];
        let ghost prefix = v@.subrange(from as int, i + 1);
        assert(prefix.drop_last() =~= v@.subrange(from as int, i as int));
        if !('0' <= c && c <= '9') {
            proof {
                let d = v@.subrange(from as int, v@.len() as int);
                assert(d[i - from] == c);
                assert(!all_digits(d));
            }
            return None;
        }
        let digit: u64 = (c as u32 - '0' as u32) as u64;
        proof {
            assert(crate::text::digit_value(c) == digit) by {
                assert('0' <= c <= '9');
            }
        }
        if n > (u64::MAX - digit) / 10 {
            proof {
                lemma_digits_value_grows(v@, from as int, v@.len() as int);
                assert(digits_value(prefix) <= digits_value(v@.subrange(from as int, v@.len() as int)));
                assert(digits_value(prefix) == n * 10 + digit) by (nonlinear_arith)
                    requires digits_value(prefix) == digits_value(prefix.drop_last()) * 10 + crate::text::digit_value(c),
                        digits_value(prefix.drop_last()) == n, crate::text::digit_value(c) == digit;
                assert(n * 10 + digit > u64::MAX) by (nonlinear_arith)
                    requires n > (u64::MAX - digit) / 10, digit <= 9;
            }
            return None;
        }
        proof {
            assert(n * 10 + digit <= u64::MAX) by (nonlinear_arith)
                requires n <= (u64::MAX - digit) / 10, digit <= 9;
        }
        n = n * 10 + digit;
        i = i + 1;
    }
    Some(n)
}

/// The value of digit strings never shrinks as digits are appended.
proof fn lemma_digits_value_grows(v: Seq<char>, from: int, to: int)
    requires
        0 <= from <= to <= v.len(),
    ensures
        forall|k: int| from <= k <= to ==> digits_value(v.subrange(from, k)) <= digits_value(v.subrange(from, to)),
    decreases to - from,
{
    if to > from {
        lemma_digits_value_grows(v, from, to - 1);
        assert(v.subrange(from, to).drop_last() =~= v.subrange(from, to - 1));
    }
}

/// `u64::from_str` on `s`.
pub fn parse_u64(s: &str) -> (r: Option<u64>)
    ensures
        r == u64_text(s@),
{
    let v = chars_of(s);
    let from: usize = if v.len() > 0 && v[0] == '+' { 1 } else { 0 };
    proof {
        if from == 0 {
            assert(v@.subrange(0, v@.len() as int) =~= v@);
        }
    }
    if from == v.len() {
        proof {
            assert(unsigned_digits(s@).len() == 0);
        }
        return None;
    }
    let r = parse_digits(&v, from);
    proof {
        let d = v@.subrange(from as int, v@.len() as int);
        assert(d =~= unsigned_digits(s@));
    }
    r
}

impl Args {
    /// Parse `--key value` pairs.
    pub fn parse(argv: Vec<String>) -> (r: Result<Args, String>)
        ensures
            args_result(r) == parsed_args(crate::text::strings_of(argv@), Map::empty()),
    {
        let mut map: StrMap<String> = StrMap::new();
        let ghost all = crate::text::strings_of(argv@);
        let mut i: usize = 0;
        let dashes = lit("--");
        assert(text_map(map@) =~= Map::<Seq<char>, Seq<char>>::empty());
        assert(all.subrange(0, all.len() as int) =~= all);
        while i < argv.len()
            invariant
                all == crate::text::strings_of(argv@),
                dashes@ == "--"@,
                i <= argv@.len(),
                parsed_args(all, Map::empty()) == parsed_args(all.subrange(i as int, all.len() as int), text_map(map@)),
            decreases argv@.len() - i,
        {
            let ghost rest = all.subrange(i as int, all.len() as int);
            let word = chars_of(argv[i].as_str());
            if !vec_starts_with(&word, &dashes) {
                let mut e = String::from_str("expected --key, got '");
                push_str(&mut e, argv[i].as_str());
                push_str(&mut e, "'");
                return Err(e);
            }
            proof {
                reveal_strlit("--");
            }
            let key = string_of(&word, 2, word.len());
            if i + 1 >= argv.len() {
                let mut e = String::from_str("--");
                push_str(&mut e, key.as_str());
                push_str(&mut e, " needs a value");
                return Err(e);
            }
            let ghost before = map@;
            map.insert(key.as_str(), argv[i + 1].clone());
            proof {
                assert(text_map(map@) =~= text_map(before).insert(key@, argv@[i + 1]@));
                assert(rest.subrange(2, rest.len() as int) =~= all.subrange(i + 2, all.len() as int));
            }
            i = i + 2;
        }
        assert(all.subrange(i as int, all.len() as int) =~= Seq::<Seq<char>>::empty());
        Ok(Args { map })
    }

    /// The value of `key`, if given.
    pub fn opt(&self, key: &str) -> (r: Option<&str>)
        ensures
            match r {
                Some(v) => self@.dom().contains(key@) && v@ == self@[key@],
                None => !self@.dom().contains(key@),
            },
    {
        match self.map.get(key) {
            Some(v) => Some(v.as_str()),
            None => None,
        }
    }

    /// The value of `key`, or `default`.
    pub fn str(&self, key: &str, default: &str) -> (r: String)
        ensures
            r@ == if self@.dom().contains(key@) { self@[key@] } else { default@ },
    {
        match self.opt(key) {
            Some(v) => String::from_str(v),
            None => String::from_str(default),
        }
    }

    /// The value of `key` read as a `u64`, or `default` when absent; an
    /// error text when it does not read.
    pub fn num(&self, key: &str, default: u64) -> (r: Result<u64, String>)
        ensures
            !self@.dom().contains(key@) ==> r == Ok::<u64, String>(default),
            self@.dom().contains(key@) ==> match u64_text(self@[key@]) {
                Some(n) => r == Ok::<u64, String>(n),
                None => r matches Err(e) && e@ == "--"@ + key@ + ": invalid value '"@ + self@[key@] + "'"@,
            },
    {
        match self.opt(key) {
            Some(v) => match parse_u64(v) {
                Some(n) => Ok(n),
                None => {
                    let mut e = String::from_str("--");
                    push_str(&mut e, key);
                    push_str(&mut e, ": invalid value '");
                    push_str(&mut e, v);
                    push_str(&mut e, "'");
                    Err(e)
                },
            },
            None => Ok(default),
        }
    }

    /// The value of `key` read as an `i64`, or `default` when absent; an
    /// error text when it does not read.
    pub fn num_i64(&self, key: &str, default: i64) -> (r: Result<i64, String>)
        ensures
            !self@.dom().contains(key@) ==> r == Ok::<i64, String>(default),
            self@.dom().contains(key@) ==> match i64_text(self@[key@]) {
                Some(n) => r == Ok::<i64, String>(n),
                None => r matches Err(e) && e@ == "--"@ + key@ + ": invalid value '"@ + self@[key@] + "'"@,
            },
    {
        match self.opt(key) {
            Some(v) => match parse_i64(v) {
                Some(n) => Ok(n),
                None => {
                    let mut e = String::from_str("--");
                    push_str(&mut e, key);
                    push_str(&mut e, ": invalid value '");
                    push_str(&mut e, v);
                    push_str(&mut e, "'");
                    Err(e)
                },
            },
            None => Ok(default),
        }
    }
}

/// `s` without one leading sign, and whether that sign was `-`.
pub open spec fn signed_digits(s: Seq<char>) -> (bool, Seq<char>) {
    if s.len() > 0 && s[0] == '-' {
        (true, s.subrange(1, s.len() as int))
    } else if s.len() > 0 && s[0] == '+' {
        (false, s.subrange(1, s.len() as int))
    } else {
        (false, s)
    }
}

/// What `i64::from_str` reads from `s`: an optional sign, then one or more
/// ASCII digits, within range.
pub open spec fn i64_text(s: Seq<char>) -> Option<i64> {
    let (neg, d) = signed_digits(s);
    if d.len() == 0 || !all_digits(d) {
        None
    } else if neg {
        if digits_value(d) <= 9223372036854775808 { Some((0 - digits_value(d)) as i64) } else { None }
    } else {
        if digits_value(d) <= i64::MAX { Some(digits_value(d) as i64) } else { None }
    }
}

/// `i64::from_str` on `s`.
pub fn parse_i64(s: &str) -> (r: Option<i64>)
    ensures
        r == i64_text(s@),
{
    let v = chars_of(s);
    let neg = v.len() > 0 && v[0] == '-';
    let from: usize = if v.len() > 0 && (v[0] == '-' || v[0] == '+') { 1 } else { 0 };
    let ghost d = v@.subrange(from as int, v@.len() as int);
    proof {
        if from == 0 {
            assert(v@.subrange(0, v@.len() as int) =~= v@);
        }
        assert(signed_digits(s@) == (neg, d));
    }
    if from == v.len() {
        return None;
    }
    match parse_digits(&v, from) {
        None => None,
        Some(m) => {
            if neg {
                if m <= 9223372036854775808 {
                    if m == 9223372036854775808 {
                        Some(i64::MIN)
                    } else {
                        Some(-(m as i64))
                    }
                } else {
                    None
                }
            } else {
                if m <= 9223372036854775807 { Some(m as i64) } else { None }
            }
        },
    }
}

} // verus!
