//! Numbered names (`viewer-1`, `viewer-2`, …) and the search for the first
//! one not taken yet.

use vstd::prelude::*;
use crate::text::{decimal, lemma_decimal_injective, push_decimal, push_str, str_eq};

verus! {

/// `prefix` followed by the decimal form of `n`.
pub open spec fn numbered(prefix: Seq<char>, n: nat) -> Seq<char> {
    prefix + decimal(n)
}

/// Some name of `names` equals `name`.
pub open spec fn is_taken(names: Seq<Seq<char>>, name: Seq<char>) -> bool {
    exists|i: int| 0 <= i < names.len() && names[i] == name
}

/// `n` is the smallest number from `start` whose numbered name is free.
pub open spec fn is_first_free(names: Seq<Seq<char>>, prefix: Seq<char>, start: nat, n: nat) -> bool {
    &&& n >= start
    &&& !is_taken(names, numbered(prefix, n))
    &&& forall|m: nat| start <= m < n ==> is_taken(names, #[trigger] numbered(prefix, m))
}

/// Distinct numbers give distinct numbered names.
pub proof fn lemma_numbered_injective(prefix: Seq<char>, a: nat, b: nat)
    requires
        numbered(prefix, a) == numbered(prefix, b),
    ensures
        a == b,
{
    let x = numbered(prefix, a);
    assert(x.subrange(prefix.len() as int, x.len() as int) =~= decimal(a));
    assert(x.subrange(prefix.len() as int, x.len() as int) =~= decimal(b));
    lemma_decimal_injective(a, b);
}

/// An injection from `lo..=hi` into `0..len` exists only when it has at most
/// `len` elements.
pub proof fn lemma_pigeonhole(len: int, lo: int, hi: int, f: spec_fn(int) -> int)
    requires
        lo <= hi + 1,
        0 <= len,
        forall|m: int| lo <= m <= hi ==> 0 <= #[trigger] f(m) < len,
        forall|m1: int, m2: int| lo <= m1 <= hi && lo <= m2 <= hi && #[trigger] f(m1) == #[trigger] f(m2) ==> m1 == m2,
    ensures
        hi + 1 - lo <= len,
{
    let x = vstd::set_lib::set_int_range(lo, hi + 1);
    let y = vstd::set_lib::set_int_range(0, len);
    vstd::set_lib::lemma_int_range(lo, hi + 1);
    vstd::set_lib::lemma_int_range(0, len);
    assert(vstd::relations::injective_on(f, x));
    let img = x.map(f);
    vstd::set_lib::lemma_map_size(x, img, f);
    assert(img.subset_of(y));
    vstd::set_lib::lemma_len_subset(img, y);
}

/// `prefix` followed by the decimal form of `n`.
pub fn numbered_string(prefix: &str, n: u64) -> (r: String)
    ensures
        r@ == numbered(prefix@, n as nat),
{
    let mut s = String::new();
    push_str(&mut s, prefix);
    push_decimal(&mut s, n);
    s
}

/// Whether `name` is one of `names`.
pub fn taken(names: &Vec<String>, name: &str) -> (r: bool)
    ensures
        r == is_taken(crate::text::strings_of(names@), name@),
{
    let mut i: usize = 0;
    while i < names.len()
        invariant
            i <= names@.len(),
            forall|j: int| 0 <= j < i ==> names@[j]@ != name@,
        decreases names@.len() - i,
    {
        if str_eq(names[i].as_str(), name) {
            assert(crate::text::strings_of(names@)[i as int] == name@);
            return true;
        }
        i = i + 1;
    }
    false
}

/// The first numbered name from `prefix` + `start` up that none of `names` holds.
pub fn first_free(prefix: &str, names: &Vec<String>, start: u64) -> (r: String)
    requires
        start + names@.len() < u64::MAX,
    ensures
        exists|n: nat| is_first_free(crate::text::strings_of(names@), prefix@, start as nat, n) && r@ == numbered(prefix@, n),
{
    let ghost s = crate::text::strings_of(names@);
    let mut n: u64 = start;
    loop
        invariant
            s == crate::text::strings_of(names@),
            start + names@.len() < u64::MAX,
            start <= n <= start + names@.len(),
            forall|m: nat| start <= m < n ==> is_taken(s, #[trigger] numbered(prefix@, m)),
        decreases start + names@.len() - n,
    {
        let candidate = numbered_string(prefix, n);
        if !taken(names, candidate.as_str()) {
            assert(is_first_free(s, prefix@, start as nat, n as nat));
            return candidate;
        }
        proof {
            let f = |m: int| choose|i: int| 0 <= i < s.len() && s[i] == numbered(prefix@, m as nat);
            assert forall|m: int| start <= m <= n implies 0 <= #[trigger] f(m) < s.len() by {
                assert(is_taken(s, numbered(prefix@, m as nat)));
            }
            assert forall|m1: int, m2: int| start <= m1 <= n && start <= m2 <= n && #[trigger] f(m1) == #[trigger] f(m2)
                implies m1 == m2 by {
                assert(is_taken(s, numbered(prefix@, m1 as nat)));
                assert(is_taken(s, numbered(prefix@, m2 as nat)));
                lemma_numbered_injective(prefix@, m1 as nat, m2 as nat);
            }
            lemma_pigeonhole(s.len() as int, start as int, n as int, f);
        }
        n = n + 1;
    }
}

} // verus!
