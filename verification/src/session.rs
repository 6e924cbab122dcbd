//! The graphical-session variables handed to every child, and read to pick
//! the Linux capture backend.
//!
//! A systemd user service can come up before the desktop has pushed
//! `DISPLAY` / `WAYLAND_DISPLAY` into the user environment; the variables are
//! then taken from `systemctl --user show-environment` instead of the
//! service's own environment.

use vstd::prelude::*;
use crate::strmap::StrMap;
use crate::text::{chars_of, find_in, lines, split_lines, string_of};

verus! {

/// How many variables reach a child's graphical session.
pub const SESSION_VAR_COUNT: usize = 5;

/// The `i`-th session variable.
pub open spec fn session_name(i: int) -> &'static str {
    if i == 0 {
        "DISPLAY"
    } else if i == 1 {
        "WAYLAND_DISPLAY"
    } else if i == 2 {
        "XAUTHORITY"
    } else if i == 3 {
        "XDG_SESSION_TYPE"
    } else {
        "XDG_CURRENT_DESKTOP"
    }
}

/// The `i`-th session variable (0 to 4).
pub fn session_var(i: usize) -> (r: &'static str)
    requires
        i < SESSION_VAR_COUNT,
    ensures
        r == session_name(i as int),
{
    if i == 0 {
        "DISPLAY"
    } else if i == 1 {
        "WAYLAND_DISPLAY"
    } else if i == 2 {
        "XAUTHORITY"
    } else if i == 3 {
        "XDG_SESSION_TYPE"
    } else {
        "XDG_CURRENT_DESKTOP"
    }
}

/// The texts a string map holds.
pub open spec fn texts(m: Map<Seq<char>, String>) -> Map<Seq<char>, Seq<char>> {
    m.map_values(|s: String| s@)
}

/// The session variables among the first `k`, given the value each has
/// (`None` when unset): those set to something non-empty.
pub open spec fn set_vars(values: Seq<Option<Seq<char>>>, k: int) -> Map<Seq<char>, Seq<char>>
    decreases k,
{
    if k <= 0 {
        Map::empty()
    } else {
        let m = set_vars(values, k - 1);
        match values[k - 1] {
            Some(v) => if v.len() > 0 { m.insert(session_name(k - 1)@, v) } else { m },
            None => m,
        }
    }
}

/// The session variables a name-to-value map gives: each set to something
/// non-empty there.
pub open spec fn vars_in(env: Map<Seq<char>, Seq<char>>) -> Map<Seq<char>, Seq<char>> {
    set_vars(
        Seq::new(SESSION_VAR_COUNT as nat, |i: int| if env.dom().contains(session_name(i)@) { Some(env[session_name(i)@]) } else { None }),
        SESSION_VAR_COUNT as int,
    )
}

/// The variables locate a display server.
pub open spec fn knows_display(vars: Map<Seq<char>, Seq<char>>) -> bool {
    vars.dom().contains("DISPLAY"@) || vars.dom().contains("WAYLAND_DISPLAY"@)
}

/// The views of optional strings.
pub open spec fn opt_texts(v: Seq<Option<String>>) -> Seq<Option<Seq<char>>> {
    v.map_values(|o: Option<String>| crate::ops::opt_string(o))
}

/// `vals` are answers `own` may give for the session variables, in order.
pub open spec fn own_answers<O: Fn(&str) -> Option<String>>(own: O, vals: Seq<Option<String>>) -> bool {
    vals.len() == SESSION_VAR_COUNT && forall|i: int| 0 <= i < SESSION_VAR_COUNT ==> #[trigger] own.ensures((session_name(i),), vals[i])
}

/// Builds the map of the session variables from their values.
fn vars_from_values(values: &Vec<Option<String>>) -> (r: StrMap<String>)
    requires
        values@.len() == SESSION_VAR_COUNT,
    ensures
        texts(r@) == set_vars(opt_texts(values@), SESSION_VAR_COUNT as int),
{
    let mut out: StrMap<String> = StrMap::new();
    let mut i: usize = 0;
    assert(texts(out@) =~= set_vars(opt_texts(values@), 0));
    while i < SESSION_VAR_COUNT
        invariant
            values@.len() == SESSION_VAR_COUNT,
            i <= SESSION_VAR_COUNT,
            texts(out@) == set_vars(opt_texts(values@), i as int),
        decreases SESSION_VAR_COUNT - i,
    {
        let ghost before = out@;
        let name = session_var(i);
        match &values[i] {
            Some(v) => {
                if v.as_str().unicode_len() > 0 {
                    out.insert(name, v.clone());
                    assert(texts(out@) =~= texts(before).insert(name@, v@));
                }
            },
            None => {},
        }
        i = i + 1;
    }
    out
}

/// Whether the map names a display server.
fn has_display(vars: &StrMap<String>) -> (r: bool)
    ensures
        r == knows_display(texts(vars@)),
{
    vars.get("DISPLAY").is_some() || vars.get("WAYLAND_DISPLAY").is_some()
}

/// The session variables from a name-to-value map (a parsed environment).
pub fn vars_from_env(env: &StrMap<String>) -> (r: StrMap<String>)
    ensures
        texts(r@) == vars_in(texts(env@)),
{
    let mut values: Vec<Option<String>> = Vec::new();
    let mut i: usize = 0;
    let ghost e = texts(env@);
    while i < SESSION_VAR_COUNT
        invariant
            e == texts(env@),
            i <= SESSION_VAR_COUNT,
            values@.len() == i,
            forall|j: int| 0 <= j < i ==> #[trigger] crate::ops::opt_string(values@[j]) == (if e.dom().contains(session_name(j)@) {
                Some(e[session_name(j)@])
            } else {
                None
            }),
        decreases SESSION_VAR_COUNT - i,
    {
        let name = session_var(i);
        match env.get(name) {
            Some(v) => values.push(Some(v.clone())),
            None => values.push(None),
        }
        i = i + 1;
    }
    let r = vars_from_values(&values);
    assert(opt_texts(values@) =~= Seq::new(
        SESSION_VAR_COUNT as nat,
        |i: int| if e.dom().contains(session_name(i)@) { Some(e[session_name(i)@]) } else { None },
    ));
    r
}

/// Pick the session variables: `own` (our environment) when it locates the
/// display, else what `systemd` reports. `systemd` is only called when
/// needed.
pub fn pick<O: Fn(&str) -> Option<String>, S: FnOnce() -> StrMap<String>>(own: O, systemd: S) -> (r: StrMap<String>)
    requires
        forall|n: &str| own.requires((n,)),
        systemd.requires(()),
    ensures
        exists|vals: Seq<Option<String>>| #![trigger own_answers(own, vals)] {
            &&& own_answers(own, vals)
            &&& knows_display(set_vars(opt_texts(vals), SESSION_VAR_COUNT as int))
                ==> texts(r@) == set_vars(opt_texts(vals), SESSION_VAR_COUNT as int)
            &&& !knows_display(set_vars(opt_texts(vals), SESSION_VAR_COUNT as int)) ==> exists|sd: StrMap<String>|
                systemd.ensures((), sd) && texts(r@) == vars_in(texts(sd@))
        },
{
    let mut values: Vec<Option<String>> = Vec::new();
    let mut i: usize = 0;
    while i < SESSION_VAR_COUNT
        invariant
            forall|n: &str| own.requires((n,)),
            i <= SESSION_VAR_COUNT,
            values@.len() == i,
            forall|j: int| 0 <= j < i ==> #[trigger] own.ensures((session_name(j),), values@[j]),
        decreases SESSION_VAR_COUNT - i,
    {
        let name = session_var(i);
        let v = own(name);
        values.push(v);
        i = i + 1;
    }
    assert(own_answers(own, values@));
    let mine = vars_from_values(&values);
    if has_display(&mine) {
        return mine;
    }
    let sd = systemd();
    vars_from_env(&sd)
}

/// The `NAME=value` pairs of `systemctl --user show-environment` output:
/// each line split at its first `=`, lines without one skipped, later
/// lines winning.
pub open spec fn env_pairs(ls: Seq<Seq<char>>) -> Map<Seq<char>, Seq<char>>
    decreases ls.len(),
{
    if ls.len() == 0 {
        Map::empty()
    } else {
        let m = env_pairs(ls.drop_last());
        let l = ls.last();
        let i = crate::text::find(l, seq!['='])
        ;
        if i < 0 { m } else { m.insert(l.subrange(0, i), l.subrange(i + 1, l.len() as int)) }
    }
}

/// Parse `systemctl --user show-environment` (`NAME=value` lines).
pub fn parse_environment(text: &str) -> (r: StrMap<String>)
    ensures
        texts(r@) == env_pairs(lines(text@)),
{
    let all = split_lines(&chars_of(text));
    let eq: Vec<char> = vec!['='];
    let mut out: StrMap<String> = StrMap::new();
    let mut i: usize = 0;
    let ghost ls = lines(text@);
    assert(texts(out@) =~= env_pairs(ls.subrange(0, 0)));
    while i < all.len()
        invariant
            eq@ == seq!['='],
            crate::text::seqs_of(all@) == ls,
            i <= all@.len(),
            texts(out@) == env_pairs(ls.subrange(0, i as int)),
        decreases all@.len() - i,
    {
        let line = &all[i];
        let ghost before = out@;
        assert(ls.subrange(0, i + 1).drop_last() =~= ls.subrange(0, i as int));
        assert(ls.subrange(0, i + 1).last() == line@);
        match find_in(line, &eq, 0) {
            Some(k) => {
                proof {
                    crate::text::lemma_find_bounds(line@, eq@, 0);
                }
                let n = line.len();
                assert(k + 1 <= n);
                let name = string_of(line, 0, k);
                let value = string_of(line, k + 1, n);
                out.insert(name.as_str(), value);
                assert(texts(out@) =~= texts(before).insert(name@, value@));
            },
            None => {},
        }
        i = i + 1;
    }
    assert(ls.subrange(0, all@.len() as int) =~= ls);
    out
}

} // verus!
