//! The configuration changes behind the operations that the web UI and the
//! tray both drive: naming and placing new transmitters and viewers, editing,
//! enabling and removing them, switching setups, and the per-child views the
//! dashboard shows.

use vstd::prelude::*;
use crate::config::{
    first_with_id, none_named, port_used, sanitized_setup_name, sanitize_setup_name, viewer_ids, Config,
    Emission, Reception, Setup, Ui, Viewer,
};
use crate::model::Transmitter;
use crate::naming::{first_free, is_first_free, numbered};
use crate::status::{state_in, state_of, Key, StatusTable};
use crate::supervisor::state_name;
use crate::text::{
    ascii_alnum, chars_of, is_ascii_alnum, str_eq, string_of, strings_of, trim, trimmed,
};

verus! {

/// `c` with ASCII capitals lowered.
pub open spec fn ascii_lower(c: char) -> char {
    if 'A' <= c && c <= 'Z' { ((c as u32) + 32) as char } else { c }
}

/// ASCII letters and digits stay (lowered), every run of other characters
/// becomes one `-`.
pub open spec fn lower_collapse(s: Seq<char>) -> Seq<char>
    decreases s.len(),
{
    if s.len() == 0 {
        seq![]
    } else {
        let o = lower_collapse(s.drop_last());
        if is_ascii_alnum(s.last()) {
            o.push(ascii_lower(s.last()))
        } else if o.len() > 0 && o.last() == '-' {
            o
        } else {
            o.push('-')
        }
    }
}

/// The transmitter-name form of `s`: lowercase, runs of other characters
/// collapsed to `-`, `-` trimmed from both ends.
pub open spec fn sanitized_tx_name(s: Seq<char>) -> Seq<char> {
    crate::text::trim_end_char(crate::text::trim_start_char(lower_collapse(s), '-'), '-')
}

/// The ASCII letters and digits of `s`, in order.
pub open spec fn alnum_chars(s: Seq<char>) -> Seq<char>
    decreases s.len(),
{
    if s.len() == 0 {
        seq![]
    } else {
        alnum_chars(s.drop_last()) + if is_ascii_alnum(s.last()) { seq![s.last()] } else { seq![] }
    }
}

/// `s` with A to Z turned into a to z, everything else kept.
pub open spec fn lowercase(s: Seq<char>) -> Seq<char> {
    s.map_values(|c: char| if 'A' <= c && c <= 'Z' { ((c as u32) + 32) as char } else { c })
}

proof fn lemma_alnum_chars_add(a: Seq<char>, b: Seq<char>)
    ensures
        alnum_chars(a + b) == alnum_chars(a) + alnum_chars(b),
    decreases b.len(),
{
    if b.len() == 0 {
        assert(a + b =~= a);
        assert(alnum_chars(a) + alnum_chars(b) =~= alnum_chars(a));
    } else {
        lemma_alnum_chars_add(a, b.drop_last());
        assert((a + b).drop_last() =~= a + b.drop_last());
        assert((a + b).last() == b.last());
        assert(alnum_chars(a + b) =~= alnum_chars(a) + alnum_chars(b));
    }
}

proof fn lemma_lower_keeps_alnum(c: char)
    requires
        is_ascii_alnum(c),
    ensures
        is_ascii_alnum(ascii_lower(c)),
        ascii_lower(c) == (if 'A' <= c && c <= 'Z' { ((c as u32) + 32) as char } else { c }),
{
    if 'A' <= c && c <= 'Z' {
        assert('a' <= ((c as u32) + 32) as char && ((c as u32) + 32) as char <= 'z');
    }
}

proof fn lemma_collapse_letters(s: Seq<char>)
    ensures
        alnum_chars(lower_collapse(s)) == lowercase(alnum_chars(s)),
    decreases s.len(),
{
    if s.len() > 0 {
        lemma_collapse_letters(s.drop_last());
        let o = lower_collapse(s.drop_last());
        let c = s.last();
        if is_ascii_alnum(c) {
            lemma_lower_keeps_alnum(c);
            assert(o.push(ascii_lower(c)).drop_last() =~= o);
            assert(lowercase(alnum_chars(s.drop_last()) + seq![c]) =~= lowercase(alnum_chars(s.drop_last())) + seq![
                ascii_lower(c),
            ]);
        } else {
            assert(o.push('-').drop_last() =~= o);
            assert(alnum_chars(s.drop_last()) + seq![] =~= alnum_chars(s.drop_last()));
            assert(alnum_chars(o) + seq![] =~= alnum_chars(o));
        }
    }
}

proof fn lemma_trim_keeps_letters(t: Seq<char>)
    ensures
        alnum_chars(crate::text::trim_start_char(t, '-')) == alnum_chars(t),
        alnum_chars(crate::text::trim_end_char(t, '-')) == alnum_chars(t),
    decreases t.len(),
{
    if t.len() > 0 {
        lemma_trim_keeps_letters(t.drop_first());
        lemma_trim_keeps_letters(t.drop_last());
        lemma_alnum_chars_add(seq![t[0]], t.drop_first());
        assert(seq![t[0]] + t.drop_first() =~= t);
        let one = seq![t[0]];
        assert(one.drop_last() =~= Seq::<char>::empty());
        assert(alnum_chars(Seq::<char>::empty()) == Seq::<char>::empty());
        if t[0] == '-' {
            assert(!is_ascii_alnum(one.last()));
            assert(alnum_chars(one) =~= Seq::<char>::empty());
            assert(alnum_chars(t) =~= alnum_chars(t.drop_first()));
        }
        if t.last() == '-' {
            assert(alnum_chars(t) =~= alnum_chars(t.drop_last()) + seq![]);
        }
    }
}

proof fn lemma_collapse_all_alnum(s: Seq<char>)
    requires
        forall|i: int| 0 <= i < s.len() ==> is_ascii_alnum(#[trigger] s[i]),
    ensures
        lower_collapse(s) == lowercase(s),
    decreases s.len(),
{
    if s.len() > 0 {
        lemma_collapse_all_alnum(s.drop_last());
        assert(is_ascii_alnum(s[s.len() - 1]));
        lemma_lower_keeps_alnum(s.last());
        assert(lowercase(s) =~= lowercase(s.drop_last()).push(ascii_lower(s.last())));
    }
}

/// Naming a transmitter keeps every ASCII letter and digit of the request, in
/// order, lowered: only the other characters are turned into dashes (and
/// edge dashes trimmed). A request made of letters and digits alone is
/// simply lowered.
pub proof fn lemma_tx_name_keeps_letters_and_digits(s: Seq<char>)
    ensures
        alnum_chars(sanitized_tx_name(s)) == lowercase(alnum_chars(s)),
        (forall|i: int| 0 <= i < s.len() ==> is_ascii_alnum(#[trigger] s[i])) ==> sanitized_tx_name(s) == lowercase(s),
{
    lemma_collapse_letters(s);
    let t = lower_collapse(s);
    lemma_trim_keeps_letters(t);
    lemma_trim_keeps_letters(crate::text::trim_start_char(t, '-'));
    if forall|i: int| 0 <= i < s.len() ==> is_ascii_alnum(#[trigger] s[i]) {
        lemma_collapse_all_alnum(s);
        let l = lowercase(s);
        if l.len() > 0 {
            lemma_lower_keeps_alnum(s[0]);
            lemma_lower_keeps_alnum(s[l.len() - 1]);
            assert(l[0] != '-');
            assert(l.last() != '-');
        }
        assert(crate::text::trim_start_char(l, '-') == l);
        assert(crate::text::trim_end_char(l, '-') == l);
    }
}

fn lower(c: char) -> (r: char)
    ensures
        r == ascii_lower(c),
{
    if 'A' <= c && c <= 'Z' {
        let b = c as u8;
        proof {
            assert((c as u32) + 32 == (b as u32) + 32);
        }
        (b + 32) as char
    } else {
        c
    }
}

/// Lowercase, collapse runs of non-alphanumerics to single `-`, trim edges.
pub fn sanitize_tx_name(s: &str) -> (r: String)
    ensures
        r@ == sanitized_tx_name(s@),
{
    let t = chars_of(s);
    let mut out: Vec<char> = Vec::new();
    let mut prev_dash = false;
    let mut i: usize = 0;
    while i < t.len()
        invariant
            i <= t@.len(),
            t@ == s@,
            out@ == lower_collapse(t@.subrange(0, i as int)),
            prev_dash == (out@.len() > 0 && out@.last() == '-'),
            forall|j: int| 0 <= j < out@.len() ==> #[trigger] out@[j] == '-' || is_ascii_alnum(out@[j]),
        decreases t@.len() - i,
    {
        let c = t[i];
        assert(t@.subrange(0, i + 1).drop_last() =~= t@.subrange(0, i as int));
        if ascii_alnum(c) {
            let l = lower(c);
            out.push(l);
            prev_dash = false;
            proof {
                assert(is_ascii_alnum(l));
                assert(l != '-');
            }
        } else if !prev_dash {
            out.push('-');
            prev_dash = true;
        }
        i = i + 1;
    }
    assert(t@.subrange(0, t@.len() as int) =~= t@);
    let a = crate::text::trim_start_char_index(&out, '-');
    let rest = crate::text::sub_vec(&out, a, out.len());
    let mut b = rest.len();
    assert(rest@.subrange(0, b as int) =~= rest@);
    while b > 0 && rest[b - 1] == '-'
        invariant
            b <= rest@.len(),
            crate::text::trim_end_char(rest@, '-') == crate::text::trim_end_char(rest@.subrange(0, b as int), '-'),
        decreases b,
    {
        assert(rest@.subrange(0, b as int).drop_last() =~= rest@.subrange(0, b - 1));
        b = b - 1;
    }
    string_of(&rest, 0, b)
}

/// The names of the transmitters of `s`, in order.
pub open spec fn tx_names(s: Seq<Transmitter>) -> Seq<Seq<char>> {
    s.map_values(|t: Transmitter| t.name@)
}

/// The stem a new transmitter's name starts from: the sanitized base, or
/// `tx` when nothing is left of it.
pub open spec fn name_stem(base: Seq<char>) -> Seq<char> {
    let c = sanitized_tx_name(base);
    if c.len() == 0 { "tx"@ } else { c }
}

/// The name a new transmitter gets: the stem when free, else the first free
/// `<stem>-<n>` from 2 up.
pub open spec fn is_unique_name_for(s: Seq<Transmitter>, base: Seq<char>, r: Seq<char>) -> bool {
    let c = name_stem(base);
    if none_named(s, c) {
        r == c
    } else {
        exists|n: nat| is_first_free(tx_names(s), c + "-"@, 2, n) && r == numbered(c + "-"@, n)
    }
}

/// A filesystem-safe, unique transmitter name derived from `base`.
pub fn unique_name(base: &str, emission: &Emission) -> (r: String)
    requires
        emission.transmitters@.len() < u64::MAX - 2,
    ensures
        is_unique_name_for(emission.transmitters@, base@, r@),
{
    let mut candidate = sanitize_tx_name(base);
    if candidate.as_str().unicode_len() == 0 {
        candidate = String::from_str("tx");
    }
    if emission.get(candidate.as_str()).is_none() {
        return candidate;
    }
    let mut names: Vec<String> = Vec::new();
    let mut i: usize = 0;
    while i < emission.transmitters.len()
        invariant
            i <= emission.transmitters@.len(),
            strings_of(names@) == tx_names(emission.transmitters@).subrange(0, i as int),
        decreases emission.transmitters@.len() - i,
    {
        let ghost prev = names@;
        names.push(emission.transmitters[i].name.clone());
        assert(strings_of(names@) =~= strings_of(prev).push(emission.transmitters@[i as int].name@));
        assert(tx_names(emission.transmitters@).subrange(0, i + 1) =~= tx_names(emission.transmitters@).subrange(
            0,
            i as int,
        ).push(emission.transmitters@[i as int].name@));
        i = i + 1;
    }
    assert(tx_names(emission.transmitters@).subrange(0, emission.transmitters@.len() as int) =~= tx_names(
        emission.transmitters@,
    ));
    let mut prefix = candidate.clone();
    crate::text::push_str(&mut prefix, "-");
    first_free(prefix.as_str(), &names, 2)
}

/// `q` was found taken: by a transmitter, or by the availability check.
pub open spec fn port_refused<F: Fn(u16) -> bool>(s: Seq<Transmitter>, is_free: F, q: u16) -> bool {
    port_used(s, q, None) || is_free.ensures((q,), false)
}

/// What a port allocation gives: the lowest port from the base that no
/// transmitter uses and that the probe found free, or the base itself when
/// every port up to the last was refused.
pub open spec fn is_allocation<F: Fn(u16) -> bool>(e: Emission, is_free: F, r: u16) -> bool {
    ||| (e.base_port <= r && !port_used(e.transmitters@, r, None) && is_free.ensures((r,), true)
        && forall|q: u16| e.base_port <= q < r ==> port_refused(e.transmitters@, is_free, q))
    ||| (r == e.base_port && forall|q: u16| e.base_port <= q ==> port_refused(e.transmitters@, is_free, q))
}

/// Pick a control-plane port for a new transmitter: the lowest port at or
/// above `base_port` that no transmitter uses and that `port_is_available`
/// (a bind attempt) accepts; the base port when none is left, including when
/// every port left above the scan is held by a transmitter.
pub fn allocate_port<F: Fn(u16) -> bool>(emission: &Emission, port_is_available: &F) -> (r: u16)
    requires
        forall|p: u16| port_is_available.requires((p,)),
    ensures
        is_allocation(*emission, *port_is_available, r),
{
    let base = emission.base_port;
    let mut port = base;
    loop
        invariant
            base == emission.base_port,
            base <= port,
            forall|p: u16| port_is_available.requires((p,)),
            forall|q: u16| base <= q < port ==> port_refused(emission.transmitters@, *port_is_available, q),
        decreases u16::MAX - port,
    {
        if !emission.port_in_use(port, None) {
            if port_is_available(port) {
                return port;
            }
        }
        if port == u16::MAX {
            return base;
        }
        port = port + 1;
    }
}

/// The port a new transmitter gets: an explicit non-zero request when no
/// transmitter uses it (`None` when one does), else an allocated one.
pub fn resolve_port<F: Fn(u16) -> bool>(emission: &Emission, requested: Option<u16>, port_is_available: &F) -> (r: Option<u16>)
    requires
        forall|p: u16| port_is_available.requires((p,)),
    ensures
        match requested {
            Some(p) if p != 0 => if port_used(emission.transmitters@, p, None) { r is None } else { r == Some(p) },
            _ => r matches Some(q) && is_allocation(*emission, *port_is_available, q),
        },
{
    match requested {
        Some(p) => {
            if p != 0 {
                if emission.port_in_use(p, None) {
                    None
                } else {
                    Some(p)
                }
            } else {
                Some(allocate_port(emission, port_is_available))
            }
        },
        None => Some(allocate_port(emission, port_is_available)),
    }
}

/// A viewer id is non-empty and only ASCII letters, digits and `-` (it is a
/// URL segment and a log file name).
pub open spec fn is_valid_viewer_id_text(s: Seq<char>) -> bool {
    s.len() > 0 && forall|i: int| 0 <= i < s.len() ==> is_ascii_alnum(#[trigger] s[i]) || s[i] == '-'
}

/// `true` if `s` is safe as a viewer id.
pub fn is_valid_viewer_id(s: &str) -> (r: bool)
    ensures
        r == is_valid_viewer_id_text(s@),
{
    let v = chars_of(s);
    if v.len() == 0 {
        return false;
    }
    let mut i: usize = 0;
    while i < v.len()
        invariant
            v@ == s@,
            i <= v@.len(),
            forall|j: int| 0 <= j < i ==> is_ascii_alnum(#[trigger] v@[j]) || v@[j] == '-',
        decreases v@.len() - i,
    {
        if !(ascii_alnum(v[i]) || v[i] == '-') {
            return false;
        }
        i = i + 1;
    }
    true
}

/// Some viewer other than the one with id `current` has id `id`.
pub open spec fn id_taken(s: Seq<Viewer>, id: Seq<char>, current: Option<Seq<char>>) -> bool {
    exists|i: int| 0 <= i < s.len() && #[trigger] s[i].id@ == id && !(current matches Some(c) && s[i].id@ == c)
}

/// The id a viewer gets: the trimmed request when valid and free, else the
/// current id (on update), else the first free `viewer-<n>` (on create).
pub open spec fn is_resolved_viewer_id(
    s: Seq<Viewer>,
    requested: Option<Seq<char>>,
    current: Option<Seq<char>>,
    r: Seq<char>,
) -> bool {
    if requested matches Some(q) && trim(q).len() > 0 && is_valid_viewer_id_text(trim(q)) && !id_taken(s, trim(q), current) {
        r == trim(requested.unwrap())
    } else {
        match current {
            Some(c) => r == c,
            None => exists|n: nat| is_first_free(viewer_ids(s), "viewer-"@, 1, n) && r == numbered("viewer-"@, n),
        }
    }
}

fn viewer_id_taken(reception: &Reception, id: &str, current: Option<&str>) -> (r: bool)
    ensures
        r == id_taken(reception.viewers@, id@, crate::model::opt_view(current)),
{
    let mut i: usize = 0;
    while i < reception.viewers.len()
        invariant
            i <= reception.viewers@.len(),
            forall|j: int| 0 <= j < i ==> !(#[trigger] reception.viewers@[j].id@ == id@ && !(
                crate::model::opt_view(current) matches Some(c) && reception.viewers@[j].id@ == c)),
        decreases reception.viewers@.len() - i,
    {
        let v = &reception.viewers[i];
        if str_eq(v.id.as_str(), id) {
            let is_current = match current {
                Some(c) => str_eq(v.id.as_str(), c),
                None => false,
            };
            if !is_current {
                return true;
            }
        }
        i = i + 1;
    }
    false
}

/// The view of an optional string.
pub open spec fn opt_string(v: Option<String>) -> Option<Seq<char>> {
    match v {
        Some(s) => Some(s@),
        None => None,
    }
}

/// Resolve the id of a viewer: an explicit, valid, unique `requested` id
/// wins; otherwise keep `current` (on update) or allocate `viewer-N`.
pub fn resolve_viewer_id(reception: &Reception, requested: Option<String>, current: Option<&str>) -> (r: String)
    requires
        reception.viewers@.len() < u64::MAX - 1,
    ensures
        is_resolved_viewer_id(reception.viewers@, opt_string(requested), crate::model::opt_view(current), r@),
{
    if let Some(req) = requested {
        let t = trimmed(&chars_of(req.as_str()));
        if t.len() > 0 {
            let q = string_of(&t, 0, t.len());
            assert(t@.subrange(0, t@.len() as int) =~= t@);
            if is_valid_viewer_id(q.as_str()) && !viewer_id_taken(reception, q.as_str(), current) {
                return q;
            }
        }
    }
    match current {
        Some(c) => String::from_str(c),
        None => reception.unique_id(),
    }
}

/// A requested Spout sender name: trimmed, and none when that leaves nothing.
pub open spec fn normalized_spout(requested: Option<Seq<char>>) -> Option<Seq<char>> {
    match requested {
        Some(s) => if trim(s).len() > 0 { Some(trim(s)) } else { None },
        None => None,
    }
}

/// Normalize a requested Spout sender name: trim, treat empty as no Spout.
pub fn normalize_spout(requested: Option<String>) -> (r: Option<String>)
    ensures
        opt_string(r) == normalized_spout(opt_string(requested)),
{
    match requested {
        Some(s) => {
            let t = trimmed(&chars_of(s.as_str()));
            assert(t@.subrange(0, t@.len() as int) =~= t@);
            if t.len() > 0 {
                Some(string_of(&t, 0, t.len()))
            } else {
                None
            }
        },
        None => None,
    }
}

/// The Spout relay a viewer ends up with: none under remote control (the
/// two are exclusive), else the normalized request.
pub open spec fn viewer_spout(remote_control: bool, spout_out: Option<Seq<char>>) -> Option<Seq<char>> {
    if remote_control { None } else { normalized_spout(spout_out) }
}

/// Everything but the viewer list is the same in `a` and `b`: the login and
/// the passive-display switches apply to every viewer and no viewer edit
/// touches them.
pub open spec fn same_reception_globals(a: Reception, b: Reception) -> bool {
    &&& a.auth_username == b.auth_username
    &&& a.auth_password == b.auth_password
    &&& a.forward_inputs == b.forward_inputs
    &&& a.audio == b.audio
    &&& a.keyboard_grab == b.keyboard_grab
    &&& a.tls_tofu == b.tls_tofu
}

/// The viewers of `s` except those with id `id`, in order.
pub open spec fn without_viewer(s: Seq<Viewer>, id: Seq<char>) -> Seq<Viewer> {
    s.filter(|v: Viewer| v.id@ != id)
}

/// The transmitters of `s` except those named `name`, in order.
pub open spec fn without_transmitter(s: Seq<Transmitter>, name: Seq<char>) -> Seq<Transmitter> {
    s.filter(|t: Transmitter| t.name@ != name)
}

/// What happens to a viewer's running child after its fields were edited.
#[derive(Debug, Clone, Copy, PartialEq, Eq)]
pub enum Relaunch {
    /// Leave it alone: the viewer is disabled and kept its id.
    Nothing,
    /// Restart it with the new fields.
    Restart,
    /// Stop the child of the old id (its log is the old id's), then start the
    /// renamed viewer when `start`.
    Replace { start: bool },
}

/// The relaunch an edit calls for: a renamed viewer replaces its old child,
/// starting again only when enabled; an enabled one is restarted.
pub fn relaunch_after_update(renamed: bool, enabled: bool) -> (r: Relaunch)
    ensures
        r == if renamed {
            Relaunch::Replace { start: enabled }
        } else if enabled {
            Relaunch::Restart
        } else {
            Relaunch::Nothing
        },
{
    if renamed {
        Relaunch::Replace { start: enabled }
    } else if enabled {
        Relaunch::Restart
    } else {
        Relaunch::Nothing
    }
}

impl Reception {
    /// Create a viewer from an operator request and append it, enabled: the id
    /// resolved as [`resolve_viewer_id`] does on create, the Spout relay
    /// dropped under remote control.
    pub fn add_viewer(
        &mut self,
        requested_id: Option<String>,
        server: String,
        port: u16,
        fullscreen: bool,
        spout_out: Option<String>,
        remote_control: bool,
    )
        requires
            old(self).viewers@.len() < u64::MAX - 1,
        ensures
            final(self).viewers@.len() == old(self).viewers@.len() + 1,
            final(self).viewers@.subrange(0, old(self).viewers@.len() as int) == old(self).viewers@,
            ({
                let v = final(self).viewers@.last();
                &&& is_resolved_viewer_id(old(self).viewers@, opt_string(requested_id), None, v.id@)
                &&& v.server@ == server@
                &&& v.port == port
                &&& v.fullscreen == fullscreen
                &&& opt_string(v.spout_out) == viewer_spout(remote_control, opt_string(spout_out))
                &&& v.remote_control == remote_control
                &&& v.enabled
            }),
            final(self).auth_username == old(self).auth_username,
            final(self).auth_password == old(self).auth_password,
            final(self).forward_inputs == old(self).forward_inputs,
            final(self).audio == old(self).audio,
            final(self).keyboard_grab == old(self).keyboard_grab,
            final(self).tls_tofu == old(self).tls_tofu,
    {
        let id = resolve_viewer_id(self, requested_id, None);
        let spout = if remote_control { None } else { normalize_spout(spout_out) };
        let viewer = Viewer { id, server, port, fullscreen, spout_out: spout, remote_control, enabled: true };
        self.viewers.push(viewer);
        assert(self.viewers@.subrange(0, old(self).viewers@.len() as int) =~= old(self).viewers@);
    }

    /// Apply edited fields to the viewer `id`, possibly renaming it to
    /// `new_id` (kept when invalid or taken). `None` when no viewer has that
    /// id; else whether it was renamed.
    pub fn update_viewer(
        &mut self,
        id: &str,
        new_id: Option<String>,
        server: String,
        port: u16,
        fullscreen: bool,
        spout_out: Option<String>,
        remote_control: bool,
    ) -> (r: Option<bool>)
        requires
            old(self).viewers@.len() < u64::MAX - 1,
        ensures
            match r {
                None => {
                    &&& forall|j: int| 0 <= j < old(self).viewers@.len() ==> old(self).viewers@[j].id@ != id@
                    &&& final(self).viewers@ == old(self).viewers@
                },
                Some(renamed) => exists|i: int| #![trigger first_with_id(old(self).viewers@, id@, i)] {
                    let v = final(self).viewers@[i];
                    &&& first_with_id(old(self).viewers@, id@, i)
                    &&& final(self).viewers@.len() == old(self).viewers@.len()
                    &&& forall|j: int| 0 <= j < old(self).viewers@.len() && j != i ==> final(self).viewers@[j] == old(
                        self,
                    ).viewers@[j]
                    &&& is_resolved_viewer_id(old(self).viewers@, opt_string(new_id), Some(id@), v.id@)
                    &&& renamed == (v.id@ != id@)
                    &&& v.server@ == server@
                    &&& v.port == port
                    &&& v.fullscreen == fullscreen
                    &&& opt_string(v.spout_out) == viewer_spout(remote_control, opt_string(spout_out))
                    &&& v.remote_control == remote_control
                    &&& v.enabled == old(self).viewers@[i].enabled
                },
            },
            same_reception_globals(*final(self), *old(self)),
    {
        if self.get(id).is_none() {
            return None;
        }
        let target = resolve_viewer_id(self, new_id, Some(id));
        let renamed = !str_eq(target.as_str(), id);
        let spout = if remote_control { None } else { normalize_spout(spout_out) };
        let ghost before = self.viewers@;
        match self.get_mut(id) {
            Some(v) => {
                v.server = server;
                v.port = port;
                v.fullscreen = fullscreen;
                v.spout_out = spout;
                v.remote_control = remote_control;
                v.id = target;
            },
            None => {},
        }
        Some(renamed)
    }

    /// Mark the viewer `id` enabled or not; `false` when there is none.
    pub fn set_viewer_enabled(&mut self, id: &str, enabled: bool) -> (r: bool)
        ensures
            r ==> exists|i: int| {
                &&& first_with_id(old(self).viewers@, id@, i)
                &&& final(self).viewers@ == old(self).viewers@.update(i, Viewer { enabled, ..old(self).viewers@[i] })
            },
            !r ==> {
                &&& forall|j: int| 0 <= j < old(self).viewers@.len() ==> old(self).viewers@[j].id@ != id@
                &&& final(self).viewers@ == old(self).viewers@
            },
            same_reception_globals(*final(self), *old(self)),
    {
        match self.get_mut(id) {
            Some(v) => {
                v.enabled = enabled;
                true
            },
            None => false,
        }
    }

    /// Forget every viewer with id `id`.
    pub fn remove_viewer(&mut self, id: &str)
        ensures
            final(self).viewers@ == without_viewer(old(self).viewers@, id@),
            same_reception_globals(*final(self), *old(self)),
    {
        let ghost orig = self.viewers@;
        let mut rest: Vec<Viewer> = Vec::new();
        std::mem::swap(&mut rest, &mut self.viewers);
        let mut kept: Vec<Viewer> = Vec::new();
        let ghost mut k: int = 0;
        proof {
            reveal(Seq::filter);
        }
        while rest.len() > 0
            invariant
                0 <= k <= orig.len(),
                rest@ == orig.subrange(k, orig.len() as int),
                kept@ == without_viewer(orig.subrange(0, k), id@),
            decreases rest@.len(),
        {
            let v = rest.remove(0);
            proof {
                assert(orig.subrange(0, k + 1).drop_last() =~= orig.subrange(0, k));
                assert(orig.subrange(0, k + 1).last() == v);
                reveal(Seq::filter);
                assert(without_viewer(orig.subrange(0, k + 1), id@) == if v.id@ != id@ {
                    without_viewer(orig.subrange(0, k), id@).push(v)
                } else {
                    without_viewer(orig.subrange(0, k), id@)
                });
            }
            if !str_eq(v.id.as_str(), id) {
                kept.push(v);
            }
            proof {
                k = k + 1;
                assert(rest@ =~= orig.subrange(k, orig.len() as int));
            }
        }
        assert(orig.subrange(0, orig.len() as int) =~= orig);
        self.viewers = kept;
    }
}

impl Emission {
    /// Forget every transmitter named `name`.
    pub fn remove_transmitter(&mut self, name: &str)
        ensures
            final(self).transmitters@ == without_transmitter(old(self).transmitters@, name@),
            final(self).base_port == old(self).base_port,
            final(self).defaults == old(self).defaults,
    {
        let ghost orig = self.transmitters@;
        let mut rest: Vec<Transmitter> = Vec::new();
        std::mem::swap(&mut rest, &mut self.transmitters);
        let mut kept: Vec<Transmitter> = Vec::new();
        let ghost mut k: int = 0;
        proof {
            reveal(Seq::filter);
        }
        while rest.len() > 0
            invariant
                0 <= k <= orig.len(),
                rest@ == orig.subrange(k, orig.len() as int),
                kept@ == without_transmitter(orig.subrange(0, k), name@),
            decreases rest@.len(),
        {
            let t = rest.remove(0);
            proof {
                assert(orig.subrange(0, k + 1).drop_last() =~= orig.subrange(0, k));
                assert(orig.subrange(0, k + 1).last() == t);
                reveal(Seq::filter);
                assert(without_transmitter(orig.subrange(0, k + 1), name@) == if t.name@ != name@ {
                    without_transmitter(orig.subrange(0, k), name@).push(t)
                } else {
                    without_transmitter(orig.subrange(0, k), name@)
                });
            }
            if !str_eq(t.name.as_str(), name) {
                kept.push(t);
            }
            proof {
                k = k + 1;
                assert(rest@ =~= orig.subrange(k, orig.len() as int));
            }
        }
        assert(orig.subrange(0, orig.len() as int) =~= orig);
        self.transmitters = kept;
    }
}

impl Ui {
    /// Update the preferences; absent fields keep their current value.
    pub fn apply_prefs(&mut self, theme: Option<String>, lang: Option<String>)
        ensures
            final(self).theme@ == match theme {
                Some(t) => t@,
                None => old(self).theme@,
            },
            final(self).lang@ == match lang {
                Some(l) => l@,
                None => old(self).lang@,
            },
    {
        if let Some(t) = theme {
            self.theme = t;
        }
        if let Some(l) = lang {
            self.lang = l;
        }
    }
}

impl Config {
    /// Make `setup`, read from the document `name`, the active one: its two
    /// halves replace the current ones; the machine settings stay.
    pub fn switch_setup(&mut self, name: &str, setup: Setup)
        ensures
            final(self).active_setup@ == name@,
            final(self).emission == setup.emission,
            final(self).reception == setup.reception,
            final(self).kyber_install_dir == old(self).kyber_install_dir,
            final(self).kyclient_path == old(self).kyclient_path,
            final(self).web_port == old(self).web_port,
            final(self).ui == old(self).ui,
    {
        self.active_setup = String::from_str(name);
        self.emission = setup.emission;
        self.reception = setup.reception;
    }

    /// Point the configuration at a new setup document named after the
    /// request ("Save as"): the sanitized name, `None` when nothing is left of
    /// it (and nothing changes).
    pub fn rename_active(&mut self, name: &str) -> (r: Option<String>)
        ensures
            match r {
                Some(n) => {
                    &&& n@ == sanitized_setup_name(name@)
                    &&& n@.len() > 0
                    &&& final(self).active_setup@ == n@
                },
                None => sanitized_setup_name(name@).len() == 0 && final(self).active_setup == old(self).active_setup,
            },
            final(self).emission == old(self).emission,
            final(self).reception == old(self).reception,
            final(self).kyber_install_dir == old(self).kyber_install_dir,
            final(self).kyclient_path == old(self).kyclient_path,
            final(self).web_port == old(self).web_port,
            final(self).ui == old(self).ui,
    {
        let n = sanitize_setup_name(name);
        if n.as_str().unicode_len() == 0 {
            return None;
        }
        self.active_setup = n.clone();
        Some(n)
    }
}

/// The name an imported setup is stored under: the sanitized request, `None`
/// when nothing is left of it.
pub fn import_name(requested: &str) -> (r: Option<String>)
    ensures
        match r {
            Some(n) => n@ == sanitized_setup_name(requested@) && n@.len() > 0,
            None => sanitized_setup_name(requested@).len() == 0,
        },
{
    let n = sanitize_setup_name(requested);
    if n.as_str().unicode_len() == 0 { None } else { Some(n) }
}

/// The status text of a child: its state's name in a status snapshot, or
/// `absent` when no snapshot could be taken.
pub fn status_text(snapshot: Option<&StatusTable>, key: &Key, absent: &'static str) -> (r: &'static str)
    ensures
        r@ == match snapshot {
            Some(m) => state_name(state_in(m@, key@)),
            None => absent@,
        },
{
    match snapshot {
        Some(m) => state_of(m, key).as_str(),
        None => absent,
    }
}

/// One viewer as the dashboard shows it.
#[derive(Debug)]
pub struct ViewerView {
    pub id: String,
    pub server: String,
    pub port: u16,
    pub fullscreen: bool,
    pub spout_out: Option<String>,
    pub remote_control: bool,
    pub enabled: bool,
    pub status: &'static str,
}

impl ViewerView {
    /// The dashboard entry of `v` in state `status`.
    pub fn of(v: &Viewer, status: &'static str) -> (r: ViewerView)
        ensures
            r.id == v.id,
            r.server == v.server,
            r.port == v.port,
            r.fullscreen == v.fullscreen,
            r.spout_out == v.spout_out,
            r.remote_control == v.remote_control,
            r.enabled == v.enabled,
            r.status == status,
    {
        ViewerView {
            id: v.id.clone(),
            server: v.server.clone(),
            port: v.port,
            fullscreen: v.fullscreen,
            spout_out: v.spout_out.clone(),
            remote_control: v.remote_control,
            enabled: v.enabled,
            status,
        }
    }
}

} // verus!
