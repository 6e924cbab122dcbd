//! DNS-SD discovery of the LAN's transmitters: what each machine announces
//! for its transmitters, which registrations a change makes stale, how an
//! announcement heard on the LAN is shown, and the order the list is shown in.

use vstd::prelude::*;
use crate::model::{Source, Transmitter};
use crate::ops::{ascii_lower, opt_string};
use crate::strmap::StrMap;
use crate::text::{chars_of, ends_with, push_str, str_eq, string_of, strings_of, sub_vec, vec_ends_with, lit};
use crate::text::{lemma_text_lt_irreflexive, lemma_text_lt_transitive, text_less, text_lt};

verus! {

/// The DNS-SD service type every KyberFrog announces and browses.
pub const SERVICE_TYPE: &'static str = "_kyber._tcp.local.";

/// What one transmitter announces.
#[derive(Debug)]
pub struct ServiceSpec {
    /// DNS-SD instance name, `<transmitter>@<hostname>`.
    pub instance: String,
    pub port: u16,
    /// TXT records: version, transmitter name, source kind.
    pub txt: Vec<(String, String)>,
}

/// The fully-qualified name of instance `instance`.
pub open spec fn fullname_of(instance: Seq<char>) -> Seq<char> {
    instance + "."@ + SERVICE_TYPE@
}

impl ServiceSpec {
    /// The fully-qualified service name registrations are keyed by.
    pub fn fullname(&self) -> (r: String)
        ensures
            r@ == fullname_of(self.instance@),
    {
        let mut s = String::new();
        push_str(&mut s, self.instance.as_str());
        push_str(&mut s, ".");
        push_str(&mut s, SERVICE_TYPE);
        s
    }
}

/// The TXT `kind` value of a source.
pub open spec fn kind_name(s: Source) -> Seq<char> {
    match s {
        Source::Spout { .. } => "spout"@,
        Source::Screen {} => "screen"@,
        Source::Camera { .. } => "camera"@,
        Source::All {} => "all"@,
    }
}

/// The TXT `kind` value of a source.
pub fn source_kind(source: &Source) -> (r: &'static str)
    ensures
        r@ == kind_name(*source),
{
    match source {
        Source::Spout { .. } => "spout",
        Source::Screen {} => "screen",
        Source::Camera { .. } => "camera",
        Source::All {} => "all",
    }
}

/// The instance name of transmitter `name` on `hostname`.
pub open spec fn instance_name(name: Seq<char>, hostname: Seq<char>) -> Seq<char> {
    name + "@"@ + hostname
}

/// The TXT records as pairs of texts.
pub open spec fn txt_view(t: Seq<(String, String)>) -> Seq<(Seq<char>, Seq<char>)> {
    t.map_values(|p: (String, String)| (p.0@, p.1@))
}

/// The announcement of transmitter `t` from `hostname`, KyberFrog `version`.
pub open spec fn is_service_of(s: ServiceSpec, t: Transmitter, hostname: Seq<char>, version: Seq<char>) -> bool {
    &&& s.instance@ == instance_name(t.name@, hostname)
    &&& s.port == t.port
    &&& txt_view(s.txt@) == seq![("version"@, version), ("tx"@, t.name@), ("kind"@, kind_name(t.source))]
}

fn pair(a: &str, b: &str) -> (r: (String, String))
    ensures
        r.0@ == a@,
        r.1@ == b@,
{
    (String::from_str(a), String::from_str(b))
}

/// The announcements for `transmitters` from `hostname`, one per transmitter
/// in order.
pub fn desired_services(transmitters: &Vec<Transmitter>, hostname: &str, version: &str) -> (r: Vec<ServiceSpec>)
    ensures
        r@.len() == transmitters@.len(),
        forall|i: int| 0 <= i < r@.len() ==> is_service_of(#[trigger] r@[i], transmitters@[i], hostname@, version@),
{
    let mut out: Vec<ServiceSpec> = Vec::new();
    let mut i: usize = 0;
    while i < transmitters.len()
        invariant
            i <= transmitters@.len(),
            out@.len() == i,
            forall|j: int| 0 <= j < i ==> is_service_of(#[trigger] out@[j], transmitters@[j], hostname@, version@),
        decreases transmitters@.len() - i,
    {
        let t = &transmitters[i];
        let mut instance = String::new();
        push_str(&mut instance, t.name.as_str());
        push_str(&mut instance, "@");
        push_str(&mut instance, hostname);
        let mut txt: Vec<(String, String)> = Vec::new();
        txt.push(pair("version", version));
        txt.push(pair("tx", t.name.as_str()));
        txt.push(pair("kind", source_kind(&t.source)));
        let spec = ServiceSpec { instance, port: t.port, txt };
        assert(txt_view(spec.txt@) =~= seq![("version"@, version@), ("tx"@, t.name@), ("kind"@, kind_name(t.source))]);
        out.push(spec);
        i = i + 1;
    }
    out
}

/// Transmitters of the same name announced from two different machines get
/// different instance names.
pub proof fn lemma_instances_differ_across_machines(name: Seq<char>, host_a: Seq<char>, host_b: Seq<char>)
    requires
        host_a != host_b,
    ensures
        instance_name(name, host_a) != instance_name(name, host_b),
{
    let p = name + "@"@;
    if instance_name(name, host_a) == instance_name(name, host_b) {
        assert((p + host_a).subrange(p.len() as int, (p + host_a).len() as int) =~= host_a);
        assert((p + host_b).subrange(p.len() as int, (p + host_b).len() as int) =~= host_b);
    }
}

/// The port the last announcement named `fullname` uses, if any.
pub open spec fn desired_port(specs: Seq<ServiceSpec>, fullname: Seq<char>) -> Option<u16>
    decreases specs.len(),
{
    if specs.len() == 0 {
        None
    } else if fullname_of(specs.last().instance@) == fullname {
        Some(specs.last().port)
    } else {
        desired_port(specs.drop_last(), fullname)
    }
}

fn desired_port_of(specs: &Vec<ServiceSpec>, fullname: &str) -> (r: Option<u16>)
    ensures
        r == desired_port(specs@, fullname@),
{
    let mut i = specs.len();
    assert(specs@.subrange(0, i as int) =~= specs@);
    while i > 0
        invariant
            i <= specs@.len(),
            desired_port(specs@, fullname@) == desired_port(specs@.subrange(0, i as int), fullname@),
        decreases i,
    {
        let f = specs[i - 1].fullname();
        assert(specs@.subrange(0, i as int).drop_last() =~= specs@.subrange(0, i - 1));
        if str_eq(f.as_str(), fullname) {
            return Some(specs[i - 1].port);
        }
        i = i - 1;
    }
    None
}

/// The registrations `registered` holds that `desired` no longer wants, in
/// registration order: gone, or announced on another port.
pub open spec fn stale_of(pairs: Seq<(String, u16)>, specs: Seq<ServiceSpec>) -> Seq<Seq<char>>
    decreases pairs.len(),
{
    if pairs.len() == 0 {
        seq![]
    } else {
        let rest = stale_of(pairs.drop_last(), specs);
        let p = pairs.last();
        if desired_port(specs, p.0@) != Some(p.1) { rest.push(p.0@) } else { rest }
    }
}

/// The fully-qualified names to unregister so the announced set can match
/// `desired`.
pub fn stale_registrations(registered: &StrMap<u16>, desired: &Vec<ServiceSpec>) -> (r: Vec<String>)
    ensures
        strings_of(r@) == stale_of(registered.pairs(), desired@),
{
    let mut out: Vec<String> = Vec::new();
    let mut i: usize = 0;
    let n = registered.entry_count();
    while i < n
        invariant
            n == registered.pairs().len(),
            i <= n,
            strings_of(out@) == stale_of(registered.pairs().subrange(0, i as int), desired@),
        decreases n - i,
    {
        let name = registered.key_at(i);
        let port = *registered.value_at(i);
        let ghost before = out@;
        assert(registered.pairs().subrange(0, i + 1).drop_last() =~= registered.pairs().subrange(0, i as int));
        if desired_port_of(desired, name) != Some(port) {
            out.push(String::from_str(name));
            assert(strings_of(out@) =~= strings_of(before).push(name@));
        }
        i = i + 1;
    }
    assert(registered.pairs().subrange(0, n as int) =~= registered.pairs());
    out
}

/// One emitter instance heard on the LAN, as served to the UI.
#[derive(Debug)]
pub struct DiscoveredInstance {
    /// Transmitter name (the TXT `tx` value, else the instance name).
    pub name: String,
    /// Announcing machine, bare (no `.local.` suffix).
    pub host: String,
    /// Addresses to reach it, IPv4 first.
    pub addrs: Vec<String>,
    /// The transmitter's control-plane port.
    pub port: u16,
    /// KyberFrog version of the announcer (TXT `version`).
    pub version: Option<String>,
    /// Source kind (TXT `kind`).
    pub kind: Option<String>,
    /// The announcer is this very machine.
    pub is_self: bool,
}

/// `s` without every trailing repetition of `p`.
pub open spec fn strip_all_suffix(s: Seq<char>, p: Seq<char>) -> Seq<char>
    decreases s.len(),
{
    if p.len() > 0 && ends_with(s, p) {
        strip_all_suffix(s.subrange(0, s.len() - p.len()), p)
    } else {
        s
    }
}

/// The bare host name of an announcement's host: trailing dots, `.local`
/// suffixes and dots again trimmed.
pub open spec fn bare_host(hostname: Seq<char>) -> Seq<char> {
    crate::text::trim_end_char(
        strip_all_suffix(crate::text::trim_end_char(hostname, '.'), ".local"@),
        '.',
    )
}

/// The instance part of a fully-qualified name.
pub open spec fn instance_of(fullname: Seq<char>) -> Seq<char> {
    let suffix = "."@ + SERVICE_TYPE@;
    if ends_with(fullname, suffix) { fullname.subrange(0, fullname.len() - suffix.len()) } else { fullname }
}

/// Equal ignoring ASCII case.
pub open spec fn same_ignoring_case(a: Seq<char>, b: Seq<char>) -> bool {
    a.len() == b.len() && forall|i: int| 0 <= i < a.len() ==> ascii_lower(#[trigger] a[i]) == ascii_lower(b[i])
}

/// The addresses of `addrs` (flagged IPv4 or not), IPv4 first, each group in
/// its order.
pub open spec fn v4_first(addrs: Seq<(bool, String)>) -> Seq<Seq<char>> {
    addrs.filter(|a: (bool, String)| a.0).map_values(|a: (bool, String)| a.1@)
        + addrs.filter(|a: (bool, String)| !a.0).map_values(|a: (bool, String)| a.1@)
}

fn strip_end_char(v: Vec<char>, c: char) -> (r: Vec<char>)
    ensures
        r@ == crate::text::trim_end_char(v@, c),
{
    let mut j: usize = v.len();
    assert(v@.subrange(0, j as int) =~= v@);
    while j > 0 && v[j - 1] == c
        invariant
            j <= v@.len(),
            crate::text::trim_end_char(v@, c) == crate::text::trim_end_char(v@.subrange(0, j as int), c),
        decreases j,
    {
        assert(v@.subrange(0, j as int).drop_last() =~= v@.subrange(0, j - 1));
        j = j - 1;
    }
    sub_vec(&v, 0, j)
}

fn strip_suffixes(v: Vec<char>, p: &Vec<char>) -> (r: Vec<char>)
    ensures
        r@ == strip_all_suffix(v@, p@),
    decreases v@.len(),
{
    if p.len() > 0 && vec_ends_with(&v, p) {
        let rest = sub_vec(&v, 0, v.len() - p.len());
        strip_suffixes(rest, p)
    } else {
        v
    }
}

fn lower(c: char) -> (r: char)
    ensures
        r == ascii_lower(c),
{
    if 'A' <= c && c <= 'Z' {
        let b = c as u8;
        proof {
            assert((c as u32) + 32 == (b as u32) + 32);
        }
        (b + 32) as char
    } else {
        c
    }
}

/// Whether `a` and `b` are equal ignoring ASCII case.
pub fn eq_ignore_ascii_case(a: &str, b: &str) -> (r: bool)
    ensures
        r == same_ignoring_case(a@, b@),
{
    let x = chars_of(a);
    let y = chars_of(b);
    if x.len() != y.len() {
        return false;
    }
    let mut i: usize = 0;
    while i < x.len()
        invariant
            x@ == a@,
            y@ == b@,
            x@.len() == y@.len(),
            i <= x@.len(),
            forall|j: int| 0 <= j < i ==> ascii_lower(#[trigger] x@[j]) == ascii_lower(y@[j]),
        decreases x@.len() - i,
    {
        if lower(x[i]) != lower(y[i]) {
            return false;
        }
        i = i + 1;
    }
    true
}

/// Map one resolved announcement (its fully-qualified name, host name,
/// addresses flagged IPv4 or not, port and TXT values) to the UI shape.
pub fn resolved_instance(
    fullname: &str,
    hostname: &str,
    addrs: &Vec<(bool, String)>,
    port: u16,
    tx: Option<String>,
    version: Option<String>,
    kind: Option<String>,
    our_hostname: &str,
) -> (r: DiscoveredInstance)
    ensures
        r.name@ == match tx {
            Some(t) => t@,
            None => instance_of(fullname@),
        },
        r.host@ == bare_host(hostname@),
        strings_of(r.addrs@) == v4_first(addrs@),
        r.port == port,
        opt_string(r.version) == opt_string(version),
        opt_string(r.kind) == opt_string(kind),
        r.is_self == same_ignoring_case(bare_host(hostname@), our_hostname@),
{
    let full = chars_of(fullname);
    let mut suffix = lit(".");
    let st = lit(SERVICE_TYPE);
    let mut k: usize = 0;
    while k < st.len()
        invariant
            k <= st@.len(),
            suffix@ == "."@ + st@.subrange(0, k as int),
        decreases st@.len() - k,
    {
        suffix.push(st[k]);
        assert(suffix@ =~= "."@ + st@.subrange(0, k + 1));
        k = k + 1;
    }
    assert(st@.subrange(0, st@.len() as int) =~= st@);
    let instance = if vec_ends_with(&full, &suffix) {
        string_of(&full, 0, full.len() - suffix.len())
    } else {
        string_of(&full, 0, full.len())
    };
    assert(full@.subrange(0, full@.len() as int) =~= full@);
    let h1 = strip_end_char(chars_of(hostname), '.');
    let h2 = strip_suffixes(h1, &lit(".local"));
    let h3 = strip_end_char(h2, '.');
    let host = string_of(&h3, 0, h3.len());
    assert(h3@.subrange(0, h3@.len() as int) =~= h3@);
    let is_self = eq_ignore_ascii_case(host.as_str(), our_hostname);

    let mut v4: Vec<String> = Vec::new();
    let mut v6: Vec<String> = Vec::new();
    let mut i: usize = 0;
    proof {
        reveal(Seq::filter);
    }
    while i < addrs.len()
        invariant
            i <= addrs@.len(),
            strings_of(v4@) == addrs@.subrange(0, i as int).filter(|a: (bool, String)| a.0).map_values(|a: (bool, String)| a.1@),
            strings_of(v6@) == addrs@.subrange(0, i as int).filter(|a: (bool, String)| !a.0).map_values(|a: (bool, String)| a.1@),
        decreases addrs@.len() - i,
    {
        let ghost s = addrs@.subrange(0, i + 1);
        proof {
            reveal(Seq::filter);
            assert(s.drop_last() =~= addrs@.subrange(0, i as int));
        }
        let a = &addrs[i];
        let ghost b4 = v4@;
        let ghost b6 = v6@;
        if a.0 {
            v4.push(a.1.clone());
            assert(strings_of(v4@) =~= strings_of(b4).push(a.1@));
        } else {
            v6.push(a.1.clone());
            assert(strings_of(v6@) =~= strings_of(b6).push(a.1@));
        }
        proof {
            assert(s.filter(|a: (bool, String)| a.0).map_values(|a: (bool, String)| a.1@) =~= strings_of(v4@));
            assert(s.filter(|a: (bool, String)| !a.0).map_values(|a: (bool, String)| a.1@) =~= strings_of(v6@));
        }
        i = i + 1;
    }
    assert(addrs@.subrange(0, addrs@.len() as int) =~= addrs@);
    let ghost first = strings_of(v4@);
    let mut j: usize = 0;
    let n6 = v6.len();
    while j < n6
        invariant
            n6 == v6@.len(),
            j <= n6,
            strings_of(v4@) == first + strings_of(v6@).subrange(0, j as int),
        decreases n6 - j,
    {
        let ghost before = v4@;
        v4.push(v6[j].clone());
        assert(strings_of(v4@) =~= strings_of(before).push(v6@[j as int]@));
        assert(strings_of(v6@).subrange(0, j + 1) =~= strings_of(v6@).subrange(0, j as int).push(v6@[j as int]@));
        assert(strings_of(v4@) =~= first + strings_of(v6@).subrange(0, j + 1));
        j = j + 1;
    }
    assert(strings_of(v6@).subrange(0, n6 as int) =~= strings_of(v6@));
    let name = match tx {
        Some(t) => t,
        None => instance,
    };
    DiscoveredInstance { name, host, addrs: v4, port, version, kind, is_self }
}


/// `x` is listed strictly before `y`: by transmitter name, then by host.
pub open spec fn listed_before(x: DiscoveredInstance, y: DiscoveredInstance) -> bool {
    text_lt(x.name@, y.name@) || (x.name@ == y.name@ && text_lt(x.host@, y.host@))
}

/// No instance of `s` is listed strictly before one that comes earlier.
pub open spec fn listed_in_order(s: Seq<DiscoveredInstance>) -> bool {
    forall|i: int, j: int| 0 <= i < j < s.len() ==> !listed_before(#[trigger] s[j], #[trigger] s[i])
}

proof fn lemma_listed_before_strict(x: DiscoveredInstance, y: DiscoveredInstance, z: DiscoveredInstance)
    ensures
        !listed_before(x, x),
        listed_before(x, y) && listed_before(y, z) ==> listed_before(x, z),
{
    lemma_text_lt_irreflexive(x.name@);
    lemma_text_lt_irreflexive(x.host@);
    if listed_before(x, y) && listed_before(y, z) {
        if text_lt(x.name@, y.name@) && text_lt(y.name@, z.name@) {
            lemma_text_lt_transitive(x.name@, y.name@, z.name@);
        }
        if x.name@ == y.name@ && text_lt(x.host@, y.host@) && y.name@ == z.name@ && text_lt(y.host@, z.host@) {
            lemma_text_lt_transitive(x.host@, y.host@, z.host@);
        }
    }
}

fn listed_less(x: &DiscoveredInstance, y: &DiscoveredInstance) -> (r: bool)
    ensures
        r == listed_before(*x, *y),
{
    if text_less(x.name.as_str(), y.name.as_str()) {
        true
    } else {
        str_eq(x.name.as_str(), y.name.as_str()) && text_less(x.host.as_str(), y.host.as_str())
    }
}

/// The instances heard, listed by name then host for a stable UI: the same
/// instances, in order.
pub fn sort_by_name_and_host(list: Vec<DiscoveredInstance>) -> (r: Vec<DiscoveredInstance>)
    ensures
        r@.to_multiset() == list@.to_multiset(),
        listed_in_order(r@),
{
    broadcast use vstd::seq_lib::group_to_multiset_ensures;
    broadcast use vstd::multiset::group_multiset_axioms;
    let mut rest = list;
    let mut out: Vec<DiscoveredInstance> = Vec::new();
    while rest.len() > 0
        invariant
            out@.to_multiset().add(rest@.to_multiset()) == list@.to_multiset(),
            listed_in_order(out@),
        decreases rest@.len(),
    {
        let ghost before_rest = rest@;
        let item = rest.pop().unwrap();
        assert(before_rest == rest@.push(item));
        let mut k: usize = 0;
        while k < out.len() && !listed_less(&item, &out[k])
            invariant
                k <= out@.len(),
                forall|j: int| 0 <= j < k ==> !listed_before(item, #[trigger] out@[j]),
            decreases out@.len() - k,
        {
            k = k + 1;
        }
        let ghost prev = out@;
        out.insert(k, item);
        assert(out@ == prev.insert(k as int, item));
        proof {
            vstd::seq_lib::to_multiset_insert(prev, k as int, item);
            vstd::seq_lib::to_multiset_build(rest@, item);
        }
        assert(out@.to_multiset() == prev.to_multiset().insert(item));
        assert(before_rest.to_multiset() == rest@.to_multiset().insert(item));
        assert(out@.to_multiset().add(rest@.to_multiset()) =~= prev.to_multiset().add(before_rest.to_multiset()));
        assert forall|i: int, j: int| 0 <= i < j < out@.len() implies !listed_before(#[trigger] out@[j], #[trigger] out@[i]) by {
            if j < k {
                assert(out@[i] == prev[i] && out@[j] == prev[j]);
            } else if j == k {
                assert(out@[i] == prev[i]);
            } else if i == k {
                let p = prev[k as int];
                let q = prev[j - 1];
                assert(out@[j] == q);
                assert(listed_before(item, p));
                lemma_listed_before_strict(q, item, p);
                if j - 1 > k {
                    assert(!listed_before(q, p));
                }
            } else if i < k {
                assert(out@[i] == prev[i] && out@[j] == prev[j - 1]);
            } else {
                assert(out@[i] == prev[i - 1] && out@[j] == prev[j - 1]);
            }
        }
    }
    out
}

} // verus!
