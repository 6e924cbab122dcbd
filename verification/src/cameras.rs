//! Parsing ffmpeg's capture-device listings for the webcam picker.
//!
//! ffmpeg lists DirectShow devices on stderr (`-list_devices true`) and V4L2
//! cards on stdout (`-sources v4l2`); the names it prints are exactly the ones
//! the capture pipeline expects, so they are taken verbatim.

use vstd::prelude::*;
use crate::paths::{join, path_join, Platform};
use crate::spout::{lossy_text, utf8_lossy};
use crate::text::{
    chars_of, contains, ends_with, find, find_from, find_in, lemma_find_bounds, lemma_rfind_bounds, lines, lit, rfind,
    rfind_in, seqs_of, split_lines, starts_with, strings_from, strings_of, sub_vec, trim_end,
    trim_end_index, trim_start, trim_start_char, trim_start_char_index, trim_start_index, vec_contains,
    vec_ends_with, vec_eq, vec_starts_with,
};

verus! {

/// The device a DirectShow `-list_devices` line announces, if it is a video
/// device: the text between the first two double quotes of a line ending in
/// `(video)` that is not an "Alternative name" line.
pub open spec fn dshow_device(line: Seq<char>) -> Option<Seq<char>> {
    if ends_with(trim_end(line), "(video)"@) && !contains(line, "Alternative name"@) {
        let a = find(line, seq!['"']);
        if a < 0 {
            None
        } else {
            let b = find_from(line, seq!['"'], a + 1);
            if b < 0 { None } else { Some(line.subrange(a + 1, b)) }
        }
    } else {
        None
    }
}

/// Every video device announced by `ls`, in order.
pub open spec fn dshow_devices(ls: Seq<Seq<char>>) -> Seq<Seq<char>>
    decreases ls.len(),
{
    if ls.len() == 0 {
        seq![]
    } else {
        let prev = dshow_devices(ls.drop_last());
        match dshow_device(ls.last()) {
            Some(name) => prev.push(name),
            None => prev,
        }
    }
}

/// The card name a V4L2 `-sources` line lists (`* /dev/video0 [Card] (none)`):
/// everything between the first ` [` and the last `] (` of a device entry.
pub open spec fn v4l2_card(line: Seq<char>) -> Option<Seq<char>> {
    let entry = trim_start(trim_start_char(trim_start(line), '*'));
    if !starts_with(entry, seq!['/']) {
        None
    } else {
        let a = find(entry, " ["@);
        let b = rfind(entry, "] ("@);
        if a < 0 || b < 0 || a + 2 > b { None } else { Some(entry.subrange(a + 2, b)) }
    }
}

/// The distinct non-empty card names listed by `ls`, in first-seen order.
pub open spec fn v4l2_cards(ls: Seq<Seq<char>>) -> Seq<Seq<char>>
    decreases ls.len(),
{
    if ls.len() == 0 {
        seq![]
    } else {
        let prev = v4l2_cards(ls.drop_last());
        match v4l2_card(ls.last()) {
            Some(name) => if name.len() > 0 && !prev.contains(name) { prev.push(name) } else { prev },
            None => prev,
        }
    }
}

fn dshow_line(line: &Vec<char>) -> (r: Option<Vec<char>>)
    ensures
        match r {
            Some(n) => dshow_device(line@) == Some(n@),
            None => dshow_device(line@) is None,
        },
{
    let te = trim_end_index(line);
    let trimmed_end = sub_vec(line, 0, te);
    if !vec_ends_with(&trimmed_end, &lit("(video)")) || vec_contains(line, &lit("Alternative name")) {
        return None;
    }
    let quote: Vec<char> = vec!['"'];
    assert(quote@ == seq!['"']);
    proof { lemma_find_bounds(line@, seq!['"'], 0); }
    let a = match find_in(line, &quote, 0) {
        Some(a) => a,
        None => return None,
    };
    let n = line.len();
    assert(a + 1 <= n);
    let b = match find_in(line, &quote, a + 1) {
        Some(b) => b,
        None => return None,
    };
    proof { lemma_find_bounds(line@, seq!['"'], a + 1); }
    Some(sub_vec(line, a + 1, b))
}

/// Extract video device names from `-list_devices` stderr lines, e.g.
/// `[dshow @ 000001] "Integrated Camera" (video)`.
pub fn parse_dshow_devices(stderr: &str) -> (r: Vec<String>)
    ensures
        strings_of(r@) == dshow_devices(lines(stderr@)),
{
    let chars = chars_of(stderr);
    let ls = split_lines(&chars);
    let mut names: Vec<Vec<char>> = Vec::new();
    let mut k: usize = 0;
    while k < ls.len()
        invariant
            k <= ls@.len(),
            seqs_of(ls@) == lines(stderr@),
            seqs_of(names@) == dshow_devices(seqs_of(ls@).subrange(0, k as int)),
        decreases ls@.len() - k,
    {
        let ghost before = seqs_of(names@);
        assert(seqs_of(ls@).subrange(0, k + 1).drop_last() =~= seqs_of(ls@).subrange(0, k as int));
        match dshow_line(&ls[k]) {
            Some(n) => {
                names.push(n);
                assert(seqs_of(names@) =~= before.push(n@));
            },
            None => {},
        }
        k = k + 1;
    }
    assert(seqs_of(ls@).subrange(0, ls@.len() as int) =~= seqs_of(ls@));
    strings_from(&names)
}

fn v4l2_line(line: &Vec<char>) -> (r: Option<Vec<char>>)
    ensures
        match r {
            Some(n) => v4l2_card(line@) == Some(n@),
            None => v4l2_card(line@) is None,
        },
{
    let a0 = trim_start_index(line);
    let t0 = sub_vec(line, a0, line.len());
    let a1 = trim_start_char_index(&t0, '*');
    let t1 = sub_vec(&t0, a1, t0.len());
    let a2 = trim_start_index(&t1);
    let entry = sub_vec(&t1, a2, t1.len());
    let slash: Vec<char> = vec!['/'];
    assert(slash@ == seq!['/']);
    if !vec_starts_with(&entry, &slash) {
        return None;
    }
    let a = find_in(&entry, &lit(" ["), 0);
    let b = rfind_in(&entry, &lit("] ("));
    match (a, b) {
        (Some(a), Some(b)) => {
            if a > b || b - a < 2 {
                return None;
            }
            proof {
                lemma_find_bounds(entry@, " ["@, 0);
                lemma_rfind_bounds(entry@, "] ("@, entry@.len() - "] ("@.len());
            }
            Some(sub_vec(&entry, a + 2, b))
        },
        _ => None,
    }
}

fn contains_name(names: &Vec<Vec<char>>, name: &Vec<char>) -> (r: bool)
    ensures
        r == seqs_of(names@).contains(name@),
{
    let mut i: usize = 0;
    while i < names.len()
        invariant
            i <= names@.len(),
            forall|j: int| 0 <= j < i ==> names@[j]@ != name@,
        decreases names@.len() - i,
    {
        if vec_eq(&names[i], name) {
            assert(seqs_of(names@)[i as int] == name@);
            return true;
        }
        i = i + 1;
    }
    assert forall|j: int| 0 <= j < seqs_of(names@).len() implies seqs_of(names@)[j] != name@ by {}
    false
}

/// Extract card names from `-sources v4l2` stdout, one device per line:
/// `* /dev/video0 [HD Pro Webcam C920] (none)`. A name is listed once.
pub fn parse_v4l2_sources(stdout: &str) -> (r: Vec<String>)
    ensures
        strings_of(r@) == v4l2_cards(lines(stdout@)),
{
    let chars = chars_of(stdout);
    let ls = split_lines(&chars);
    let mut names: Vec<Vec<char>> = Vec::new();
    let mut k: usize = 0;
    while k < ls.len()
        invariant
            k <= ls@.len(),
            seqs_of(ls@) == lines(stdout@),
            seqs_of(names@) == v4l2_cards(seqs_of(ls@).subrange(0, k as int)),
        decreases ls@.len() - k,
    {
        let ghost before = seqs_of(names@);
        assert(seqs_of(ls@).subrange(0, k + 1).drop_last() =~= seqs_of(ls@).subrange(0, k as int));
        match v4l2_line(&ls[k]) {
            Some(n) => {
                if n.len() > 0 && !contains_name(&names, &n) {
                    names.push(n);
                    assert(seqs_of(names@) =~= before.push(n@));
                }
            },
            None => {},
        }
        k = k + 1;
    }
    assert(seqs_of(ls@).subrange(0, ls@.len() as int) =~= seqs_of(ls@));
    strings_from(&names)
}


/// The bundled ffmpeg's file name on a platform.
pub open spec fn ffmpeg_name(p: Platform) -> Seq<char> {
    match p {
        Platform::Windows => "ffmpeg.exe"@,
        Platform::Unix => "ffmpeg"@,
    }
}

/// Path to the bundled `ffmpeg` binary inside an install directory.
pub fn ffmpeg_path(p: Platform, install_dir: &str) -> (r: String)
    ensures
        r@ == path_join(p, install_dir@, ffmpeg_name(p)),
{
    proof {
        reveal_strlit("ffmpeg.exe");
        reveal_strlit("ffmpeg");
    }
    match p {
        Platform::Windows => join(p, install_dir, "ffmpeg.exe"),
        Platform::Unix => join(p, install_dir, "ffmpeg"),
    }
}

/// The operating system the device listing runs on.
#[derive(Clone, Copy, Debug, PartialEq, Eq)]
pub enum HostOs {
    Windows,
    Linux,
    Other,
}

/// The device listing ffmpeg offers on a platform.
#[derive(Clone, Copy, Debug, PartialEq, Eq)]
pub enum Listing {
    /// DirectShow `-list_devices`, printed on stderr.
    Dshow,
    /// `-sources v4l2`, printed on stdout.
    V4l2,
}

/// How this platform lists its capture devices through ffmpeg.
pub struct Probe {
    pub args: Vec<String>,
    /// The list lands on stdout (`-sources`), else on stderr (`-list_devices`).
    pub stdout: bool,
    pub listing: Listing,
}

/// ffmpeg's arguments for a listing. The DirectShow one opens a dummy input
/// that fails: ffmpeg exits non-zero after printing the list, as expected.
pub open spec fn probe_args(l: Listing) -> Seq<Seq<char>> {
    match l {
        Listing::Dshow => seq!["-hide_banner"@, "-f"@, "dshow"@, "-list_devices"@, "true"@, "-i"@, "dummy"@],
        Listing::V4l2 => seq!["-hide_banner"@, "-sources"@, "v4l2"@],
    }
}

fn strings(words: &[&str]) -> (r: Vec<String>)
    ensures
        strings_of(r@) == words@.map_values(|w: &str| w@),
{
    let mut out: Vec<String> = Vec::new();
    let mut i: usize = 0;
    while i < words.len()
        invariant
            i <= words@.len(),
            strings_of(out@) == words@.subrange(0, i as int).map_values(|w: &str| w@),
        decreases words@.len() - i,
    {
        let ghost before = out@;
        let w = String::from_str(words[i]);
        assert(w@ == words@[i as int]@);
        out.push(w);
        assert(strings_of(out@) =~= strings_of(before).push(w@));
        assert(words@.subrange(0, i + 1).map_values(|w: &str| w@)
            =~= words@.subrange(0, i as int).map_values(|w: &str| w@).push(words@[i as int]@));
        i = i + 1;
    }
    assert(words@.subrange(0, words@.len() as int) =~= words@);
    out
}

/// How `os` lists its capture devices: DirectShow on Windows, V4L2 sources
/// on Linux, none elsewhere.
pub fn probe(os: HostOs) -> (r: Option<Probe>)
    ensures
        match os {
            HostOs::Windows => r matches Some(p) && p.listing == Listing::Dshow && !p.stdout
                && strings_of(p.args@) == probe_args(Listing::Dshow),
            HostOs::Linux => r matches Some(p) && p.listing == Listing::V4l2 && p.stdout
                && strings_of(p.args@) == probe_args(Listing::V4l2),
            HostOs::Other => r is None,
        },
{
    match os {
        HostOs::Windows => {
            let words = ["-hide_banner", "-f", "dshow", "-list_devices", "true", "-i", "dummy"];
            let args = strings(&words);
            assert(words@.map_values(|w: &str| w@) =~= probe_args(Listing::Dshow));
            Some(Probe { args, stdout: false, listing: Listing::Dshow })
        },
        HostOs::Linux => {
            let words = ["-hide_banner", "-sources", "v4l2"];
            let args = strings(&words);
            assert(words@.map_values(|w: &str| w@) =~= probe_args(Listing::V4l2));
            Some(Probe { args, stdout: true, listing: Listing::V4l2 })
        },
        HostOs::Other => None,
    }
}

/// The device names a listing's text holds.
pub open spec fn listed_names(l: Listing, text: Seq<char>) -> Seq<Seq<char>> {
    match l {
        Listing::Dshow => dshow_devices(lines(text)),
        Listing::V4l2 => v4l2_cards(lines(text)),
    }
}

/// The camera names in ffmpeg's output for `probe`: its stdout or stderr,
/// read as (lossy) UTF-8, then parsed by the platform's listing.
pub fn camera_names(probe: &Probe, stdout: &[u8], stderr: &[u8]) -> (r: Vec<String>)
    ensures
        strings_of(r@) == listed_names(probe.listing, lossy_text(if probe.stdout { stdout@ } else { stderr@ })),
{
    let text = if probe.stdout { utf8_lossy(stdout) } else { utf8_lossy(stderr) };
    match probe.listing {
        Listing::Dshow => parse_dshow_devices(text.as_str()),
        Listing::V4l2 => parse_v4l2_sources(text.as_str()),
    }
}

} // verus!
