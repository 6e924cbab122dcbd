//! The decisions behind the web API: which log names may become paths, how
//! many log lines a request gets, the tail of a log, and what a request to
//! add a transmitter asks for.

use vstd::prelude::*;
use crate::ops::{is_valid_viewer_id, is_valid_viewer_id_text};
use crate::text::{
    chars_of, contains, decimal, lines, push_char, push_decimal, push_str, seqs_of, split_lines, string_of, trim,
    trimmed,
};

verus! {

/// A name or id is safe to turn into a log path when it is non-empty and
/// only ASCII letters, digits and dashes.
pub fn is_safe(s: &str) -> (r: bool)
    ensures
        r == is_valid_viewer_id_text(s@),
{
    is_valid_viewer_id(s)
}

/// How many log lines a request gets: 200 by default, at most 2000.
pub open spec fn line_count(requested: Option<usize>) -> usize {
    let n = match requested {
        Some(n) => n,
        None => 200,
    };
    if n < 2000 { n } else { 2000 }
}

/// How many log lines a request gets.
pub fn lines_for(requested: Option<usize>) -> (r: usize)
    ensures
        r == line_count(requested),
{
    let n = match requested {
        Some(n) => n,
        None => 200,
    };
    if n < 2000 { n } else { 2000 }
}

/// The lines of `ls` joined by line feeds.
pub open spec fn join_lines(ls: Seq<Seq<char>>) -> Seq<char>
    decreases ls.len(),
{
    if ls.len() == 0 {
        seq![]
    } else if ls.len() == 1 {
        ls[0]
    } else {
        join_lines(ls.drop_last()) + seq!['\n'] + ls.last()
    }
}

/// The last `n` lines of `content`, joined by line feeds.
pub open spec fn tail_of(content: Seq<char>, n: nat) -> Seq<char> {
    let ls = lines(content);
    let start = if ls.len() > n { ls.len() - n } else { 0 };
    join_lines(ls.subrange(start as int, ls.len() as int))
}

/// The last `n` lines of a log's `content`.
pub fn tail_text(content: &str, n: usize) -> (r: String)
    ensures
        r@ == tail_of(content@, n as nat),
{
    let all = split_lines(&chars_of(content));
    let ghost ls = lines(content@);
    let len = all.len();
    let start = if len > n { len - n } else { 0 };
    let mut out = String::new();
    let mut i = start;
    while i < len
        invariant
            len == all@.len(),
            seqs_of(all@) == ls,
            start <= i <= len,
            out@ == join_lines(ls.subrange(start as int, i as int)),
        decreases len - i,
    {
        let ghost before = out@;
        if i > start {
            push_char(&mut out, '\n');
        }
        let line = string_of(&all[i], 0, all[i].len());
        assert(all@[i as int]@.subrange(0, all@[i as int]@.len() as int) =~= all@[i as int]@);
        push_str(&mut out, line.as_str());
        proof {
            let s = ls.subrange(start as int, i + 1);
            assert(s.drop_last() =~= ls.subrange(start as int, i as int));
            assert(s.last() == ls[i as int]);
            if i == start {
                assert(s.len() == 1);
                assert(out@ =~= s[0]);
            } else {
                assert(out@ =~= before + seq!['\n'] + s.last());
            }
        }
        i = i + 1;
    }
    out
}

/// `t` holds two dots or more.
pub open spec fn has_two_dots(t: Seq<char>) -> bool {
    exists|i: int, j: int| 0 <= i < j < t.len() && t[i] == '.' && t[j] == '.'
}

/// A log file name the API may open: a pure base name, trimmed and
/// non-empty, with no path separator or drive colon, and no dot but the one
/// before its extension.
pub open spec fn openable_name(file: Seq<char>) -> Option<Seq<char>> {
    let t = trim(file);
    if t.len() == 0 || contains(t, seq!['/']) || contains(t, seq!['\\']) || contains(t, seq![':']) || has_two_dots(t) {
        None
    } else {
        Some(t)
    }
}

/// Whether `t` holds two dots or more.
fn two_dots(t: &Vec<char>) -> (r: bool)
    ensures
        r == has_two_dots(t@),
{
    let mut seen: Option<usize> = None;
    let mut k: usize = 0;
    while k < t.len()
        invariant
            k <= t@.len(),
            match seen {
                Some(i) => i < k && t@[i as int] == '.',
                None => forall|i: int| 0 <= i < k ==> t@[i] != '.',
            },
            !(exists|i: int, j: int| 0 <= i < j < k && t@[i] == '.' && t@[j] == '.'),
        decreases t@.len() - k,
    {
        if t[k] == '.' {
            match seen {
                Some(i) => {
                    assert(0 <= i < k < t@.len() && t@[i as int] == '.' && t@[k as int] == '.');
                    return true;
                },
                None => {
                    seen = Some(k);
                },
            }
        }
        k = k + 1;
    }
    false
}

/// The log file name `file` may be opened as, if any.
pub fn openable_log_name(file: &str) -> (r: Option<String>)
    ensures
        crate::ops::opt_string(r) == openable_name(file@),
{
    let t = trimmed(&chars_of(file));
    assert(t@.subrange(0, t@.len() as int) =~= t@);
    let slash: Vec<char> = vec!['/'];
    let backslash: Vec<char> = vec!['\\'];
    let colon: Vec<char> = vec![':'];
    assert(slash@ =~= seq!['/']);
    assert(backslash@ =~= seq!['\\']);
    assert(colon@ =~= seq![':']);
    if t.len() == 0 || crate::text::vec_contains(&t, &slash) || crate::text::vec_contains(&t, &backslash)
        || crate::text::vec_contains(&t, &colon) || two_dots(&t) {
        None
    } else {
        Some(string_of(&t, 0, t.len()))
    }
}

/// What a request to add a transmitter asks for.
#[derive(Debug)]
pub enum AddRequest {
    /// A transmitter on the named Spout sender.
    Spout(String),
    /// A screen-capture transmitter.
    Screen,
    /// A Spout request without a sender name.
    MissingSender,
    /// A kind that is neither.
    UnknownKind,
}

/// The request a form of `kind` (and `sender`) makes.
pub open spec fn add_request_of(kind: Seq<char>, sender: Option<Seq<char>>) -> (u8, Option<Seq<char>>) {
    if kind == "spout"@ {
        match sender {
            Some(s) => if trim(s).len() > 0 { (0, Some(s)) } else { (2, None) },
            None => (2, None),
        }
    } else if kind == "screen"@ {
        (1, None)
    } else {
        (3, None)
    }
}

/// Read a transmitter form: `spout` needs a non-blank sender (kept as
/// given), `screen` takes none.
pub fn add_request(kind: &str, sender: Option<String>) -> (r: AddRequest)
    ensures
        match r {
            AddRequest::Spout(s) => add_request_of(kind@, crate::ops::opt_string(sender)) == (0u8, Some(s@)),
            AddRequest::Screen => add_request_of(kind@, crate::ops::opt_string(sender)) == (1u8, None::<Seq<char>>),
            AddRequest::MissingSender => add_request_of(kind@, crate::ops::opt_string(sender)) == (2u8, None::<Seq<char>>),
            AddRequest::UnknownKind => add_request_of(kind@, crate::ops::opt_string(sender)) == (3u8, None::<Seq<char>>),
        },
{
    if crate::text::str_eq(kind, "spout") {
        match sender {
            Some(s) => {
                if trimmed(&chars_of(s.as_str())).len() > 0 {
                    AddRequest::Spout(s)
                } else {
                    AddRequest::MissingSender
                }
            },
            None => AddRequest::MissingSender,
        }
    } else if crate::text::str_eq(kind, "screen") {
        AddRequest::Screen
    } else {
        AddRequest::UnknownKind
    }
}


/// The dashboard address of the embedded web server on `web_port`.
pub open spec fn default_dashboard(web_port: u16) -> Seq<char> {
    "http://localhost:"@ + decimal(web_port as nat) + "/"@
}

/// The serialization of the URL `url::Url::parse` makes of `raw`, or `None`
/// when `raw` is not an absolute URL.
pub uninterp spec fn url_serialization(raw: Seq<char>) -> Option<Seq<char>>;

/// `url::Url::parse`, the URL type the window takes: the parsed URL's text
/// (`Url::as_str`, normalised as the parser writes it), `None` on a parse
/// error.
#[verifier::external_body]
fn parse_url(raw: &str) -> (r: Option<String>)
    ensures
        crate::ops::opt_string(r) == url_serialization(raw@),
{
    match url::Url::parse(raw) {
        Ok(u) => Some(u.as_str().to_string()),
        Err(_) => None,
    }
}

/// The address the dashboard is asked for: the `KYBERFROG_UI_URL` override
/// when it is set and not blank (a development server), else the embedded
/// server's.
pub open spec fn requested_dashboard(web_port: u16, ui_url: Option<Seq<char>>) -> Seq<char> {
    match ui_url {
        Some(u) => if trim(u).len() > 0 { u } else { default_dashboard(web_port) },
        None => default_dashboard(web_port),
    }
}

/// Where the window points, given what parsing the requested address gave
/// (`parsed`) and what parsing the default address gave (`parsed_default`):
/// the parsed request, else the parsed default; the default as written when
/// even that did not parse.
pub open spec fn dashboard_choice(
    web_port: u16,
    parsed: Option<Seq<char>>,
    parsed_default: Option<Seq<char>>,
) -> Seq<char> {
    match parsed {
        Some(u) => u,
        None => match parsed_default {
            Some(d) => d,
            None => default_dashboard(web_port),
        },
    }
}

/// The embedded server's dashboard address, as text.
fn default_dashboard_text(web_port: u16) -> (r: String)
    ensures
        r@ == default_dashboard(web_port),
{
    let mut out = String::new();
    push_str(&mut out, "http://localhost:");
    push_decimal(&mut out, web_port as u64);
    push_str(&mut out, "/");
    out
}

/// The window's address from the outcomes of parsing: the parsed request,
/// else the parsed default address (an unusable override falls back to the
/// embedded server).
pub fn dashboard_from(web_port: u16, parsed: Option<String>, parsed_default: Option<String>) -> (r: String)
    ensures
        r@ == dashboard_choice(web_port, crate::ops::opt_string(parsed), crate::ops::opt_string(parsed_default)),
{
    match parsed {
        Some(u) => u,
        None => match parsed_default {
            Some(d) => d,
            None => default_dashboard_text(web_port),
        },
    }
}

/// Where the dashboard window points: the `KYBERFROG_UI_URL` override when it
/// is set, not blank and a valid URL (a development server), else the
/// embedded server on `web_port`; always as the URL parser writes it.
pub fn dashboard_url(web_port: u16, ui_url: Option<String>) -> (r: String)
    ensures
        r@ == dashboard_choice(
            web_port,
            url_serialization(requested_dashboard(web_port, crate::ops::opt_string(ui_url))),
            url_serialization(default_dashboard(web_port)),
        ),
{
    let default = default_dashboard_text(web_port);
    let raw = match ui_url {
        Some(u) => if trimmed(&chars_of(u.as_str())).len() > 0 { u } else { default_dashboard_text(web_port) },
        None => default_dashboard_text(web_port),
    };
    let parsed = parse_url(raw.as_str());
    let parsed_default = match parsed {
        Some(_) => None,
        None => parse_url(default.as_str()),
    };
    dashboard_from(web_port, parsed, parsed_default)
}

/// This machine's name as the dashboard shows it: `COMPUTERNAME` (Windows),
/// else `HOSTNAME`, else `unknown`.
pub fn machine_name(computername: Option<String>, hostname: Option<String>) -> (r: String)
    ensures
        r@ == match (computername, hostname) {
            (Some(c), _) => c@,
            (None, Some(h)) => h@,
            (None, None) => "unknown"@,
        },
{
    match computername {
        Some(c) => c,
        None => match hostname {
            Some(h) => h,
            None => String::from_str("unknown"),
        },
    }
}

} // verus!
