//! Well-known filesystem locations.
//!
//! Windows keeps everything under `%APPDATA%\kyberfrog`. Elsewhere the XDG
//! Base Directory rules apply: `$XDG_CONFIG_HOME/kyberfrog` (default
//! `~/.config/kyberfrog`) for the config and the setups, and
//! `$XDG_STATE_HOME/kyberfrog` (default `~/.local/state/kyberfrog`) for the logs
//! and the generated per-instance configs.
//!
//! Paths are strings joined the way `PathBuf::push` joins a relative
//! component on the given platform.

use vstd::prelude::*;
use crate::text::{chars_of, push_str};

verus! {

/// The path conventions in force.
#[derive(Clone, Copy, Debug, PartialEq, Eq, Structural)]
pub enum Platform {
    Windows,
    Unix,
}

/// `c` separates path components on `p`.
pub open spec fn is_sep(p: Platform, c: char) -> bool {
    c == '/' || (p == Platform::Windows && c == '\\')
}

/// The separator `PathBuf::push` inserts on `p`.
pub open spec fn main_sep(p: Platform) -> char {
    if p == Platform::Windows { '\\' } else { '/' }
}

/// `s` opens with a Windows drive prefix such as `C:`.
pub open spec fn has_drive_prefix(s: Seq<char>) -> bool {
    s.len() >= 2 && s[1] == ':' && (('a' <= s[0] && s[0] <= 'z') || ('A' <= s[0] && s[0] <= 'Z'))
}

/// `s` starts at a root or a prefix, so pushing it would not append it.
pub open spec fn is_rooted(p: Platform, s: Seq<char>) -> bool {
    (s.len() > 0 && is_sep(p, s[0])) || (p == Platform::Windows && has_drive_prefix(s))
}

/// `s` is an absolute path on `p`: from the root on Unix; a drive and a root,
/// or a UNC (`\\server\share`) path, on Windows.
pub open spec fn is_absolute_path(p: Platform, s: Seq<char>) -> bool {
    if p == Platform::Unix {
        s.len() > 0 && s[0] == '/'
    } else {
        (has_drive_prefix(s) && s.len() >= 3 && is_sep(p, s[2])) || (s.len() >= 2 && is_sep(p, s[0])
            && is_sep(p, s[1]))
    }
}

/// `base` with the relative component `rel` pushed onto it: no separator when
/// `base` is empty, already ends with one, or is a bare Windows drive.
pub open spec fn path_join(p: Platform, base: Seq<char>, rel: Seq<char>) -> Seq<char> {
    if base.len() == 0 || is_sep(p, base.last()) || (p == Platform::Windows && base.len() == 2
        && has_drive_prefix(base)) {
        base + rel
    } else {
        base + seq![main_sep(p)] + rel
    }
}

/// Whether `c` separates path components on `p`.
pub fn sep_char(p: Platform, c: char) -> (r: bool)
    ensures
        r == is_sep(p, c),
{
    c == '/' || (p == Platform::Windows && c == '\\')
}

/// Whether `s` opens with a drive prefix.
fn drive_prefix(v: &Vec<char>) -> (r: bool)
    ensures
        r == has_drive_prefix(v@),
{
    v.len() >= 2 && v[1] == ':' && (('a' <= v[0] && v[0] <= 'z') || ('A' <= v[0] && v[0] <= 'Z'))
}

/// Whether `s` starts at a root or a drive prefix on `p`, so that it cannot
/// be joined onto a directory as a component.
pub fn rooted(p: Platform, s: &str) -> (r: bool)
    ensures
        r == is_rooted(p, s@),
{
    let v = chars_of(s);
    (v.len() > 0 && sep_char(p, v[0])) || (p == Platform::Windows && drive_prefix(&v))
}

/// Whether `s` is an absolute path on `p`.
pub fn absolute_path(p: Platform, s: &str) -> (r: bool)
    ensures
        r == is_absolute_path(p, s@),
{
    let v = chars_of(s);
    match p {
        Platform::Unix => v.len() > 0 && v[0] == '/',
        Platform::Windows => (drive_prefix(&v) && v.len() >= 3 && sep_char(p, v[2])) || (v.len() >= 2
            && sep_char(p, v[0]) && sep_char(p, v[1])),
    }
}

/// `base` with the relative component `rel` pushed onto it.
pub fn join(p: Platform, base: &str, rel: &str) -> (r: String)
    requires
        !is_rooted(p, rel@),
    ensures
        r@ == path_join(p, base@, rel@),
{
    let v = chars_of(base);
    let mut out = String::from_str(base);
    let n = v.len();
    let bare = n == 0 || sep_char(p, v[n - 1]) || (p == Platform::Windows && n == 2 && drive_prefix(&v));
    if !bare {
        match p {
            Platform::Windows => push_str(&mut out, "\\"),
            Platform::Unix => push_str(&mut out, "/"),
        }
        proof {
            reveal_strlit("\\");
            reveal_strlit("/");
        }
    }
    push_str(&mut out, rel);
    proof {
        if !bare {
            assert(out@ =~= base@ + seq![main_sep(p)] + rel@);
        }
    }
    out
}

/// Where the data and the generated state live on this machine.
#[derive(Clone, Debug, PartialEq, Eq)]
pub struct DataRoots {
    pub platform: Platform,
    /// Root for operator-owned data: the machine config and the setups.
    pub config_base: String,
    /// Root for machine-generated state: logs and per-instance configs.
    pub state_base: String,
}

/// `$VAR` when it holds an absolute path, else `$HOME/<fallback>`, else `.`.
pub open spec fn xdg_root(
    p: Platform,
    var: Option<Seq<char>>,
    home: Option<Seq<char>>,
    fallback: Seq<char>,
) -> Seq<char> {
    if var matches Some(v) && is_absolute_path(p, v) {
        var.unwrap()
    } else {
        match home {
            Some(h) => path_join(p, h, fallback),
            None => "."@,
        }
    }
}

/// The root `APPDATA` gives when set, else the XDG rule.
pub open spec fn data_root(
    p: Platform,
    appdata: Option<Seq<char>>,
    var: Option<Seq<char>>,
    home: Option<Seq<char>>,
    fallback: Seq<char>,
) -> Seq<char> {
    match appdata {
        Some(a) => a,
        None => xdg_root(p, var, home, fallback),
    }
}

/// The view of an optional string.
pub open spec fn opt_string_view(v: &Option<String>) -> Option<Seq<char>> {
    match v {
        Some(s) => Some(s@),
        None => None,
    }
}

fn xdg_dir(p: Platform, var: &Option<String>, home: &Option<String>, fallback: &str) -> (r: String)
    requires
        !is_rooted(p, fallback@),
    ensures
        r@ == xdg_root(p, opt_string_view(var), opt_string_view(home), fallback@),
{
    if let Some(v) = var {
        if absolute_path(p, v.as_str()) {
            return v.clone();
        }
    }
    match home {
        Some(h) => join(p, h.as_str(), fallback),
        None => String::from_str("."),
    }
}

impl DataRoots {
    /// The roots from the environment: `APPDATA` for both when set; else
    /// `XDG_CONFIG_HOME` / `XDG_STATE_HOME` when absolute; else under `HOME`
    /// (`.config`, `.local/state`); else the current directory.
    pub fn from_env(
        platform: Platform,
        appdata: Option<String>,
        xdg_config_home: Option<String>,
        xdg_state_home: Option<String>,
        home: Option<String>,
    ) -> (r: DataRoots)
        ensures
            r.platform == platform,
            r.config_base@ == data_root(platform, opt_string_view(&appdata), opt_string_view(&xdg_config_home),
                opt_string_view(&home), ".config"@),
            r.state_base@ == data_root(platform, opt_string_view(&appdata), opt_string_view(&xdg_state_home),
                opt_string_view(&home), ".local/state"@),
    {
        proof {
            reveal_strlit(".config");
            reveal_strlit(".local/state");
        }
        match appdata {
            Some(a) => DataRoots { platform, config_base: a.clone(), state_base: a },
            None => DataRoots {
                platform,
                config_base: xdg_dir(platform, &xdg_config_home, &home, ".config"),
                state_base: xdg_dir(platform, &xdg_state_home, &home, ".local/state"),
            },
        }
    }

    /// `<config root>/kyberfrog`.
    pub open spec fn data_dir(self) -> Seq<char> {
        path_join(self.platform, self.config_base@, "kyberfrog"@)
    }

    /// `<state root>/kyberfrog`.
    pub open spec fn state_dir(self) -> Seq<char> {
        path_join(self.platform, self.state_base@, "kyberfrog"@)
    }

    /// `<state>/kyberfrog/logs`.
    pub open spec fn logs(self) -> Seq<char> {
        path_join(self.platform, self.state_dir(), "logs"@)
    }

    /// `<state>/kyberfrog/instances/<name>`.
    pub open spec fn instance(self, name: Seq<char>) -> Seq<char> {
        path_join(self.platform, path_join(self.platform, self.state_dir(), "instances"@), name)
    }
}

proof fn lemma_literals_not_rooted(p: Platform)
    ensures
        !is_rooted(p, "kyberfrog"@),
        !is_rooted(p, "kyberfrog.toml"@),
        !is_rooted(p, "setups"@),
        !is_rooted(p, "logs"@),
        !is_rooted(p, "kyberfrog.log"@),
        !is_rooted(p, "instances"@),
        !is_rooted(p, "kycontroller.log"@),
        !is_rooted(p, "kyber_config.toml"@),
{
    reveal_strlit("kyberfrog");
    reveal_strlit("kyberfrog.toml");
    reveal_strlit("setups");
    reveal_strlit("logs");
    reveal_strlit("kyberfrog.log");
    reveal_strlit("instances");
    reveal_strlit("kycontroller.log");
    reveal_strlit("kyber_config.toml");
}

/// Root of the data directory (`%APPDATA%\kyberfrog`).
pub fn app_data_dir(roots: &DataRoots) -> (r: String)
    ensures
        r@ == roots.data_dir(),
{
    proof {
        lemma_literals_not_rooted(roots.platform);
    }
    join(roots.platform, roots.config_base.as_str(), "kyberfrog")
}

/// The machine config file (`…\kyberfrog\kyberfrog.toml`).
pub fn config_file(roots: &DataRoots) -> (r: String)
    ensures
        r@ == path_join(roots.platform, roots.data_dir(), "kyberfrog.toml"@),
{
    proof {
        lemma_literals_not_rooted(roots.platform);
    }
    join(roots.platform, app_data_dir(roots).as_str(), "kyberfrog.toml")
}

/// Directory holding the setup documents (`…\kyberfrog\setups`).
pub fn setups_dir(roots: &DataRoots) -> (r: String)
    ensures
        r@ == path_join(roots.platform, roots.data_dir(), "setups"@),
{
    proof {
        lemma_literals_not_rooted(roots.platform);
    }
    join(roots.platform, app_data_dir(roots).as_str(), "setups")
}

/// The setup document for `name` (`…\kyberfrog\setups\<name>.toml`).
pub fn setup_file(roots: &DataRoots, name: &str) -> (r: String)
    requires
        !is_rooted(roots.platform, name@ + ".toml"@),
    ensures
        r@ == path_join(roots.platform, path_join(roots.platform, roots.data_dir(), "setups"@), name@ + ".toml"@),
{
    let mut file = String::from_str(name);
    push_str(&mut file, ".toml");
    join(roots.platform, setups_dir(roots).as_str(), file.as_str())
}

/// Name of the setup created on first run or when none is selected.
pub const DEFAULT_SETUP_NAME: &'static str = "setup-default";

/// Root of the generated-state directory (`<state>/kyberfrog`).
pub fn app_state_dir(roots: &DataRoots) -> (r: String)
    ensures
        r@ == roots.state_dir(),
{
    proof {
        lemma_literals_not_rooted(roots.platform);
    }
    join(roots.platform, roots.state_base.as_str(), "kyberfrog")
}

/// Directory holding log files (`<state>/kyberfrog/logs`).
pub fn log_dir(roots: &DataRoots) -> (r: String)
    ensures
        r@ == roots.logs(),
{
    proof {
        lemma_literals_not_rooted(roots.platform);
    }
    join(roots.platform, app_state_dir(roots).as_str(), "logs")
}

/// The app log file (`<state>/kyberfrog/logs/kyberfrog.log`).
pub fn app_log_file(roots: &DataRoots) -> (r: String)
    ensures
        r@ == path_join(roots.platform, roots.logs(), "kyberfrog.log"@),
{
    proof {
        lemma_literals_not_rooted(roots.platform);
    }
    join(roots.platform, log_dir(roots).as_str(), "kyberfrog.log")
}

/// Per-viewer kyclient log file (`<state>/kyberfrog/logs/kyclient-<id>.log`).
pub fn kyclient_log_file(roots: &DataRoots, id: &str) -> (r: String)
    ensures
        r@ == path_join(roots.platform, roots.logs(), "kyclient-"@ + id@ + ".log"@),
{
    let mut file = String::from_str("kyclient-");
    push_str(&mut file, id);
    push_str(&mut file, ".log");
    proof {
        reveal_strlit("kyclient-");
        assert(file@[0] == 'k');
    }
    join(roots.platform, log_dir(roots).as_str(), file.as_str())
}

/// Parent directory of all generated per-instance configs.
pub fn instances_dir(roots: &DataRoots) -> (r: String)
    ensures
        r@ == path_join(roots.platform, roots.state_dir(), "instances"@),
{
    proof {
        lemma_literals_not_rooted(roots.platform);
    }
    join(roots.platform, app_state_dir(roots).as_str(), "instances")
}

/// The directory owned by one transmitter instance.
pub fn instance_dir(roots: &DataRoots, name: &str) -> (r: String)
    requires
        !is_rooted(roots.platform, name@),
    ensures
        r@ == roots.instance(name@),
{
    join(roots.platform, instances_dir(roots).as_str(), name)
}

/// Per-transmitter kycontroller log file (`…/instances/<name>/kycontroller.log`).
pub fn kycontroller_log_file(roots: &DataRoots, name: &str) -> (r: String)
    requires
        !is_rooted(roots.platform, name@),
    ensures
        r@ == path_join(roots.platform, roots.instance(name@), "kycontroller.log"@),
{
    proof {
        lemma_literals_not_rooted(roots.platform);
    }
    join(roots.platform, instance_dir(roots, name).as_str(), "kycontroller.log")
}

/// The generated `kyber_config.toml` of a transmitter.
pub fn instance_config(roots: &DataRoots, name: &str) -> (r: String)
    requires
        !is_rooted(roots.platform, name@),
    ensures
        r@ == path_join(roots.platform, roots.instance(name@), "kyber_config.toml"@),
{
    proof {
        lemma_literals_not_rooted(roots.platform);
    }
    join(roots.platform, instance_dir(roots, name).as_str(), "kyber_config.toml")
}

} // verus!
