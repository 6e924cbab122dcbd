//! The configuration, split across two documents.
//!
//! * The user config (`kyberfrog.toml`): per-machine settings ([`UserConf`]),
//!   the UI preferences ([`Ui`]) and `active_setup`, the name of the setup
//!   document currently loaded.
//! * A setup document (`setups/<name>.toml`, [`Setup`]): the emission
//!   (transmitters) and reception (viewers) halves, portable across machines.
//!
//! At runtime the two are merged into one [`Config`]; saving splits it back.

use vstd::prelude::*;
use crate::model::{
    is_valid_dir_name, valid_dir_name, Transmitter, DEFAULT_AUTH_PASSWORD, DEFAULT_AUTH_USERNAME,
    DEFAULT_BASE_PORT, DEFAULT_WEB_PORT,
};
use crate::naming::{first_free, is_first_free, numbered};
use crate::paths::{join, path_join, Platform, DEFAULT_SETUP_NAME};
use crate::table::TomlTable;
use crate::text::{
    ascii_alnum, bool_string, bool_text, chars_of, decimal, decimal_string, ends_with, is_ascii_alnum, lit,
    str_eq, string_of, strings_of, trim, trimmed, vec_ends_with,
};
use crate::text::{lemma_text_lt_irreflexive, lemma_text_lt_transitive, text_less, text_lt};

verus! {

/// UI preferences, kept machine-side.
#[derive(Debug)]
pub struct Ui {
    /// `"dark"` or `"light"`.
    pub theme: String,
    /// `"fr"` or `"en"`.
    pub lang: String,
}

impl Default for Ui {
    fn default() -> (r: Ui)
        ensures
            r.theme@ == "dark"@,
            r.lang@ == "fr"@,
    {
        Ui { theme: String::from_str("dark"), lang: String::from_str("fr") }
    }
}

/// The `kyberfrog.toml` file: everything specific to this machine.
#[derive(Debug)]
pub struct UserConf {
    pub kyber_install_dir: String,
    pub kyclient_path: String,
    pub web_port: u16,
    pub ui: Ui,
    /// Bare stem of the loaded setup under `setups/`.
    pub active_setup: String,
}

/// Where the installer puts the Kyber binaries on each platform.
pub open spec fn fallback_install_dir_text(p: Platform) -> Seq<char> {
    if p == Platform::Windows { "C:\\Program Files\\KyberFrog"@ } else { "/usr/lib/kyberfrog/bin"@ }
}

/// The bare `kyclient` name on each platform.
pub open spec fn default_kyclient_text(p: Platform) -> Seq<char> {
    if p == Platform::Windows { "kyclient.exe"@ } else { "kyclient"@ }
}

/// The `kycontroller` binary name on each platform.
pub open spec fn kycontroller_name(p: Platform) -> Seq<char> {
    if p == Platform::Windows { "kycontroller.exe"@ } else { "kycontroller"@ }
}

/// Platform default for the Kyber binaries directory, used when they are not
/// next to the running executable.
pub fn fallback_install_dir(p: Platform) -> (r: String)
    ensures
        r@ == fallback_install_dir_text(p),
{
    match p {
        Platform::Windows => String::from_str("C:\\Program Files\\KyberFrog"),
        Platform::Unix => String::from_str("/usr/lib/kyberfrog/bin"),
    }
}

/// The default `kyclient` path: a bare name, resolved through `PATH`.
pub fn default_kyclient_path(p: Platform) -> (r: String)
    ensures
        r@ == default_kyclient_text(p),
{
    match p {
        Platform::Windows => String::from_str("kyclient.exe"),
        Platform::Unix => String::from_str("kyclient"),
    }
}

/// The default install directory: the running executable's directory when
/// `kycontroller` sits there, else the platform default.
pub fn default_install_dir(p: Platform, exe_dir: Option<String>, kycontroller_beside_exe: bool) -> (r: String)
    ensures
        match exe_dir {
            Some(d) => kycontroller_beside_exe ==> r@ == d@,
            None => true,
        },
        !(exe_dir is Some && kycontroller_beside_exe) ==> r@ == fallback_install_dir_text(p),
{
    match exe_dir {
        Some(d) => {
            if kycontroller_beside_exe {
                d
            } else {
                fallback_install_dir(p)
            }
        },
        None => fallback_install_dir(p),
    }
}

/// Path to the `kycontroller` binary inside an install directory
/// (`kycontroller.exe` on Windows, bare `kycontroller` elsewhere).
pub fn kycontroller_path(p: Platform, install_dir: &str) -> (r: String)
    ensures
        r@ == path_join(p, install_dir@, kycontroller_name(p)),
{
    proof {
        reveal_strlit("kycontroller.exe");
        reveal_strlit("kycontroller");
    }
    match p {
        Platform::Windows => join(p, install_dir, "kycontroller.exe"),
        Platform::Unix => join(p, install_dir, "kycontroller"),
    }
}

impl UserConf {
    /// The user config of a fresh machine: `install_dir` for the binaries
    /// (see [`default_install_dir`]), the platform's `kyclient`, web port
    /// 7700, default UI, and the default setup.
    pub fn defaults(p: Platform, install_dir: String) -> (r: UserConf)
        ensures
            r.kyber_install_dir@ == install_dir@,
            r.kyclient_path@ == default_kyclient_text(p),
            r.web_port == DEFAULT_WEB_PORT,
            r.ui.theme@ == "dark"@,
            r.ui.lang@ == "fr"@,
            r.active_setup@ == DEFAULT_SETUP_NAME@,
    {
        UserConf {
            kyber_install_dir: install_dir,
            kyclient_path: default_kyclient_path(p),
            web_port: DEFAULT_WEB_PORT,
            ui: Ui::default(),
            active_setup: String::from_str(DEFAULT_SETUP_NAME),
        }
    }
}

/// The emitter half: the transmitters and how to generate their configs.
#[derive(Debug)]
pub struct Emission {
    /// First control-plane port handed out to new transmitters.
    pub base_port: u16,
    /// TOML merged into every generated `kyber_config.toml`.
    pub defaults: TomlTable,
    /// The transmitters to run.
    pub transmitters: Vec<Transmitter>,
}

impl Default for Emission {
    fn default() -> (r: Emission)
        ensures
            r.base_port == DEFAULT_BASE_PORT,
            r.defaults@ == Map::<Seq<char>, crate::table::TomlValue>::empty(),
            r.transmitters@.len() == 0,
    {
        Emission { base_port: DEFAULT_BASE_PORT, defaults: TomlTable::new(), transmitters: Vec::new() }
    }
}

/// `i` is the first index of `s` whose transmitter is named `name`.
pub open spec fn first_named(s: Seq<Transmitter>, name: Seq<char>, i: int) -> bool {
    0 <= i < s.len() && s[i].name@ == name && forall|j: int| 0 <= j < i ==> s[j].name@ != name
}

/// No transmitter of `s` is named `name`.
pub open spec fn none_named(s: Seq<Transmitter>, name: Seq<char>) -> bool {
    forall|j: int| 0 <= j < s.len() ==> s[j].name@ != name
}

/// Some transmitter other than the one named `except` uses `port`.
pub open spec fn port_used(s: Seq<Transmitter>, port: u16, except: Option<Seq<char>>) -> bool {
    exists|i: int| 0 <= i < s.len() && #[trigger] s[i].port == port && !(except matches Some(e) && s[i].name@ == e)
}

impl Emission {
    /// Find a transmitter by name.
    pub fn get(&self, name: &str) -> (r: Option<&Transmitter>)
        ensures
            match r {
                Some(t) => exists|i: int| first_named(self.transmitters@, name@, i) && *t == self.transmitters@[i],
                None => none_named(self.transmitters@, name@),
            },
    {
        let mut i: usize = 0;
        while i < self.transmitters.len()
            invariant
                i <= self.transmitters@.len(),
                forall|j: int| 0 <= j < i ==> self.transmitters@[j].name@ != name@,
            decreases self.transmitters@.len() - i,
        {
            if str_eq(self.transmitters[i].name.as_str(), name) {
                assert(first_named(self.transmitters@, name@, i as int));
                return Some(&self.transmitters[i]);
            }
            i = i + 1;
        }
        None
    }

    /// `true` if `port` is already taken by a transmitter other than `except`.
    pub fn port_in_use(&self, port: u16, except: Option<&str>) -> (r: bool)
        ensures
            r == port_used(self.transmitters@, port, crate::model::opt_view(except)),
    {
        let mut i: usize = 0;
        while i < self.transmitters.len()
            invariant
                i <= self.transmitters@.len(),
                forall|j: int| 0 <= j < i ==> !(#[trigger] self.transmitters@[j].port == port && !(
                    crate::model::opt_view(except) matches Some(e) && self.transmitters@[j].name@ == e)),
            decreases self.transmitters@.len() - i,
        {
            let t = &self.transmitters[i];
            if t.port == port {
                let excepted = match except {
                    Some(e) => str_eq(t.name.as_str(), e),
                    None => false,
                };
                if !excepted {
                    return true;
                }
            }
            i = i + 1;
        }
        false
    }

    /// Lowest free port at or above `from`.
    pub fn next_free_port(&self, from: u16) -> (r: u16)
        requires
            exists|p: u16| from <= p && !port_used(self.transmitters@, p, None),
        ensures
            from <= r,
            !port_used(self.transmitters@, r, None),
            forall|q: u16| from <= q < r ==> port_used(self.transmitters@, q, None),
    {
        let mut port = from;
        while self.port_in_use(port, None)
            invariant
                from <= port,
                exists|p: u16| port <= p && !port_used(self.transmitters@, p, None),
                forall|q: u16| from <= q < port ==> port_used(self.transmitters@, q, None),
            decreases u16::MAX - port,
        {
            let ghost p = choose|p: u16| port <= p && !port_used(self.transmitters@, p, None);
            assert(p != port);
            port = port + 1;
        }
        port
    }
}

/// The receiver half: the viewers and the settings applied to all of them.
#[derive(Debug)]
pub struct Reception {
    /// Transparent basic-auth login used for every transmitter.
    pub auth_username: String,
    pub auth_password: String,
    /// Forward this machine's keyboard, mouse and gamepad.
    pub forward_inputs: bool,
    /// Play streamed audio.
    pub audio: bool,
    /// Grab the local keyboard for immersive mode.
    pub keyboard_grab: bool,
    /// Trust-On-First-Use TLS verification.
    pub tls_tofu: bool,
    /// The viewers to run.
    pub viewers: Vec<Viewer>,
}

impl Default for Reception {
    fn default() -> (r: Reception)
        ensures
            r.auth_username@ == DEFAULT_AUTH_USERNAME@,
            r.auth_password@ == DEFAULT_AUTH_PASSWORD@,
            !r.forward_inputs,
            !r.audio,
            !r.keyboard_grab,
            r.tls_tofu,
            r.viewers@.len() == 0,
    {
        Reception {
            auth_username: String::from_str(DEFAULT_AUTH_USERNAME),
            auth_password: String::from_str(DEFAULT_AUTH_PASSWORD),
            forward_inputs: false,
            audio: false,
            keyboard_grab: false,
            tls_tofu: true,
            viewers: Vec::new(),
        }
    }
}

/// One viewer: a `kyclient` connected to one remote transmitter.
#[derive(Debug)]
pub struct Viewer {
    /// Stable identifier (URLs, commands, log file name).
    pub id: String,
    /// Remote host the viewer connects to.
    pub server: String,
    /// Control-plane port of the remote transmitter.
    pub port: u16,
    /// Start fullscreen; ignored when `spout_out` is set.
    pub fullscreen: bool,
    /// Run windowless and re-publish the video as a Spout sender of this name.
    pub spout_out: Option<String>,
    /// Desktop takeover: windowed, inputs and keyboard grab forced on.
    pub remote_control: bool,
    /// Desired running state.
    pub enabled: bool,
}

/// Global viewer settings handed to the runtime supervisor.
#[derive(Debug)]
pub struct Globals {
    pub kyclient_path: String,
    pub auth_username: String,
    pub auth_password: String,
    pub forward_inputs: bool,
    pub audio: bool,
    pub keyboard_grab: bool,
    pub tls_tofu: bool,
}

/// The ids of `s`, in order.
pub open spec fn viewer_ids(s: Seq<Viewer>) -> Seq<Seq<char>> {
    s.map_values(|v: Viewer| v.id@)
}

/// `i` is the first index of `s` whose viewer has id `id`.
pub open spec fn first_with_id(s: Seq<Viewer>, id: Seq<char>, i: int) -> bool {
    0 <= i < s.len() && s[i].id@ == id && forall|j: int| 0 <= j < i ==> s[j].id@ != id
}

impl Reception {
    /// The non-viewer settings plus the machine `kyclient_path`.
    pub fn globals(&self, kyclient_path: String) -> (r: Globals)
        ensures
            r.kyclient_path@ == kyclient_path@,
            r.auth_username@ == self.auth_username@,
            r.auth_password@ == self.auth_password@,
            r.forward_inputs == self.forward_inputs,
            r.audio == self.audio,
            r.keyboard_grab == self.keyboard_grab,
            r.tls_tofu == self.tls_tofu,
    {
        Globals {
            kyclient_path,
            auth_username: self.auth_username.clone(),
            auth_password: self.auth_password.clone(),
            forward_inputs: self.forward_inputs,
            audio: self.audio,
            keyboard_grab: self.keyboard_grab,
            tls_tofu: self.tls_tofu,
        }
    }

    fn position(&self, id: &str) -> (r: Option<usize>)
        ensures
            match r {
                Some(i) => first_with_id(self.viewers@, id@, i as int),
                None => forall|j: int| 0 <= j < self.viewers@.len() ==> self.viewers@[j].id@ != id@,
            },
    {
        let mut i: usize = 0;
        while i < self.viewers.len()
            invariant
                i <= self.viewers@.len(),
                forall|j: int| 0 <= j < i ==> self.viewers@[j].id@ != id@,
            decreases self.viewers@.len() - i,
        {
            if str_eq(self.viewers[i].id.as_str(), id) {
                return Some(i);
            }
            i = i + 1;
        }
        None
    }

    /// Find a viewer by id.
    pub fn get(&self, id: &str) -> (r: Option<&Viewer>)
        ensures
            match r {
                Some(v) => exists|i: int| first_with_id(self.viewers@, id@, i) && *v == self.viewers@[i],
                None => forall|j: int| 0 <= j < self.viewers@.len() ==> self.viewers@[j].id@ != id@,
            },
    {
        match self.position(id) {
            Some(i) => Some(&self.viewers[i]),
            None => None,
        }
    }

    /// Find a viewer by id, for changing it in place.
    pub fn get_mut(&mut self, id: &str) -> (r: Option<&mut Viewer>)
        ensures
            match r {
                Some(v) => exists|i: int| {
                    &&& first_with_id(old(self).viewers@, id@, i)
                    &&& *v == old(self).viewers@[i]
                    &&& final(self).viewers@ == old(self).viewers@.update(i, *final(v))
                },
                None => {
                    &&& forall|j: int| 0 <= j < old(self).viewers@.len() ==> old(self).viewers@[j].id@ != id@
                    &&& final(self).viewers@ == old(self).viewers@
                },
            },
            final(self).auth_username == old(self).auth_username,
            final(self).auth_password == old(self).auth_password,
            final(self).forward_inputs == old(self).forward_inputs,
            final(self).audio == old(self).audio,
            final(self).keyboard_grab == old(self).keyboard_grab,
            final(self).tls_tofu == old(self).tls_tofu,
    {
        match self.position(id) {
            Some(i) => Some(&mut self.viewers[i]),
            None => None,
        }
    }

    /// A short unique viewer id (`viewer-1`, `viewer-2`, …): the first one no
    /// viewer holds.
    pub fn unique_id(&self) -> (r: String)
        requires
            self.viewers@.len() < u64::MAX - 1,
        ensures
            exists|n: nat| is_first_free(viewer_ids(self.viewers@), "viewer-"@, 1, n) && r@ == numbered("viewer-"@, n),
    {
        let mut ids: Vec<String> = Vec::new();
        let mut i: usize = 0;
        while i < self.viewers.len()
            invariant
                i <= self.viewers@.len(),
                strings_of(ids@) == viewer_ids(self.viewers@).subrange(0, i as int),
            decreases self.viewers@.len() - i,
        {
            let ghost prev = ids@;
            ids.push(self.viewers[i].id.clone());
            assert(strings_of(ids@) =~= strings_of(prev).push(self.viewers@[i as int].id@));
            assert(viewer_ids(self.viewers@).subrange(0, i + 1) =~= viewer_ids(self.viewers@).subrange(0, i as int).push(
                self.viewers@[i as int].id@));
            i = i + 1;
        }
        assert(viewer_ids(self.viewers@).subrange(0, self.viewers@.len() as int) =~= viewer_ids(self.viewers@));
        first_free("viewer-", &ids, 1)
    }
}

/// The `kyclient` argument vector for `viewer`: options first, the server last.
pub open spec fn kyclient_args_spec(g: Globals, v: Viewer) -> Seq<Seq<char>> {
    let remote = v.remote_control && v.spout_out is None;
    seq!["--port"@, decimal(v.port as nat)]
        + (if g.tls_tofu { seq!["--tls-tofu"@] } else { seq![] })
        + seq!["--auth-username"@, g.auth_username@, "--auth-password"@, g.auth_password@]
        + (match v.spout_out {
            Some(name) => seq!["--spout-out"@, name@],
            None => if v.fullscreen && !remote { seq!["--fullscreen"@] } else { seq![] },
        })
        + seq![
            "--inputs"@,
            bool_text(remote || g.forward_inputs),
            "--audio"@,
            bool_text(g.audio),
            "--keyboard-grab"@,
            bool_text(remote || g.keyboard_grab),
            v.server@,
        ]
}

/// Appends a copy of `s`.
fn push_string(args: &mut Vec<String>, s: &str)
    ensures
        strings_of(final(args)@) == strings_of(old(args)@).push(s@),
{
    let ghost prev = args@;
    args.push(String::from_str(s));
    assert(strings_of(args@) =~= strings_of(prev).push(s@));
}

impl Globals {
    /// Build the `kyclient` argument vector for `viewer`. A Spout relay
    /// replaces `--fullscreen`; remote control suppresses it and forces
    /// inputs and keyboard grab on; the positional server comes last.
    #[verifier::rlimit(50)]
    pub fn kyclient_args(&self, viewer: &Viewer) -> (r: Vec<String>)
        ensures
            strings_of(r@) == kyclient_args_spec(*self, *viewer),
    {
        let mut args: Vec<String> = Vec::new();
        let ghost mut expect: Seq<Seq<char>> = seq![];
        push_string(&mut args, "--port");
        push_string(&mut args, decimal_string(viewer.port as u64).as_str());
        proof {
            expect = seq!["--port"@, decimal(viewer.port as nat)];
            assert(strings_of(args@) =~= expect);
        }
        if self.tls_tofu {
            push_string(&mut args, "--tls-tofu");
        }
        proof {
            expect = expect + (if self.tls_tofu { seq!["--tls-tofu"@] } else { seq![] });
            assert(strings_of(args@) =~= expect);
        }
        push_string(&mut args, "--auth-username");
        push_string(&mut args, self.auth_username.as_str());
        push_string(&mut args, "--auth-password");
        push_string(&mut args, self.auth_password.as_str());
        proof {
            expect = expect + seq!["--auth-username"@, self.auth_username@, "--auth-password"@, self.auth_password@];
            assert(strings_of(args@) =~= expect);
        }
        let remote = viewer.remote_control && viewer.spout_out.is_none();
        match &viewer.spout_out {
            Some(name) => {
                push_string(&mut args, "--spout-out");
                push_string(&mut args, name.as_str());
            },
            None => {
                if viewer.fullscreen && !remote {
                    push_string(&mut args, "--fullscreen");
                }
            },
        }
        proof {
            expect = expect + (match &viewer.spout_out {
                Some(name) => seq!["--spout-out"@, name@],
                None => if viewer.fullscreen && !remote { seq!["--fullscreen"@] } else { seq![] },
            });
            assert(strings_of(args@) =~= expect);
        }
        let inputs = remote || self.forward_inputs;
        let keyboard_grab = remote || self.keyboard_grab;
        push_string(&mut args, "--inputs");
        push_string(&mut args, bool_string(inputs).as_str());
        push_string(&mut args, "--audio");
        push_string(&mut args, bool_string(self.audio).as_str());
        push_string(&mut args, "--keyboard-grab");
        push_string(&mut args, bool_string(keyboard_grab).as_str());
        push_string(&mut args, viewer.server.as_str());
        proof {
            expect = expect + seq![
                "--inputs"@,
                bool_text(inputs),
                "--audio"@,
                bool_text(self.audio),
                "--keyboard-grab"@,
                bool_text(keyboard_grab),
                viewer.server@,
            ];
            assert(strings_of(args@) =~= expect);
            assert(expect =~= kyclient_args_spec(*self, *viewer));
        }
        args
    }
}

/// What a viewer's `kyclient` command line carries, whatever the viewer: it
/// opens with `--port` and the port, ends with the server, and just before
/// the server come the three switches, each followed by `true` or `false`:
/// inputs (forced on by remote control without a Spout relay, else the
/// globals' setting), audio (the globals' setting, for every viewer), and
/// keyboard grab (forced on like inputs, else the globals' setting).
pub proof fn lemma_kyclient_args_switches(g: Globals, v: Viewer)
    ensures
        ({
            let a = kyclient_args_spec(g, v);
            let n = a.len();
            let remote = v.remote_control && v.spout_out is None;
            &&& n >= 9
            &&& a[0] == "--port"@ && a[1] == decimal(v.port as nat)
            &&& a[n - 1] == v.server@
            &&& a[n - 7] == "--inputs"@
            &&& a[n - 6] == (if remote || g.forward_inputs { "true"@ } else { "false"@ })
            &&& a[n - 5] == "--audio"@
            &&& a[n - 4] == (if g.audio { "true"@ } else { "false"@ })
            &&& a[n - 3] == "--keyboard-grab"@
            &&& a[n - 2] == (if remote || g.keyboard_grab { "true"@ } else { "false"@ })
        }),
{
    let remote = v.remote_control && v.spout_out is None;
    let head = seq!["--port"@, decimal(v.port as nat)]
        + (if g.tls_tofu { seq!["--tls-tofu"@] } else { seq![] })
        + seq!["--auth-username"@, g.auth_username@, "--auth-password"@, g.auth_password@]
        + (match v.spout_out {
            Some(name) => seq!["--spout-out"@, name@],
            None => if v.fullscreen && !remote { seq!["--fullscreen"@] } else { seq![] },
        });
    let tail = seq![
        "--inputs"@,
        bool_text(remote || g.forward_inputs),
        "--audio"@,
        bool_text(g.audio),
        "--keyboard-grab"@,
        bool_text(remote || g.keyboard_grab),
        v.server@,
    ];
    let a = kyclient_args_spec(g, v);
    assert(a =~= head + tail);
    assert(head.len() >= 6);
    let n = a.len();
    assert(a[n - 7] == tail[0]);
    assert(a[n - 6] == tail[1]);
    assert(a[n - 5] == tail[2]);
    assert(a[n - 4] == tail[3]);
    assert(a[n - 3] == tail[4]);
    assert(a[n - 2] == tail[5]);
    assert(a[n - 1] == tail[6]);
    assert(a[0] == head[0] && a[1] == head[1]);
}

/// One setup document: the emission and reception halves.
#[derive(Debug)]
pub struct Setup {
    pub emission: Emission,
    pub reception: Reception,
}

impl Default for Setup {
    fn default() -> (r: Setup)
        ensures
            r.emission.base_port == DEFAULT_BASE_PORT,
            r.emission.defaults@ == Map::<Seq<char>, crate::table::TomlValue>::empty(),
            r.emission.transmitters@.len() == 0,
            r.reception.auth_username@ == DEFAULT_AUTH_USERNAME@,
            r.reception.auth_password@ == DEFAULT_AUTH_PASSWORD@,
            !r.reception.forward_inputs,
            !r.reception.audio,
            !r.reception.keyboard_grab,
            r.reception.tls_tofu,
            r.reception.viewers@.len() == 0,
    {
        Setup { emission: Emission::default(), reception: Reception::default() }
    }
}

/// The whole live configuration: the user config merged with the active setup.
#[derive(Debug)]
pub struct Config {
    pub kyber_install_dir: String,
    pub kyclient_path: String,
    pub web_port: u16,
    pub ui: Ui,
    pub active_setup: String,
    pub emission: Emission,
    pub reception: Reception,
}

/// The two documents a configuration is saved as.
pub open spec fn split_of(c: Config) -> (UserConf, Setup) {
    (
        UserConf {
            kyber_install_dir: c.kyber_install_dir,
            kyclient_path: c.kyclient_path,
            web_port: c.web_port,
            ui: c.ui,
            active_setup: c.active_setup,
        },
        Setup { emission: c.emission, reception: c.reception },
    )
}

/// The configuration a user config and a setup document make together.
pub open spec fn merge_of(user: UserConf, setup: Setup) -> Config {
    Config {
        kyber_install_dir: user.kyber_install_dir,
        kyclient_path: user.kyclient_path,
        web_port: user.web_port,
        ui: user.ui,
        active_setup: user.active_setup,
        emission: setup.emission,
        reception: setup.reception,
    }
}

impl Config {
    /// The configuration of a fresh machine: the default user config with an
    /// empty default setup.
    pub fn defaults(p: Platform, install_dir: String) -> (r: Config)
        ensures
            r.kyber_install_dir@ == install_dir@,
            r.kyclient_path@ == default_kyclient_text(p),
            r.web_port == DEFAULT_WEB_PORT,
            r.ui.theme@ == "dark"@,
            r.ui.lang@ == "fr"@,
            r.active_setup@ == DEFAULT_SETUP_NAME@,
            r.emission.base_port == DEFAULT_BASE_PORT,
            r.emission.transmitters@.len() == 0,
            r.emission.defaults@ == Map::<Seq<char>, crate::table::TomlValue>::empty(),
            r.reception.viewers@.len() == 0,
            r.reception.tls_tofu,
            config_is_valid(r),
    {
        let user = UserConf::defaults(p, install_dir);
        Config::merge(user, Setup::default())
    }

    /// The non-viewer reception settings plus the machine `kyclient_path`.
    pub fn globals(&self) -> (r: Globals)
        ensures
            r.kyclient_path@ == self.kyclient_path@,
            r.auth_username@ == self.reception.auth_username@,
            r.auth_password@ == self.reception.auth_password@,
            r.forward_inputs == self.reception.forward_inputs,
            r.audio == self.reception.audio,
            r.keyboard_grab == self.reception.keyboard_grab,
            r.tls_tofu == self.reception.tls_tofu,
    {
        self.reception.globals(self.kyclient_path.clone())
    }

    /// Split the aggregate into the user config and the setup document.
    pub fn split(self) -> (r: (UserConf, Setup))
        ensures
            r == split_of(self),
    {
        (
            UserConf {
                kyber_install_dir: self.kyber_install_dir,
                kyclient_path: self.kyclient_path,
                web_port: self.web_port,
                ui: self.ui,
                active_setup: self.active_setup,
            },
            Setup { emission: self.emission, reception: self.reception },
        )
    }

    /// Merge a user config and a setup document into the runtime aggregate.
    pub fn merge(user: UserConf, setup: Setup) -> (r: Config)
        ensures
            r == merge_of(user, setup),
    {
        Config {
            kyber_install_dir: user.kyber_install_dir,
            kyclient_path: user.kyclient_path,
            web_port: user.web_port,
            ui: user.ui,
            active_setup: user.active_setup,
            emission: setup.emission,
            reception: setup.reception,
        }
    }
}

/// Merging what splitting gives back yields the configuration unchanged.
pub proof fn lemma_merge_undoes_split(c: Config)
    ensures
        merge_of(split_of(c).0, split_of(c).1) == c,
{
}

/// Splitting a merged configuration gives back both documents unchanged.
pub proof fn lemma_split_undoes_merge(user: UserConf, setup: Setup)
    ensures
        split_of(merge_of(user, setup)) == (user, setup),
{
}

/// Why a configuration cannot run.
#[derive(Debug)]
pub enum ConfigError {
    /// A transmitter name is empty or holds path-hostile characters.
    InvalidTransmitterName(String),
    /// Two transmitters share a name.
    DuplicateTransmitterName(String),
    /// Two transmitters share a port: the first one holding it, the second, the port.
    PortClash(String, String, u16),
    /// A viewer of the named setup has an empty id.
    EmptyViewerId(String),
    /// Two viewers share an id.
    DuplicateViewerId(String),
}

/// A [`ConfigError`] with its texts as character sequences.
pub enum ConfigFault {
    InvalidTransmitterName(Seq<char>),
    DuplicateTransmitterName(Seq<char>),
    PortClash(Seq<char>, Seq<char>, u16),
    EmptyViewerId(Seq<char>),
    DuplicateViewerId(Seq<char>),
}

impl ConfigError {
    pub open spec fn fault(self) -> ConfigFault {
        match self {
            ConfigError::InvalidTransmitterName(n) => ConfigFault::InvalidTransmitterName(n@),
            ConfigError::DuplicateTransmitterName(n) => ConfigFault::DuplicateTransmitterName(n@),
            ConfigError::PortClash(a, b, p) => ConfigFault::PortClash(a@, b@, p),
            ConfigError::EmptyViewerId(s) => ConfigFault::EmptyViewerId(s@),
            ConfigError::DuplicateViewerId(i) => ConfigFault::DuplicateViewerId(i@),
        }
    }
}

/// `j` is the first index of `s` holding `port`.
pub open spec fn first_port_holder(s: Seq<Transmitter>, port: u16, j: int) -> bool {
    0 <= j < s.len() && s[j].port == port && forall|k: int| 0 <= k < j ==> s[k].port != port
}

/// What is wrong with transmitter `i` given those before it, if anything:
/// a bad name, a name seen before, or a port seen before.
pub open spec fn transmitter_fault(s: Seq<Transmitter>, i: int) -> Option<ConfigFault> {
    if !is_valid_dir_name(s[i].name@) {
        Some(ConfigFault::InvalidTransmitterName(s[i].name@))
    } else if exists|j: int| 0 <= j < i && #[trigger] s[j].name@ == s[i].name@ {
        Some(ConfigFault::DuplicateTransmitterName(s[i].name@))
    } else if exists|j: int| 0 <= j < i && #[trigger] s[j].port == s[i].port {
        let j = choose|j: int| first_port_holder(s, s[i].port, j);
        Some(ConfigFault::PortClash(s[j].name@, s[i].name@, s[i].port))
    } else {
        None
    }
}

/// What is wrong with viewer `i` given those before it, if anything.
pub open spec fn viewer_fault(s: Seq<Viewer>, i: int, setup: Seq<char>) -> Option<ConfigFault> {
    if trim(s[i].id@).len() == 0 {
        Some(ConfigFault::EmptyViewerId(setup))
    } else if exists|j: int| 0 <= j < i && #[trigger] s[j].id@ == s[i].id@ {
        Some(ConfigFault::DuplicateViewerId(s[i].id@))
    } else {
        None
    }
}

/// The first fault of a configuration: transmitters in order, then viewers.
pub open spec fn config_fault_is(c: Config, f: ConfigFault) -> bool {
    let t = c.emission.transmitters@;
    let v = c.reception.viewers@;
    ||| exists|i: int| 0 <= i < t.len() && (forall|j: int| 0 <= j < i ==> (#[trigger] transmitter_fault(t, j)) is None)
        && transmitter_fault(t, i) == Some(f)
    ||| (forall|j: int| 0 <= j < t.len() ==> (#[trigger] transmitter_fault(t, j)) is None)
        && exists|i: int| 0 <= i < v.len() && (forall|j: int| 0 <= j < i ==> (#[trigger] viewer_fault(v, j, c.active_setup@)) is None)
        && viewer_fault(v, i, c.active_setup@) == Some(f)
}

/// The configuration has no fault.
pub open spec fn config_is_valid(c: Config) -> bool {
    &&& forall|j: int| 0 <= j < c.emission.transmitters@.len() ==> (#[trigger] transmitter_fault(c.emission.transmitters@, j)) is None
    &&& forall|j: int| 0 <= j < c.reception.viewers@.len() ==> (#[trigger] viewer_fault(c.reception.viewers@, j, c.active_setup@)) is None
}

/// Checks transmitter `i` against the ones before it.
fn check_transmitter(t: &Vec<Transmitter>, i: usize) -> (r: Option<ConfigError>)
    requires
        i < t@.len(),
        forall|j: int| 0 <= j < i ==> (#[trigger] transmitter_fault(t@, j)) is None,
    ensures
        match r {
            Some(e) => transmitter_fault(t@, i as int) == Some(e.fault()),
            None => transmitter_fault(t@, i as int) is None,
        },
{
    if !valid_dir_name(t[i].name.as_str()) {
        return Some(ConfigError::InvalidTransmitterName(t[i].name.clone()));
    }
    let mut j: usize = 0;
    while j < i
        invariant
            i < t@.len(),
            j <= i,
            is_valid_dir_name(t@[i as int].name@),
            forall|k: int| 0 <= k < j ==> t@[k].name@ != t@[i as int].name@,
        decreases i - j,
    {
        if str_eq(t[j].name.as_str(), t[i].name.as_str()) {
            assert(t@[j as int].name@ == t@[i as int].name@);
            return Some(ConfigError::DuplicateTransmitterName(t[i].name.clone()));
        }
        j = j + 1;
    }
    let mut j: usize = 0;
    while j < i
        invariant
            i < t@.len(),
            j <= i,
            is_valid_dir_name(t@[i as int].name@),
            forall|k: int| 0 <= k < i ==> t@[k].name@ != t@[i as int].name@,
            forall|k: int| 0 <= k < j ==> t@[k].port != t@[i as int].port,
        decreases i - j,
    {
        if t[j].port == t[i].port {
            proof {
                assert(first_port_holder(t@, t@[i as int].port, j as int));
                let c = choose|k: int| first_port_holder(t@, t@[i as int].port, k);
                if c < j {
                } else if c > j {
                }
                assert(c == j);
            }
            return Some(ConfigError::PortClash(t[j].name.clone(), t[i].name.clone(), t[i].port));
        }
        j = j + 1;
    }
    None
}

/// Checks viewer `i` against the ones before it.
fn check_viewer(v: &Vec<Viewer>, i: usize, setup: &String) -> (r: Option<ConfigError>)
    requires
        i < v@.len(),
    ensures
        match r {
            Some(e) => viewer_fault(v@, i as int, setup@) == Some(e.fault()),
            None => viewer_fault(v@, i as int, setup@) is None,
        },
{
    let id = chars_of(v[i].id.as_str());
    if trimmed(&id).len() == 0 {
        return Some(ConfigError::EmptyViewerId(setup.clone()));
    }
    let mut j: usize = 0;
    while j < i
        invariant
            i < v@.len(),
            j <= i,
            trim(v@[i as int].id@).len() != 0,
            forall|k: int| 0 <= k < j ==> v@[k].id@ != v@[i as int].id@,
        decreases i - j,
    {
        if str_eq(v[j].id.as_str(), v[i].id.as_str()) {
            assert(v@[j as int].id@ == v@[i as int].id@);
            return Some(ConfigError::DuplicateViewerId(v[i].id.clone()));
        }
        j = j + 1;
    }
    None
}

/// Reject a configuration that cannot run: transmitter names must be
/// path-safe and unique, ports unique, viewer ids non-blank and unique. The
/// first fault found, in that order, is reported.
pub fn validate(config: &Config) -> (r: Result<(), ConfigError>)
    ensures
        match r {
            Ok(()) => config_is_valid(*config),
            Err(e) => config_fault_is(*config, e.fault()),
        },
{
    let t = &config.emission.transmitters;
    let mut i: usize = 0;
    while i < t.len()
        invariant
            t@ == config.emission.transmitters@,
            i <= t@.len(),
            forall|j: int| 0 <= j < i ==> (#[trigger] transmitter_fault(t@, j)) is None,
        decreases t@.len() - i,
    {
        if let Some(e) = check_transmitter(t, i) {
            assert(0 <= i < t@.len() && (forall|j: int| 0 <= j < i ==> (#[trigger] transmitter_fault(t@, j)) is None)
                && transmitter_fault(t@, i as int) == Some(e.fault()));
            return Err(e);
        }
        i = i + 1;
    }
    let v = &config.reception.viewers;
    let mut i: usize = 0;
    while i < v.len()
        invariant
            t@ == config.emission.transmitters@,
            v@ == config.reception.viewers@,
            i <= v@.len(),
            forall|j: int| 0 <= j < t@.len() ==> (#[trigger] transmitter_fault(t@, j)) is None,
            forall|j: int| 0 <= j < i ==> (#[trigger] viewer_fault(v@, j, config.active_setup@)) is None,
        decreases v@.len() - i,
    {
        if let Some(e) = check_viewer(v, i, &config.active_setup) {
            assert(0 <= i < v@.len() && (forall|j: int| 0 <= j < i ==> (#[trigger] viewer_fault(v@, j, config.active_setup@)) is None)
                && viewer_fault(v@, i as int, config.active_setup@) == Some(e.fault()));
            return Err(e);
        }
        i = i + 1;
    }
    Ok(())
}

/// A character allowed in a setup file stem.
pub open spec fn is_setup_name_char(c: char) -> bool {
    is_ascii_alnum(c) || c == '-' || c == '_'
}

/// `true` if `name` is safe as a setup file stem: 1 to 64 ASCII letters,
/// digits, `-` or `_`.
pub open spec fn is_safe_setup_name_text(name: Seq<char>) -> bool {
    0 < name.len() <= 64 && forall|i: int| 0 <= i < name.len() ==> is_setup_name_char(#[trigger] name[i])
}

/// `true` if `name` is safe as a setup file stem (no path components, etc.).
pub fn is_safe_setup_name(name: &str) -> (r: bool)
    ensures
        r == is_safe_setup_name_text(name@),
{
    let v = chars_of(name);
    if v.len() == 0 || v.len() > 64 {
        return false;
    }
    let mut i: usize = 0;
    while i < v.len()
        invariant
            v@ == name@,
            i <= v@.len(),
            forall|j: int| 0 <= j < i ==> is_setup_name_char(#[trigger] v@[j]),
        decreases v@.len() - i,
    {
        let c = v[i];
        if !(ascii_alnum(c) || c == '-' || c == '_') {
            return false;
        }
        i = i + 1;
    }
    true
}

/// A character a sanitized setup name keeps as it is.
pub open spec fn is_kept_char(c: char) -> bool {
    is_ascii_alnum(c) || c == '_'
}

/// Kept characters stay, every run of other characters becomes one `-`.
pub open spec fn collapse_runs(s: Seq<char>) -> Seq<char>
    decreases s.len(),
{
    if s.len() == 0 {
        seq![]
    } else {
        let o = collapse_runs(s.drop_last());
        if is_kept_char(s.last()) {
            o.push(s.last())
        } else if o.len() > 0 && o.last() == '-' {
            o
        } else {
            o.push('-')
        }
    }
}

/// The setup name a file of the setups directory stands for: the stem of a
/// `.toml` file, as a path splits it (`a.toml` is `a`; `.toml` alone is a
/// hidden file with no extension and names nothing).
pub open spec fn toml_stem(file: Seq<char>) -> Option<Seq<char>> {
    if file.len() > 5 && ends_with(file, ".toml"@) {
        Some(file.subrange(0, file.len() - 5))
    } else {
        None
    }
}

/// The setup names among `files`, in their order.
pub open spec fn toml_stems(files: Seq<Seq<char>>) -> Seq<Seq<char>>
    decreases files.len(),
{
    if files.len() == 0 {
        seq![]
    } else {
        toml_stems(files.drop_last()) + match toml_stem(files.last()) {
            Some(stem) => seq![stem],
            None => seq![],
        }
    }
}

/// No name of `s` sorts strictly before one that comes earlier.
pub open spec fn names_sorted(s: Seq<Seq<char>>) -> bool {
    forall|i: int, j: int| 0 <= i < j < s.len() ==> !text_lt(#[trigger] s[j], #[trigger] s[i])
}

/// The setups a directory holds, given the names of its files: the stems of
/// the `.toml` ones, sorted.
pub fn setup_names(files: &Vec<String>) -> (r: Vec<String>)
    ensures
        strings_of(r@).to_multiset() == toml_stems(strings_of(files@)).to_multiset(),
        names_sorted(strings_of(r@)),
{
    broadcast use vstd::seq_lib::group_to_multiset_ensures;
    broadcast use vstd::multiset::group_multiset_axioms;
    let ghost all = strings_of(files@);
    let suffix = lit(".toml");
    proof {
        reveal_strlit(".toml");
    }
    let mut stems: Vec<String> = Vec::new();
    let mut i: usize = 0;
    while i < files.len()
        invariant
            i <= files@.len(),
            all == strings_of(files@),
            suffix@ == ".toml"@,
            strings_of(stems@) == toml_stems(all.subrange(0, i as int)),
        decreases files@.len() - i,
    {
        let name = chars_of(files[i].as_str());
        assert(all.subrange(0, i + 1).drop_last() =~= all.subrange(0, i as int));
        assert(all.subrange(0, i + 1).last() == all[i as int]);
        let ghost before = strings_of(stems@);
        if name.len() > 5 && vec_ends_with(&name, &suffix) {
            stems.push(string_of(&name, 0, name.len() - 5));
            assert(strings_of(stems@) =~= before + seq![all[i as int].subrange(0, all[i as int].len() - 5)]);
        } else {
            assert(before + seq![] =~= before);
        }
        i = i + 1;
    }
    assert(all.subrange(0, all.len() as int) =~= all);
    let mut out: Vec<String> = Vec::new();
    while stems.len() > 0
        invariant
            strings_of(out@).to_multiset().add(strings_of(stems@).to_multiset()) == toml_stems(all).to_multiset(),
            names_sorted(strings_of(out@)),
        decreases stems@.len(),
    {
        let ghost before_rest = strings_of(stems@);
        let item = stems.pop().unwrap();
        assert(before_rest =~= strings_of(stems@).push(item@));
        let mut k: usize = 0;
        while k < out.len() && !text_less(item.as_str(), out[k].as_str())
            invariant
                k <= out@.len(),
                forall|j: int| 0 <= j < k ==> !text_lt(item@, #[trigger] strings_of(out@)[j]),
            decreases out@.len() - k,
        {
            k = k + 1;
        }
        let ghost prev = strings_of(out@);
        out.insert(k, item);
        assert(strings_of(out@) =~= prev.insert(k as int, item@));
        let ghost now = strings_of(out@);
        proof {
            vstd::seq_lib::to_multiset_insert(prev, k as int, item@);
            vstd::seq_lib::to_multiset_build(strings_of(stems@), item@);
        }
        assert(now.to_multiset().add(strings_of(stems@).to_multiset()) =~= prev.to_multiset().add(
            before_rest.to_multiset(),
        ));
        assert forall|a: int, b: int| 0 <= a < b < now.len() implies !text_lt(#[trigger] now[b], #[trigger] now[a]) by {
            if b < k {
                assert(now[a] == prev[a] && now[b] == prev[b]);
            } else if b == k {
                assert(now[a] == prev[a]);
            } else if a == k {
                let p = prev[k as int];
                let q = prev[b - 1];
                assert(now[b] == q);
                assert(text_lt(item@, p));
                if text_lt(q, item@) {
                    lemma_text_lt_transitive(q, item@, p);
                }
                lemma_text_lt_irreflexive(p);
            } else if a < k {
                assert(now[a] == prev[a] && now[b] == prev[b - 1]);
            } else {
                assert(now[a] == prev[a - 1] && now[b] == prev[b - 1]);
            }
        }
    }
    out
}

/// At most the first 64 characters of `s`.
pub open spec fn first_64(s: Seq<char>) -> Seq<char> {
    if s.len() <= 64 { s } else { s.take(64) }
}

/// The safe stem a requested setup name becomes: trimmed, runs of other
/// characters collapsed to `-`, `-` trimmed from both ends, cut at 64.
pub open spec fn sanitized_setup_name(name: Seq<char>) -> Seq<char> {
    first_64(crate::text::trim_end_char(crate::text::trim_start_char(collapse_runs(trim(name)), '-'), '-'))
}

/// Coerce an arbitrary requested name into a safe setup stem.
pub fn sanitize_setup_name(name: &str) -> (r: String)
    ensures
        r@ == sanitized_setup_name(name@),
{
    let t = trimmed(&chars_of(name));
    let mut out: Vec<char> = Vec::new();
    let mut prev_dash = false;
    let mut i: usize = 0;
    while i < t.len()
        invariant
            i <= t@.len(),
            out@ == collapse_runs(t@.subrange(0, i as int)),
            prev_dash == (out@.len() > 0 && out@.last() == '-'),
        decreases t@.len() - i,
    {
        let c = t[i];
        assert(t@.subrange(0, i + 1).drop_last() =~= t@.subrange(0, i as int));
        if ascii_alnum(c) || c == '_' {
            out.push(c);
            prev_dash = false;
        } else if !prev_dash {
            out.push('-');
            prev_dash = true;
        }
        i = i + 1;
    }
    assert(t@.subrange(0, t@.len() as int) =~= t@);
    let a = crate::text::trim_start_char_index(&out, '-');
    let rest = crate::text::sub_vec(&out, a, out.len());
    let b = trim_end_char_index(&rest, '-');
    let cut = if b <= 64 { b } else { 64 };
    proof {
        if b > 64 {
            assert(rest@.subrange(0, b as int).take(64) =~= rest@.subrange(0, 64));
        }
    }
    crate::text::string_of(&rest, 0, cut)
}

/// The index just past the last character of `v` that is not `c`.
fn trim_end_char_index(v: &Vec<char>, c: char) -> (r: usize)
    ensures
        r <= v@.len(),
        crate::text::trim_end_char(v@, c) == v@.subrange(0, r as int),
{
    let mut j: usize = v.len();
    assert(v@.subrange(0, j as int) =~= v@);
    while j > 0 && v[j - 1] == c
        invariant
            j <= v@.len(),
            crate::text::trim_end_char(v@, c) == crate::text::trim_end_char(v@.subrange(0, j as int), c),
        decreases j,
    {
        assert(v@.subrange(0, j as int).drop_last() =~= v@.subrange(0, j - 1));
        j = j - 1;
    }
    j
}


proof fn lemma_collapse_runs_chars(s: Seq<char>)
    ensures
        forall|i: int| 0 <= i < collapse_runs(s).len() ==> is_setup_name_char(#[trigger] collapse_runs(s)[i]),
    decreases s.len(),
{
    if s.len() > 0 {
        lemma_collapse_runs_chars(s.drop_last());
        let o = collapse_runs(s.drop_last());
        let r = collapse_runs(s);
        assert forall|i: int| 0 <= i < r.len() implies is_setup_name_char(#[trigger] r[i]) by {
            if i < o.len() {
                assert(r[i] == o[i]);
            }
        }
    }
}

proof fn lemma_trim_char_setup(s: Seq<char>, c: char)
    requires
        forall|i: int| 0 <= i < s.len() ==> is_setup_name_char(#[trigger] s[i]),
    ensures
        forall|i: int| 0 <= i < crate::text::trim_start_char(s, c).len()
            ==> is_setup_name_char(#[trigger] crate::text::trim_start_char(s, c)[i]),
        forall|i: int| 0 <= i < crate::text::trim_end_char(s, c).len()
            ==> is_setup_name_char(#[trigger] crate::text::trim_end_char(s, c)[i]),
    decreases s.len(),
{
    if s.len() > 0 {
        let f = s.drop_first();
        let l = s.drop_last();
        assert forall|i: int| 0 <= i < f.len() implies is_setup_name_char(#[trigger] f[i]) by {
            assert(f[i] == s[i + 1]);
        }
        assert forall|i: int| 0 <= i < l.len() implies is_setup_name_char(#[trigger] l[i]) by {
            assert(l[i] == s[i]);
        }
        lemma_trim_char_setup(f, c);
        lemma_trim_char_setup(l, c);
        let ts = crate::text::trim_start_char(s, c);
        let te = crate::text::trim_end_char(s, c);
        if s[0] == c {
            assert(ts == crate::text::trim_start_char(f, c));
        } else {
            assert(ts == s);
        }
        if s.last() == c {
            assert(te == crate::text::trim_end_char(l, c));
        } else {
            assert(te == s);
        }
        assert forall|i: int| 0 <= i < ts.len() implies is_setup_name_char(#[trigger] ts[i]) by {
            if s[0] != c {
                assert(ts[i] == s[i]);
            }
        }
        assert forall|i: int| 0 <= i < te.len() implies is_setup_name_char(#[trigger] te[i]) by {
            if s.last() != c {
                assert(te[i] == s[i]);
            }
        }
    }
}

/// Whatever is requested, the sanitized setup name is either empty or a safe
/// file stem: at most 64 ASCII letters, digits, `-` and `_`.
pub proof fn lemma_sanitized_name_is_safe(name: Seq<char>)
    ensures
        sanitized_setup_name(name).len() > 0 ==> is_safe_setup_name_text(sanitized_setup_name(name)),
{
    let c = collapse_runs(trim(name));
    lemma_collapse_runs_chars(trim(name));
    let a = crate::text::trim_start_char(c, '-');
    lemma_trim_char_setup(c, '-');
    let b = crate::text::trim_end_char(a, '-');
    lemma_trim_char_setup(a, '-');
    let r = sanitized_setup_name(name);
    assert forall|i: int| 0 <= i < r.len() implies is_setup_name_char(#[trigger] r[i]) by {
        assert(r[i] == b[i]);
    }
}

} // verus!
