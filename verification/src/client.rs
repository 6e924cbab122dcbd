//! The configuration of a scene machine running several viewers at once: a
//! set of global knobs plus a list of instances, each one a `kyclient`
//! connected to a transmitter. The globals carry the passive-display defaults
//! (no input forwarding, no audio, keyboard free) and the transparent login.

use vstd::prelude::*;
use crate::model::{DEFAULT_AUTH_PASSWORD, DEFAULT_AUTH_USERNAME};
use crate::naming::{first_free, is_first_free, numbered};
use crate::ops::is_valid_viewer_id;
use crate::text::is_ascii_alnum;
use crate::paths::Platform;
use crate::text::{bool_string, bool_text, chars_of, decimal, decimal_string, str_eq, strings_of, trim, trimmed};

verus! {

/// Default port of the client web UI.
pub const DEFAULT_WEB_PORT: u16 = 7701;

/// One viewer: a `kyclient` connected to one transmitter.
#[derive(Clone, Debug)]
pub struct Instance {
    /// Stable identifier (URLs, commands, log file name).
    pub id: String,
    /// Host the viewer connects to.
    pub server: String,
    /// Control-plane port of the transmitter to display.
    pub port: u16,
    /// Start the viewer fullscreen.
    pub fullscreen: bool,
    /// Desired running state: launched on start when set.
    pub enabled: bool,
}

/// The client configuration.
#[derive(Debug)]
pub struct ClientConfig {
    pub kyclient_path: String,
    /// Port the client web UI listens on.
    pub web_port: u16,
    /// Transparent basic-auth login used for every transmitter.
    pub auth_username: String,
    pub auth_password: String,
    /// Forward this machine's keyboard, mouse and gamepad.
    pub forward_inputs: bool,
    /// Play streamed audio.
    pub audio: bool,
    /// Grab the local keyboard for immersive mode.
    pub keyboard_grab: bool,
    /// Trust-on-first-use TLS verification.
    pub tls_tofu: bool,
    /// The viewers to run.
    pub instances: Vec<Instance>,
}

/// Global settings handed to the runtime supervisor.
#[derive(Debug)]
pub struct Globals {
    pub kyclient_path: String,
    pub auth_username: String,
    pub auth_password: String,
    pub forward_inputs: bool,
    pub audio: bool,
    pub keyboard_grab: bool,
    pub tls_tofu: bool,
}

/// The default location of the client binary: the validated install on
/// Windows, a bare name resolved through `PATH` elsewhere.
pub open spec fn client_kyclient_text(p: Platform) -> Seq<char> {
    if p == Platform::Windows { "D:\\soft\\kyber\\kyclient.exe"@ } else { "kyclient"@ }
}

/// The default location of the client binary.
pub fn default_kyclient_path(p: Platform) -> (r: String)
    ensures
        r@ == client_kyclient_text(p),
{
    match p {
        Platform::Windows => String::from_str("D:\\soft\\kyber\\kyclient.exe"),
        Platform::Unix => String::from_str("kyclient"),
    }
}

/// The ids of `s`, in order.
pub open spec fn instance_ids(s: Seq<Instance>) -> Seq<Seq<char>> {
    s.map_values(|i: Instance| i.id@)
}

/// `i` is the first index of `s` whose instance has id `id`.
pub open spec fn first_instance(s: Seq<Instance>, id: Seq<char>, i: int) -> bool {
    0 <= i < s.len() && s[i].id@ == id && forall|j: int| 0 <= j < i ==> s[j].id@ != id
}

impl ClientConfig {
    /// A fresh configuration: the platform's client binary, web port 7701,
    /// the default login, a passive display (no inputs, no audio, keyboard
    /// free), TOFU on, and no instance.
    pub fn defaults(p: Platform) -> (r: ClientConfig)
        ensures
            r.kyclient_path@ == client_kyclient_text(p),
            r.web_port == DEFAULT_WEB_PORT,
            r.auth_username@ == DEFAULT_AUTH_USERNAME@,
            r.auth_password@ == DEFAULT_AUTH_PASSWORD@,
            !r.forward_inputs && !r.audio && !r.keyboard_grab,
            r.tls_tofu,
            r.instances@.len() == 0,
            forall|j: int| 0 <= j < r.instances@.len() ==> (#[trigger] instance_fault(r.instances@, j)) is None,
    {
        ClientConfig {
            kyclient_path: default_kyclient_path(p),
            web_port: DEFAULT_WEB_PORT,
            auth_username: String::from_str(DEFAULT_AUTH_USERNAME),
            auth_password: String::from_str(DEFAULT_AUTH_PASSWORD),
            forward_inputs: false,
            audio: false,
            keyboard_grab: false,
            tls_tofu: true,
            instances: Vec::new(),
        }
    }

    /// The non-instance settings, for the runtime manager.
    pub fn globals(&self) -> (r: Globals)
        ensures
            r.kyclient_path@ == self.kyclient_path@,
            r.auth_username@ == self.auth_username@,
            r.auth_password@ == self.auth_password@,
            r.forward_inputs == self.forward_inputs,
            r.audio == self.audio,
            r.keyboard_grab == self.keyboard_grab,
            r.tls_tofu == self.tls_tofu,
    {
        Globals {
            kyclient_path: self.kyclient_path.clone(),
            auth_username: self.auth_username.clone(),
            auth_password: self.auth_password.clone(),
            forward_inputs: self.forward_inputs,
            audio: self.audio,
            keyboard_grab: self.keyboard_grab,
            tls_tofu: self.tls_tofu,
        }
    }

    fn position(&self, id: &str) -> (r: Option<usize>)
        ensures
            match r {
                Some(i) => first_instance(self.instances@, id@, i as int),
                None => forall|j: int| 0 <= j < self.instances@.len() ==> self.instances@[j].id@ != id@,
            },
    {
        let mut i: usize = 0;
        while i < self.instances.len()
            invariant
                i <= self.instances@.len(),
                forall|j: int| 0 <= j < i ==> self.instances@[j].id@ != id@,
            decreases self.instances@.len() - i,
        {
            if str_eq(self.instances[i].id.as_str(), id) {
                return Some(i);
            }
            i = i + 1;
        }
        None
    }

    /// Find an instance by id.
    pub fn get(&self, id: &str) -> (r: Option<&Instance>)
        ensures
            match r {
                Some(v) => exists|i: int| first_instance(self.instances@, id@, i) && *v == self.instances@[i],
                None => forall|j: int| 0 <= j < self.instances@.len() ==> self.instances@[j].id@ != id@,
            },
    {
        match self.position(id) {
            Some(i) => Some(&self.instances[i]),
            None => None,
        }
    }

    /// Find an instance by id, for changing it in place.
    pub fn get_mut(&mut self, id: &str) -> (r: Option<&mut Instance>)
        ensures
            match r {
                Some(v) => exists|i: int| {
                    &&& first_instance(old(self).instances@, id@, i)
                    &&& *v == old(self).instances@[i]
                    &&& final(self).instances@ == old(self).instances@.update(i, *final(v))
                },
                None => {
                    &&& forall|j: int| 0 <= j < old(self).instances@.len() ==> old(self).instances@[j].id@ != id@
                    &&& final(self).instances@ == old(self).instances@
                },
            },
            final(self).kyclient_path == old(self).kyclient_path,
            final(self).web_port == old(self).web_port,
            final(self).auth_username == old(self).auth_username,
            final(self).auth_password == old(self).auth_password,
            final(self).forward_inputs == old(self).forward_inputs,
            final(self).audio == old(self).audio,
            final(self).keyboard_grab == old(self).keyboard_grab,
            final(self).tls_tofu == old(self).tls_tofu,
    {
        match self.position(id) {
            Some(i) => Some(&mut self.instances[i]),
            None => None,
        }
    }

    /// A short unique instance id (`instance-1`, `instance-2`, ...): the
    /// first one no instance holds.
    pub fn unique_id(&self) -> (r: String)
        requires
            self.instances@.len() < u64::MAX - 1,
        ensures
            exists|n: nat| is_first_free(instance_ids(self.instances@), "instance-"@, 1, n) && r@ == numbered("instance-"@, n),
    {
        let mut ids: Vec<String> = Vec::new();
        let mut i: usize = 0;
        while i < self.instances.len()
            invariant
                i <= self.instances@.len(),
                strings_of(ids@) == instance_ids(self.instances@).subrange(0, i as int),
            decreases self.instances@.len() - i,
        {
            let ghost prev = ids@;
            ids.push(self.instances[i].id.clone());
            assert(strings_of(ids@) =~= strings_of(prev).push(self.instances@[i as int].id@));
            assert(instance_ids(self.instances@).subrange(0, i + 1) =~= instance_ids(self.instances@).subrange(
                0,
                i as int,
            ).push(self.instances@[i as int].id@));
            i = i + 1;
        }
        assert(instance_ids(self.instances@).subrange(0, self.instances@.len() as int) =~= instance_ids(self.instances@));
        first_free("instance-", &ids, 1)
    }
}

/// The instances of `s` except those with id `id`, in order.
pub open spec fn without_instance(s: Seq<Instance>, id: Seq<char>) -> Seq<Instance> {
    s.filter(|i: Instance| i.id@ != id)
}

/// Everything but the instance list is the same in `a` and `b`.
pub open spec fn same_globals(a: ClientConfig, b: ClientConfig) -> bool {
    &&& a.kyclient_path == b.kyclient_path
    &&& a.web_port == b.web_port
    &&& a.auth_username == b.auth_username
    &&& a.auth_password == b.auth_password
    &&& a.forward_inputs == b.forward_inputs
    &&& a.audio == b.audio
    &&& a.keyboard_grab == b.keyboard_grab
    &&& a.tls_tofu == b.tls_tofu
}

impl ClientConfig {
    /// Create an instance from an operator request and append it, enabled,
    /// under the first free `instance-N` id. Returns that id.
    pub fn add_instance(&mut self, server: String, port: u16, fullscreen: bool) -> (r: String)
        requires
            old(self).instances@.len() < u64::MAX - 1,
        ensures
            exists|n: nat| is_first_free(instance_ids(old(self).instances@), "instance-"@, 1, n) && r@ == numbered(
                "instance-"@,
                n,
            ),
            final(self).instances@.len() == old(self).instances@.len() + 1,
            final(self).instances@.subrange(0, old(self).instances@.len() as int) == old(self).instances@,
            ({
                let v = final(self).instances@.last();
                &&& v.id@ == r@
                &&& v.server@ == server@
                &&& v.port == port
                &&& v.fullscreen == fullscreen
                &&& v.enabled
            }),
            same_globals(*final(self), *old(self)),
    {
        let id = self.unique_id();
        let r = id.clone();
        self.instances.push(Instance { id, server, port, fullscreen, enabled: true });
        assert(self.instances@.subrange(0, old(self).instances@.len() as int) =~= old(self).instances@);
        r
    }

    /// Apply edited fields to the instance `id` (its id and desired state
    /// stay); `false` when there is none.
    pub fn update_instance(&mut self, id: &str, server: String, port: u16, fullscreen: bool) -> (r: bool)
        ensures
            r ==> exists|i: int| {
                &&& first_instance(old(self).instances@, id@, i)
                &&& final(self).instances@ == old(self).instances@.update(
                    i,
                    Instance { server, port, fullscreen, ..old(self).instances@[i] },
                )
            },
            !r ==> {
                &&& forall|j: int| 0 <= j < old(self).instances@.len() ==> old(self).instances@[j].id@ != id@
                &&& final(self).instances@ == old(self).instances@
            },
            same_globals(*final(self), *old(self)),
    {
        match self.get_mut(id) {
            Some(inst) => {
                inst.server = server;
                inst.port = port;
                inst.fullscreen = fullscreen;
                true
            },
            None => false,
        }
    }

    /// Mark the instance `id` enabled or not; `false` when there is none.
    pub fn set_instance_enabled(&mut self, id: &str, enabled: bool) -> (r: bool)
        ensures
            r ==> exists|i: int| {
                &&& first_instance(old(self).instances@, id@, i)
                &&& final(self).instances@ == old(self).instances@.update(
                    i,
                    Instance { enabled, ..old(self).instances@[i] },
                )
            },
            !r ==> {
                &&& forall|j: int| 0 <= j < old(self).instances@.len() ==> old(self).instances@[j].id@ != id@
                &&& final(self).instances@ == old(self).instances@
            },
            same_globals(*final(self), *old(self)),
    {
        match self.get_mut(id) {
            Some(inst) => {
                inst.enabled = enabled;
                true
            },
            None => false,
        }
    }

    /// Forget every instance with id `id`.
    pub fn remove_instance(&mut self, id: &str)
        ensures
            final(self).instances@ == without_instance(old(self).instances@, id@),
            same_globals(*final(self), *old(self)),
    {
        let ghost orig = self.instances@;
        let mut rest: Vec<Instance> = Vec::new();
        std::mem::swap(&mut rest, &mut self.instances);
        let mut kept: Vec<Instance> = Vec::new();
        let ghost mut k: int = 0;
        proof {
            reveal(Seq::filter);
        }
        while rest.len() > 0
            invariant
                0 <= k <= orig.len(),
                rest@ == orig.subrange(k, orig.len() as int),
                kept@ == without_instance(orig.subrange(0, k), id@),
            decreases rest@.len(),
        {
            let inst = rest.remove(0);
            proof {
                assert(orig.subrange(0, k + 1).drop_last() =~= orig.subrange(0, k));
                assert(orig.subrange(0, k + 1).last() == inst);
                reveal(Seq::filter);
                assert(without_instance(orig.subrange(0, k + 1), id@) == if inst.id@ != id@ {
                    without_instance(orig.subrange(0, k), id@).push(inst)
                } else {
                    without_instance(orig.subrange(0, k), id@)
                });
            }
            if !str_eq(inst.id.as_str(), id) {
                kept.push(inst);
            }
            proof {
                k = k + 1;
                assert(rest@ =~= orig.subrange(k, orig.len() as int));
            }
        }
        assert(orig.subrange(0, orig.len() as int) =~= orig);
        self.instances = kept;
    }
}

/// Removing an instance right after adding it gives back the instances
/// there were: the id it was given is held by no other.
pub proof fn lemma_remove_undoes_add(before: Seq<Instance>, added: Instance, n: nat)
    requires
        is_first_free(instance_ids(before), "instance-"@, 1, n),
        added.id@ == numbered("instance-"@, n),
    ensures
        without_instance(before.push(added), added.id@) == before,
{
    reveal(Seq::filter);
    assert forall|j: int| 0 <= j < before.len() implies before[j].id@ != added.id@ by {
        if before[j].id@ == added.id@ {
            assert(instance_ids(before)[j] == added.id@);
        }
    }
    assert(before.push(added).drop_last() =~= before);
    lemma_filter_keeps_all(before, added.id@);
}

/// Filtering out an id no instance holds keeps them all.
proof fn lemma_filter_keeps_all(s: Seq<Instance>, id: Seq<char>)
    requires
        forall|j: int| 0 <= j < s.len() ==> s[j].id@ != id,
    ensures
        without_instance(s, id) == s,
    decreases s.len(),
{
    reveal(Seq::filter);
    if s.len() > 0 {
        lemma_filter_keeps_all(s.drop_last(), id);
        assert(s.drop_last().push(s.last()) =~= s);
    }
}

/// Which log a request for `source` reads.
#[derive(Debug, Clone, Copy, PartialEq, Eq)]
pub enum ClientLog {
    /// The client's own log.
    Client,
    /// The log of the instance with that id.
    Instance,
}

/// Every character of `s` is an ASCII letter, a digit or a dash.
pub open spec fn id_chars(s: Seq<char>) -> bool {
    forall|i: int| 0 <= i < s.len() ==> is_ascii_alnum(#[trigger] s[i]) || s[i] == '-'
}

/// The log a request names: `client` for the client's own, an instance id
/// (letters, digits and dashes only) for an instance's; anything else, which
/// could be a path, reads nothing.
pub fn client_log(source: &str) -> (r: Option<ClientLog>)
    ensures
        r == if source@ == "client"@ {
            Some(ClientLog::Client)
        } else if id_chars(source@) {
            Some(ClientLog::Instance)
        } else {
            None
        },
{
    if str_eq(source, "client") {
        return Some(ClientLog::Client);
    }
    if source.unicode_len() == 0 || is_valid_viewer_id(source) {
        Some(ClientLog::Instance)
    } else {
        None
    }
}

/// The `kyclient` argument vector for instance `i`: the server first, then
/// the options.
pub open spec fn client_args_spec(g: Globals, i: Instance) -> Seq<Seq<char>> {
    seq![i.server@, "--port"@, decimal(i.port as nat)]
        + (if g.tls_tofu { seq!["--tls-tofu"@] } else { seq![] })
        + seq!["--auth-username"@, g.auth_username@, "--auth-password"@, g.auth_password@]
        + (if i.fullscreen { seq!["--fullscreen"@] } else { seq![] })
        + seq!["--inputs"@, bool_text(g.forward_inputs), "--audio"@, bool_text(g.audio),
            "--keyboard-grab"@, bool_text(g.keyboard_grab)]
}

fn push_arg(args: &mut Vec<String>, s: &str)
    ensures
        strings_of(final(args)@) == strings_of(old(args)@).push(s@),
{
    let ghost prev = args@;
    args.push(String::from_str(s));
    assert(strings_of(args@) =~= strings_of(prev).push(s@));
}

impl Globals {
    /// Build the `kyclient` argument vector for `instance` (the server is the
    /// positional first argument).
    #[verifier::rlimit(50)]
    pub fn kyclient_args(&self, instance: &Instance) -> (r: Vec<String>)
        ensures
            strings_of(r@) == client_args_spec(*self, *instance),
    {
        let mut args: Vec<String> = Vec::new();
        push_arg(&mut args, instance.server.as_str());
        push_arg(&mut args, "--port");
        push_arg(&mut args, decimal_string(instance.port as u64).as_str());
        let ghost mut expect: Seq<Seq<char>> = seq![instance.server@, "--port"@, decimal(instance.port as nat)];
        assert(strings_of(args@) =~= expect);
        if self.tls_tofu {
            push_arg(&mut args, "--tls-tofu");
        }
        proof {
            expect = expect + (if self.tls_tofu { seq!["--tls-tofu"@] } else { seq![] });
            assert(strings_of(args@) =~= expect);
        }
        push_arg(&mut args, "--auth-username");
        push_arg(&mut args, self.auth_username.as_str());
        push_arg(&mut args, "--auth-password");
        push_arg(&mut args, self.auth_password.as_str());
        proof {
            expect = expect + seq!["--auth-username"@, self.auth_username@, "--auth-password"@, self.auth_password@];
            assert(strings_of(args@) =~= expect);
        }
        if instance.fullscreen {
            push_arg(&mut args, "--fullscreen");
        }
        proof {
            expect = expect + (if instance.fullscreen { seq!["--fullscreen"@] } else { seq![] });
            assert(strings_of(args@) =~= expect);
        }
        push_arg(&mut args, "--inputs");
        push_arg(&mut args, bool_string(self.forward_inputs).as_str());
        push_arg(&mut args, "--audio");
        push_arg(&mut args, bool_string(self.audio).as_str());
        push_arg(&mut args, "--keyboard-grab");
        push_arg(&mut args, bool_string(self.keyboard_grab).as_str());
        proof {
            expect = expect + seq!["--inputs"@, bool_text(self.forward_inputs), "--audio"@, bool_text(self.audio),
                "--keyboard-grab"@, bool_text(self.keyboard_grab)];
            assert(strings_of(args@) =~= expect);
            assert(expect =~= client_args_spec(*self, *instance));
        }
        args
    }
}

/// Why a client configuration cannot run.
#[derive(Debug)]
pub enum ClientError {
    /// An instance has a blank id.
    EmptyInstanceId,
    /// Two instances share an id.
    DuplicateInstanceId(String),
}

/// What is wrong with instance `i` given those before it, if anything.
pub open spec fn instance_fault(s: Seq<Instance>, i: int) -> Option<Option<Seq<char>>> {
    if trim(s[i].id@).len() == 0 {
        Some(None)
    } else if exists|j: int| 0 <= j < i && #[trigger] s[j].id@ == s[i].id@ {
        Some(Some(s[i].id@))
    } else {
        None
    }
}

/// The fault an error reports: `None` for a blank id, the shared id for a
/// duplicate.
pub open spec fn client_error_fault(e: ClientError) -> Option<Seq<char>> {
    match e {
        ClientError::EmptyInstanceId => None,
        ClientError::DuplicateInstanceId(id) => Some(id@),
    }
}

/// Reject a configuration that cannot run: every instance id non-blank and
/// unique. The first faulty instance, in order, is reported.
pub fn validate(config: &ClientConfig) -> (r: Result<(), ClientError>)
    ensures
        match r {
            Ok(()) => forall|j: int| 0 <= j < config.instances@.len() ==> (#[trigger] instance_fault(config.instances@, j)) is None,
            Err(e) => exists|i: int| 0 <= i < config.instances@.len()
                && (forall|j: int| 0 <= j < i ==> (#[trigger] instance_fault(config.instances@, j)) is None)
                && instance_fault(config.instances@, i) == Some(client_error_fault(e)),
        },
{
    let v = &config.instances;
    let mut i: usize = 0;
    while i < v.len()
        invariant
            v@ == config.instances@,
            i <= v@.len(),
            forall|j: int| 0 <= j < i ==> (#[trigger] instance_fault(v@, j)) is None,
        decreases v@.len() - i,
    {
        let id = chars_of(v[i].id.as_str());
        if trimmed(&id).len() == 0 {
            let e = ClientError::EmptyInstanceId;
            assert(instance_fault(v@, i as int) == Some(client_error_fault(e)));
            assert(0 <= i < v@.len() && (forall|k: int| 0 <= k < i ==> (#[trigger] instance_fault(v@, k)) is None)
                && instance_fault(v@, i as int) == Some(client_error_fault(e)));
            return Err(e);
        }
        let mut j: usize = 0;
        while j < i
            invariant
                i < v@.len(),
                j <= i,
                v@ == config.instances@,
                forall|k: int| 0 <= k < i ==> (#[trigger] instance_fault(v@, k)) is None,
                trim(v@[i as int].id@).len() != 0,
                forall|k: int| 0 <= k < j ==> v@[k].id@ != v@[i as int].id@,
            decreases i - j,
        {
            if str_eq(v[j].id.as_str(), v[i].id.as_str()) {
                assert(v@[j as int].id@ == v@[i as int].id@);
                let e = ClientError::DuplicateInstanceId(v[i].id.clone());
                assert(instance_fault(v@, i as int) == Some(client_error_fault(e)));
                assert(0 <= i < v@.len() && (forall|k: int| 0 <= k < i ==> (#[trigger] instance_fault(v@, k)) is None)
                    && instance_fault(v@, i as int) == Some(client_error_fault(e)));
                return Err(e);
            }
            j = j + 1;
        }
        assert(instance_fault(v@, i as int) is None);
        i = i + 1;
    }
    Ok(())
}

} // verus!
