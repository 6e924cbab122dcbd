//! Generation of per-instance `kyber_config.toml` contents.
//!
//! A transmitter's config is the operator's defaults with its own values
//! layered on top:
//!
//! * `[kycontroller].port`: the control-plane port;
//! * `[kycontroller].auth`: the transparent default basic login, injected only
//!   when the operator declared no auth;
//! * `[kycontroller].tray`: `false` unless the operator set it;
//! * `[kyavserver].encoder`: always the machine's resolved encoder;
//! * `[kyavserver].grab_backend`: the machine's Linux backend, removed off
//!   Linux and for a pinned camera;
//! * `[kyavserver].spout_sender` / `camera_device` / `all_sources`: the source
//!   pinning, each removed when the source does not call for it.

use vstd::prelude::*;
use crate::model::{backend_name, source_label, ScreenBackend, Source, Transmitter, DEFAULT_AUTH_PASSWORD, DEFAULT_AUTH_USERNAME};
use crate::table::{TomlTable, TomlValue};
use crate::text::{decimal, push_decimal, push_str};

verus! {

/// Why a config could not be rendered.
#[derive(Debug, PartialEq, Eq)]
pub enum GenError {
    /// The named key exists in the defaults but is not a table.
    NotATable(&'static str),
}

/// A rendered `kyber_config.toml`: the comment header and the document that
/// follows it.
#[derive(Debug)]
pub struct RenderedConfig {
    pub header: String,
    pub table: TomlTable,
}

/// The SHA-256 digest of `data`.
pub uninterp spec fn sha256_digest(data: Seq<u8>) -> Seq<u8>;

/// `sha2::Sha256::digest`: the SHA-256 digest of `data`, 32 bytes long.
#[verifier::external_body]
fn sha256(data: &[u8]) -> (r: Vec<u8>)
    ensures
        r@ == sha256_digest(data@),
        r@.len() == 32,
{
    <sha2::Sha256 as sha2::Digest>::digest(data).to_vec()
}

/// The lowercase hexadecimal digit for `n` < 16.
pub open spec fn hex_digit(n: int) -> char {
    seq!['0', '1', '2', '3', '4', '5', '6', '7', '8', '9', 'a', 'b', 'c', 'd', 'e', 'f'][n]
}

/// Lowercase hexadecimal text of `b`, two digits per byte, high nibble first.
pub open spec fn hex_lower(b: Seq<u8>) -> Seq<char>
    decreases b.len(),
{
    if b.len() == 0 {
        seq![]
    } else {
        seq![hex_digit((b[0] / 16) as int), hex_digit((b[0] % 16) as int)] + hex_lower(b.drop_first())
    }
}

/// `hex::encode`: the lowercase hexadecimal text of `data`.
#[verifier::external_body]
fn hex_encode(data: &[u8]) -> (r: String)
    ensures
        r@ == hex_lower(data@),
{
    hex::encode(data)
}

/// The stored form of a basic-auth password: hex SHA-256 of its UTF-8 bytes.
pub open spec fn password_hash_text(plaintext: Seq<char>) -> Seq<char> {
    hex_lower(sha256_digest(vstd::utf8::encode_utf8(plaintext)))
}

/// Hex-encoded SHA-256 of `plaintext` (kycontroller's basic-auth password form).
pub fn sha256_hex(plaintext: &str) -> (r: String)
    ensures
        r@ == password_hash_text(plaintext@),
{
    let digest = sha256(plaintext.as_bytes());
    hex_encode(digest.as_slice())
}

/// `v` is a text value holding `t`.
pub open spec fn is_text(v: TomlValue, t: Seq<char>) -> bool {
    v matches TomlValue::Text(s) && s@ == t
}

/// `v` is the transparent default `auth` table:
/// `{ basic = { logins = [ { username = "vj", password = <hash> } ] } }`.
pub open spec fn is_default_auth(v: TomlValue) -> bool {
    &&& v matches TomlValue::Table(auth)
    &&& auth@.dom() == set!["basic"@]
    &&& auth@["basic"@] matches TomlValue::Table(basic)
    &&& basic@.dom() == set!["logins"@]
    &&& basic@["logins"@] matches TomlValue::Array(logins)
    &&& logins@.len() == 1
    &&& logins@[0] matches TomlValue::Table(login)
    &&& login@.dom() == set!["username"@, "password"@]
    &&& is_text(login@["username"@], DEFAULT_AUTH_USERNAME@)
    &&& is_text(login@["password"@], password_hash_text(DEFAULT_AUTH_PASSWORD@))
}

/// The `auth` table holding the transparent default basic login.
fn default_auth() -> (r: TomlValue)
    ensures
        is_default_auth(r),
{
    let mut login = TomlTable::new();
    let username = String::from_str(DEFAULT_AUTH_USERNAME);
    let password = sha256_hex(DEFAULT_AUTH_PASSWORD);
    login.insert("username", TomlValue::Text(username));
    login.insert("password", TomlValue::Text(password));
    proof {
        reveal_strlit("username");
        reveal_strlit("password");
        assert("username"@[0] != "password"@[0]);
        assert(username@ == DEFAULT_AUTH_USERNAME@);
        assert(login@.dom() =~= set!["username"@, "password"@]);
        assert(is_text(login@["username"@], DEFAULT_AUTH_USERNAME@));
        assert(is_text(login@["password"@], password_hash_text(DEFAULT_AUTH_PASSWORD@)));
    }
    let ghost login_view = login@;
    let logins = vec![TomlValue::Table(login)];
    let mut basic = TomlTable::new();
    basic.insert("logins", TomlValue::Array(logins));
    let ghost basic_view = basic@;
    let mut auth = TomlTable::new();
    auth.insert("basic", TomlValue::Table(basic));
    proof {
        assert(basic_view.dom() =~= set!["logins"@]);
        assert(auth@.dom() =~= set!["basic"@]);
        assert(logins@[0] == TomlValue::Table(login));
    }
    TomlValue::Table(auth)
}

/// The section under `key` of the defaults: its entries when it is a table,
/// nothing when absent, `None` when it is something else.
pub open spec fn section_of(d: Map<Seq<char>, TomlValue>, key: Seq<char>) -> Option<Map<Seq<char>, TomlValue>> {
    if !d.dom().contains(key) {
        Some(Map::empty())
    } else {
        match d[key] {
            TomlValue::Table(t) => Some(t@),
            _ => None,
        }
    }
}

/// The `[kycontroller]` keys a transmitter's values leave as in the defaults
/// or set to fixed values: `port`, and `tray = false` unless present
/// (`auth` is described on its own).
pub open spec fn controller_section(k0: Map<Seq<char>, TomlValue>, port: u16) -> Map<Seq<char>, TomlValue> {
    let k1 = k0.insert("port"@, TomlValue::Integer(port as i64));
    if k1.dom().contains("tray"@) { k1 } else { k1.insert("tray"@, TomlValue::Boolean(false)) }
}

/// The rendered `[kycontroller]` table from the defaults' one.
pub open spec fn controller_rendered(out: Map<Seq<char>, TomlValue>, k0: Map<Seq<char>, TomlValue>, port: u16) -> bool {
    &&& out.remove("auth"@) == controller_section(k0, port).remove("auth"@)
    &&& out.dom().contains("auth"@)
    &&& k0.dom().contains("auth"@) ==> out["auth"@] == k0["auth"@]
    &&& !k0.dom().contains("auth"@) ==> is_default_auth(out["auth"@])
}

/// The text `[kyavserver]` holds under `key` once the transmitter's values
/// are written, when that key is one it writes text to.
pub open spec fn avserver_text(
    source: Source,
    backend: Option<ScreenBackend>,
    encoder: Seq<char>,
    key: Seq<char>,
) -> Option<Seq<char>> {
    if key == "encoder"@ {
        Some(encoder)
    } else if key == "grab_backend"@ {
        match (backend, source) {
            (Some(b), Source::Spout { .. }) => Some(backend_name(b)),
            (Some(b), Source::Screen {}) => Some(backend_name(b)),
            (Some(b), Source::All {}) => Some(backend_name(b)),
            _ => None,
        }
    } else if key == "spout_sender"@ {
        match source {
            Source::Spout { sender } => Some(sender@),
            _ => None,
        }
    } else if key == "camera_device"@ {
        match source {
            Source::Camera { device } => Some(device@),
            _ => None,
        }
    } else {
        None
    }
}

/// Whether `[kyavserver]` loses `key` for this source and backend.
pub open spec fn avserver_drops(source: Source, backend: Option<ScreenBackend>, key: Seq<char>) -> bool {
    ||| (key == "grab_backend"@ && (backend is None || source is Camera))
    ||| (key == "spout_sender"@ && !(source is Spout))
    ||| (key == "camera_device"@ && !(source is Camera))
    ||| (key == "all_sources"@ && !(source is All))
}

/// The rendered `[kyavserver]` table from the defaults' one.
pub open spec fn avserver_rendered(
    out: Map<Seq<char>, TomlValue>,
    a0: Map<Seq<char>, TomlValue>,
    source: Source,
    backend: Option<ScreenBackend>,
    encoder: Seq<char>,
) -> bool {
    &&& forall|k: Seq<char>| #![trigger out.dom().contains(k)] out.dom().contains(k) <==> (
        avserver_text(source, backend, encoder, k) is Some
        || (k == "all_sources"@ && source is All)
        || (a0.dom().contains(k) && !avserver_drops(source, backend, k)))
    &&& forall|k: Seq<char>| #[trigger] out.dom().contains(k) ==> avserver_value(
        out[k],
        a0[k],
        avserver_text(source, backend, encoder, k),
        k == "all_sources"@ && source is All,
    )
}

/// What a rendered `[kyavserver]` table pins, whatever the defaults held:
/// the machine's encoder always; on Linux (a capture backend known) the
/// backend for every source but a camera, which never keeps one, and off
/// Linux no backend at all; the Spout sender for a Spout source and nothing
/// of it otherwise; the camera device for a camera and nothing of it
/// otherwise; and `all_sources = true` for the all-sources transmitter.
pub proof fn lemma_avserver_pins(
    out: Map<Seq<char>, TomlValue>,
    a0: Map<Seq<char>, TomlValue>,
    source: Source,
    backend: Option<ScreenBackend>,
    encoder: Seq<char>,
)
    requires
        avserver_rendered(out, a0, source, backend, encoder),
    ensures
        out.dom().contains("encoder"@) && is_text(out["encoder"@], encoder),
        backend matches Some(b) ==> (!(source is Camera) ==> out.dom().contains("grab_backend"@) && is_text(
            out["grab_backend"@],
            backend_name(b),
        )),
        backend is None || source is Camera ==> !out.dom().contains("grab_backend"@),
        source matches Source::Spout { sender } ==> out.dom().contains("spout_sender"@) && is_text(
            out["spout_sender"@],
            sender@,
        ),
        !(source is Spout) ==> !out.dom().contains("spout_sender"@),
        source matches Source::Camera { device } ==> out.dom().contains("camera_device"@) && is_text(
            out["camera_device"@],
            device@,
        ),
        !(source is Camera) ==> !out.dom().contains("camera_device"@),
        source is All ==> out.dom().contains("all_sources"@) && out["all_sources"@] == TomlValue::Boolean(true),
        !(source is All) ==> !out.dom().contains("all_sources"@),
{
    reveal_strlit("encoder");
    reveal_strlit("grab_backend");
    reveal_strlit("spout_sender");
    reveal_strlit("camera_device");
    reveal_strlit("all_sources");
    let e = "encoder"@;
    let g = "grab_backend"@;
    let sp = "spout_sender"@;
    let c = "camera_device"@;
    let al = "all_sources"@;
    assert(e[0] != g[0] && e[0] != sp[0] && e[0] != c[0] && e[0] != al[0]);
    assert(g[0] != sp[0] && g[0] != c[0] && g[0] != al[0]);
    assert(sp[0] != c[0] && sp[0] != al[0]);
    assert(c[0] != al[0]);
    assert(out.dom().contains(e));
    assert(out.dom().contains(g) == out.dom().contains(g));
    assert(out.dom().contains(sp) == out.dom().contains(sp));
    assert(out.dom().contains(c) == out.dom().contains(c));
    assert(out.dom().contains(al) == out.dom().contains(al));
    assert(al != e && al != g && al != sp && al != c);
    assert(avserver_text(source, backend, encoder, al) is None);
    if source is All {
        assert(al == "all_sources"@);
        assert(out.dom().contains(al));
        assert(avserver_value(out[al], a0[al], avserver_text(source, backend, encoder, al), al == "all_sources"@ && source is All));
        assert(avserver_value(out[al], a0[al], None, true));
    }
}

/// A `[kyavserver]` value: the text written there, `true` for the
/// `all_sources` flag, or else the defaults' value.
pub open spec fn avserver_value(v: TomlValue, default: TomlValue, text: Option<Seq<char>>, all_flag: bool) -> bool {
    match text {
        Some(t) => is_text(v, t),
        None => if all_flag { v == TomlValue::Boolean(true) } else { v == default },
    }
}

/// The comment header of a generated config.
pub open spec fn header_text(tx: Transmitter) -> Seq<char> {
    "# Generated by KyberFrog Server \u{2014} do not edit by hand.\n# Transmitter: "@ + tx.name@
        + " (port "@ + decimal(tx.port as nat) + ")\n# Source: "@ + source_label(tx.source) + "\n\n"@
}

/// Takes the section `key` out of `root`: its table, a new one when absent,
/// `None` when the key holds something else.
fn take_section(root: &mut TomlTable, key: &str) -> (r: Option<TomlTable>)
    ensures
        final(root)@ == old(root)@.remove(key@),
        match r {
            Some(t) => section_of(old(root)@, key@) == Some(t@),
            None => section_of(old(root)@, key@) is None,
        },
{
    match root.remove(key) {
        None => {
            let t = TomlTable::new();
            Some(t)
        },
        Some(TomlValue::Table(t)) => Some(t),
        Some(_) => None,
    }
}

/// The literal keys of `[kyavserver]` are pairwise distinct.
proof fn lemma_avserver_keys_distinct()
    ensures
        "encoder"@ != "grab_backend"@,
        "encoder"@ != "spout_sender"@,
        "encoder"@ != "camera_device"@,
        "encoder"@ != "all_sources"@,
        "grab_backend"@ != "spout_sender"@,
        "grab_backend"@ != "camera_device"@,
        "grab_backend"@ != "all_sources"@,
        "spout_sender"@ != "camera_device"@,
        "spout_sender"@ != "all_sources"@,
        "camera_device"@ != "all_sources"@,
{
    reveal_strlit("encoder");
    reveal_strlit("grab_backend");
    reveal_strlit("spout_sender");
    reveal_strlit("camera_device");
    reveal_strlit("all_sources");
    assert("grab_backend"@[0] != "spout_sender"@[0]);
    assert("encoder"@[0] != "camera_device"@[0]);
    assert("encoder"@[0] != "all_sources"@[0]);
}

/// Writes the machine encoder, the capture backend and the source pinning
/// into a `[kyavserver]` table.
fn fill_avserver(kya: &mut TomlTable, source: &Source, screen_backend: Option<ScreenBackend>, encoder: &str)
    ensures
        avserver_rendered(final(kya)@, old(kya)@, *source, screen_backend, encoder@),
{
    proof {
        lemma_avserver_keys_distinct();
    }
    let ghost a0 = kya@;
    let enc = String::from_str(encoder);
    let ghost enc_value = TomlValue::Text(enc);
    kya.insert("encoder", TomlValue::Text(enc));
    let ghost mut gb_value = TomlValue::Boolean(false);
    match screen_backend {
        Some(backend) => {
            let name = String::from_str(backend.as_str());
            proof {
                gb_value = TomlValue::Text(name);
            }
            kya.insert("grab_backend", TomlValue::Text(name));
        },
        None => {
            kya.remove("grab_backend");
        },
    }
    let ghost a1 = kya@;
    match source {
        Source::Spout { sender } => {
            let v = sender.clone();
            kya.insert("spout_sender", TomlValue::Text(v));
            kya.remove("camera_device");
            kya.remove("all_sources");
            proof {
                assert forall|k: Seq<char>| #![trigger kya@.dom().contains(k)] kya@.dom().contains(k) implies
                    avserver_value(kya@[k], a0[k], avserver_text(*source, screen_backend, encoder@, k),
                        k == "all_sources"@ && source is All) by {}
            }
        },
        Source::Screen {} => {
            kya.remove("spout_sender");
            kya.remove("camera_device");
            kya.remove("all_sources");
        },
        Source::Camera { device } => {
            let v = device.clone();
            kya.insert("camera_device", TomlValue::Text(v));
            kya.remove("spout_sender");
            kya.remove("all_sources");
            kya.remove("grab_backend");
            proof {
                assert forall|k: Seq<char>| #![trigger kya@.dom().contains(k)] kya@.dom().contains(k) implies
                    avserver_value(kya@[k], a0[k], avserver_text(*source, screen_backend, encoder@, k),
                        k == "all_sources"@ && source is All) by {}
            }
        },
        Source::All {} => {
            kya.remove("spout_sender");
            kya.remove("camera_device");
            kya.insert("all_sources", TomlValue::Boolean(true));
        },
    }
}

/// Render the `kyber_config.toml` for `tx`: its values layered on the
/// operator's `defaults`. `screen_backend` is the machine's Linux capture
/// backend (`None` off Linux); `encoder` the machine's resolved encoder.
pub fn render_config(
    tx: &Transmitter,
    defaults: TomlTable,
    screen_backend: Option<ScreenBackend>,
    encoder: &str,
) -> (r: Result<RenderedConfig, GenError>)
    ensures
        section_of(defaults@, "kycontroller"@) is None ==> (r matches Err(GenError::NotATable(k)) && k@ == "kycontroller"@),
        section_of(defaults@, "kycontroller"@) is Some && section_of(defaults@, "kyavserver"@) is None
            ==> (r matches Err(GenError::NotATable(k)) && k@ == "kyavserver"@),
        section_of(defaults@, "kycontroller"@) is Some && section_of(defaults@, "kyavserver"@) is Some ==> r is Ok,
        r matches Ok(out) ==> {
            &&& out.header@ == header_text(*tx)
            &&& out.table@.dom() == defaults@.dom().insert("kycontroller"@).insert("kyavserver"@)
            &&& forall|k: Seq<char>| #[trigger] defaults@.dom().contains(k) && k != "kycontroller"@ && k != "kyavserver"@
                ==> out.table@[k] == defaults@[k]
            &&& out.table@["kycontroller"@] matches TomlValue::Table(kc)
                && controller_rendered(kc@, section_of(defaults@, "kycontroller"@).unwrap(), tx.port)
            &&& out.table@["kyavserver"@] matches TomlValue::Table(ka)
                && avserver_rendered(ka@, section_of(defaults@, "kyavserver"@).unwrap(), tx.source, screen_backend, encoder@)
        },
{
    let mut root = defaults;
    let ghost d = root@;

    // [kycontroller]: port, transparent default auth, no tray icon.
    let mut kyc = match take_section(&mut root, "kycontroller") {
        Some(t) => t,
        None => return Err(GenError::NotATable("kycontroller")),
    };
    let ghost k0 = kyc@;
    proof {
        reveal_strlit("port");
        reveal_strlit("auth");
        reveal_strlit("tray");
        assert("port"@[0] != "auth"@[0]);
        assert("tray"@[0] != "auth"@[0]);
        assert("tray"@[0] != "port"@[0]);
    }
    kyc.insert("port", TomlValue::Integer(tx.port as i64));
    let has_auth = kyc.contains_key("auth");
    if !has_auth {
        let auth = default_auth();
        kyc.insert("auth", auth);
        assert(is_default_auth(kyc@["auth"@]));
    }
    let ghost k2 = kyc@;
    if !kyc.contains_key("tray") {
        kyc.insert("tray", TomlValue::Boolean(false));
    }
    proof {
        let c = controller_section(k0, tx.port);
        assert(kyc@.remove("auth"@) =~= c.remove("auth"@));
        assert(kyc@["auth"@] == k2["auth"@]);
    }

    // [kyavserver]: encoder, capture backend and source pinning.
    let mut kya = match take_section(&mut root, "kyavserver") {
        Some(t) => t,
        None => return Err(GenError::NotATable("kyavserver")),
    };
    let ghost a0 = kya@;
    fill_avserver(&mut kya, &tx.source, screen_backend, encoder);
    let ghost kyc_view = kyc@;
    let ghost kya_view = kya@;
    let ghost root_mid = root@;
    root.insert("kycontroller", TomlValue::Table(kyc));
    root.insert("kyavserver", TomlValue::Table(kya));
    proof {
        reveal_strlit("kycontroller");
        reveal_strlit("kyavserver");
        assert("kycontroller"@[2] != "kyavserver"@[2]);
        assert(root_mid == d.remove("kycontroller"@).remove("kyavserver"@));
        assert(root@.dom() =~= d.dom().insert("kycontroller"@).insert("kyavserver"@));
        assert(controller_rendered(kyc_view, k0, tx.port));
        assert(root@["kycontroller"@] matches TomlValue::Table(kc) && kc@ == kyc_view);
        assert(root@["kyavserver"@] matches TomlValue::Table(ka) && ka@ == kya_view);
        assert(section_of(d, "kycontroller"@) == Some(k0));
        assert(section_of(d, "kyavserver"@) == Some(a0));
    }

    let mut header = String::new();
    push_str(&mut header, "# Generated by KyberFrog Server \u{2014} do not edit by hand.\n# Transmitter: ");
    push_str(&mut header, tx.name.as_str());
    push_str(&mut header, " (port ");
    push_decimal(&mut header, tx.port as u64);
    push_str(&mut header, ")\n# Source: ");
    let label = tx.source.label();
    push_str(&mut header, label.as_str());
    push_str(&mut header, "\n\n");
    proof {
        assert(header@ =~= header_text(*tx));
    }
    Ok(RenderedConfig { header, table: root })
}

} // verus!
