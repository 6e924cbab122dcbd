//! The transmitter data model: sources, capture backends and shared defaults.

use vstd::prelude::*;
use crate::text::{chars_of, lit, push_str, trim, trimmed, vec_eq};

verus! {

/// Which capture API the kyavserver uses for screen grabs on Linux.
#[derive(Clone, Copy, Debug, PartialEq, Eq, Structural)]
pub enum ScreenBackend {
    NvFbc,
    Drm,
    Xcb,
    Wlroots,
}

/// The `grab_backend` string of each backend.
pub open spec fn backend_name(b: ScreenBackend) -> Seq<char> {
    match b {
        ScreenBackend::NvFbc => "nvfbc"@,
        ScreenBackend::Drm => "drm"@,
        ScreenBackend::Xcb => "xcb"@,
        ScreenBackend::Wlroots => "wlroots"@,
    }
}

/// `Some` value that is present and not empty.
pub open spec fn set_and_non_empty(v: Option<Seq<char>>) -> bool {
    v matches Some(s) && s.len() > 0
}

/// The backend guessed from a session description: the session type decides
/// when it names a display server, then a display socket, then DRM.
pub open spec fn detected_backend(
    session_type: Option<Seq<char>>,
    wayland_display: Option<Seq<char>>,
    x_display: Option<Seq<char>>,
) -> ScreenBackend {
    if session_type matches Some(s) && trim(s) == "wayland"@ {
        ScreenBackend::Wlroots
    } else if session_type matches Some(s) && trim(s) == "x11"@ {
        ScreenBackend::Xcb
    } else if set_and_non_empty(wayland_display) {
        ScreenBackend::Wlroots
    } else if set_and_non_empty(x_display) {
        ScreenBackend::Xcb
    } else {
        ScreenBackend::Drm
    }
}

/// The view of an optional string slice.
pub open spec fn opt_view(v: Option<&str>) -> Option<Seq<char>> {
    match v {
        Some(s) => Some(s@),
        None => None,
    }
}

impl ScreenBackend {
    /// The `grab_backend` string written into the generated kyavserver config.
    pub fn as_str(&self) -> (r: &'static str)
        ensures
            r@ == backend_name(*self),
    {
        match self {
            ScreenBackend::NvFbc => "nvfbc",
            ScreenBackend::Drm => "drm",
            ScreenBackend::Xcb => "xcb",
            ScreenBackend::Wlroots => "wlroots",
        }
    }

    /// Guess the backend from a session description (`XDG_SESSION_TYPE`,
    /// `WAYLAND_DISPLAY`, `DISPLAY`). `NvFbc` is never guessed.
    pub fn detect_from(
        session_type: Option<&str>,
        wayland_display: Option<&str>,
        x_display: Option<&str>,
    ) -> (r: ScreenBackend)
        ensures
            r == detected_backend(opt_view(session_type), opt_view(wayland_display), opt_view(x_display)),
            r != ScreenBackend::NvFbc,
    {
        if let Some(s) = session_type {
            let t = trimmed(&chars_of(s));
            if vec_eq(&t, &lit("wayland")) {
                return ScreenBackend::Wlroots;
            }
            if vec_eq(&t, &lit("x11")) {
                return ScreenBackend::Xcb;
            }
        }
        let wayland_set = match wayland_display {
            Some(v) => v.unicode_len() > 0,
            None => false,
        };
        let x_set = match x_display {
            Some(v) => v.unicode_len() > 0,
            None => false,
        };
        if wayland_set {
            ScreenBackend::Wlroots
        } else if x_set {
            ScreenBackend::Xcb
        } else {
            ScreenBackend::Drm
        }
    }
}

/// The thing feeding one transmitter.
#[derive(Clone, Debug, PartialEq, Eq)]
pub enum Source {
    /// A Spout sender, pinned by name.
    Spout { sender: String },
    /// Desktop capture; the viewer picks the display.
    Screen {},
    /// A capture device, pinned by name.
    Camera { device: String },
    /// Every monitor and every Spout sender at once.
    All {},
}

/// The menu label of a source.
pub open spec fn source_label(s: Source) -> Seq<char> {
    match s {
        Source::Spout { sender } => "Spout: "@ + sender@,
        Source::Screen {} => "Screen"@,
        Source::Camera { device } => "Webcam: "@ + device@,
        Source::All {} => "Toutes les sources"@,
    }
}

impl Source {
    /// Short human label for menus and tooltips.
    pub fn label(&self) -> (r: String)
        ensures
            r@ == source_label(*self),
    {
        let mut out = String::new();
        match self {
            Source::Spout { sender } => {
                push_str(&mut out, "Spout: ");
                push_str(&mut out, sender.as_str());
            },
            Source::Screen {} => push_str(&mut out, "Screen"),
            Source::Camera { device } => {
                push_str(&mut out, "Webcam: ");
                push_str(&mut out, device.as_str());
            },
            Source::All {} => push_str(&mut out, "Toutes les sources"),
        }
        out
    }
}

/// One transmitter: one `kycontroller` instance on its own port.
#[derive(Clone, Debug, PartialEq, Eq)]
pub struct Transmitter {
    /// Stable identifier, also the instance directory name.
    pub name: String,
    /// TCP control-plane port the client connects to.
    pub port: u16,
    /// What this transmitter streams.
    pub source: Source,
}

/// A character that cannot stand in a directory name on some platform.
pub open spec fn is_path_hostile(c: char) -> bool {
    c == '/' || c == '\\' || c == ':' || c == '*' || c == '?' || c == '"' || c == '<' || c == '>'
        || c == '|'
}

/// Non-empty, and free of path-hostile characters.
pub open spec fn is_valid_dir_name(s: Seq<char>) -> bool {
    s.len() > 0 && forall|i: int| 0 <= i < s.len() ==> !is_path_hostile(#[trigger] s[i])
}

/// Whether `c` is path-hostile.
pub fn path_hostile(c: char) -> (r: bool)
    ensures
        r == is_path_hostile(c),
{
    c == '/' || c == '\\' || c == ':' || c == '*' || c == '?' || c == '"' || c == '<' || c == '>'
        || c == '|'
}

/// Whether `s` is a valid directory name.
pub fn valid_dir_name(s: &str) -> (r: bool)
    ensures
        r == is_valid_dir_name(s@),
{
    let v = chars_of(s);
    if v.len() == 0 {
        return false;
    }
    let mut i: usize = 0;
    while i < v.len()
        invariant
            i <= v@.len(),
            v@ == s@,
            forall|j: int| 0 <= j < i ==> !is_path_hostile(#[trigger] v@[j]),
        decreases v@.len() - i,
    {
        if path_hostile(v[i]) {
            return false;
        }
        i = i + 1;
    }
    true
}

impl Transmitter {
    /// `true` if the name is safe to use as a directory component.
    pub fn has_valid_name(&self) -> (r: bool)
        ensures
            r == is_valid_dir_name(self.name@),
    {
        valid_dir_name(self.name.as_str())
    }
}

/// Instance name of the synthetic transmitter that sends every source.
pub const ALL_TX_NAME: &'static str = "tout-envoyer";

/// Default first control-plane port when none is configured.
pub const DEFAULT_BASE_PORT: u16 = 9000;

/// Default port for the web UI and discovery endpoint.
pub const DEFAULT_WEB_PORT: u16 = 7700;

/// User name of the transparent default login.
pub const DEFAULT_AUTH_USERNAME: &'static str = "vj";

/// Plaintext of the transparent default password (stored hashed in configs).
pub const DEFAULT_AUTH_PASSWORD: &'static str = "kyberfrog";


/// One display of an emitter, as the viewer form's screen picker lists it:
/// the emitter's own id (informational only: a viewer selects a display by
/// its index in the emitter's list), its name and its resolution.
#[derive(Clone, Debug)]
pub struct DisplayInfo {
    pub id: u32,
    pub name: String,
    pub width: i32,
    pub height: i32,
}

} // verus!
