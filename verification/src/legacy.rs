//! Splitting a legacy single-file configuration: its portable `emission` and
//! `reception` halves become the default setup document, the rest stays the
//! machine's user config, which then points at that setup.

use vstd::prelude::*;
use crate::paths::DEFAULT_SETUP_NAME;
use crate::table::{TomlTable, TomlValue};

verus! {

/// The document is a legacy single-file configuration: it still carries the
/// portable `emission` or `reception` half inline.
pub fn is_legacy(raw: &TomlTable) -> (r: bool)
    ensures
        r == (raw@.dom().contains("emission"@) || raw@.dom().contains("reception"@)),
{
    raw.contains_key("emission") || raw.contains_key("reception")
}

/// `new` is the `old` reception half as the setup keeps it: without its
/// `kyclient_path`, which belongs to the machine.
pub open spec fn reception_kept(old: TomlValue, new: TomlValue) -> bool {
    match old {
        TomlValue::Table(t) => new matches TomlValue::Table(t2) && t2@ == t@.remove("kyclient_path"@),
        _ => new == old,
    }
}

/// The `kyclient_path` a legacy reception half carried, if any.
pub open spec fn lifted_path(raw: Map<Seq<char>, TomlValue>) -> Option<TomlValue> {
    if raw.dom().contains("reception"@) {
        match raw["reception"@] {
            TomlValue::Table(t) => if t@.dom().contains("kyclient_path"@) {
                Some(t@["kyclient_path"@])
            } else {
                None
            },
            _ => None,
        }
    } else {
        None
    }
}

/// One of the four keys the split moves or sets.
pub open spec fn is_split_key(k: Seq<char>) -> bool {
    k == "emission"@ || k == "reception"@ || k == "active_setup"@ || k == "kyclient_path"@
}

/// Split a legacy document into `(user config, default setup)`. The setup
/// takes the `emission` and `reception` halves, the latter without its
/// `kyclient_path`; the user config keeps every other key, takes that lifted
/// path unless it already has one, and makes the default setup active.
pub fn split_legacy(raw: TomlTable) -> (r: (TomlTable, TomlTable))
    ensures
        forall|k: Seq<char>| #[trigger] r.1@.dom().contains(k)
            <==> ((k == "emission"@ || k == "reception"@) && raw@.dom().contains(k)),
        raw@.dom().contains("emission"@) ==> r.1@["emission"@] == raw@["emission"@],
        raw@.dom().contains("reception"@) ==> reception_kept(raw@["reception"@], r.1@["reception"@]),
        forall|k: Seq<char>| !is_split_key(k) ==> (#[trigger] r.0@.dom().contains(k) <==> raw@.dom().contains(k)),
        forall|k: Seq<char>| !is_split_key(k) && raw@.dom().contains(k) ==> #[trigger] r.0@[k] == raw@[k],
        !r.0@.dom().contains("emission"@),
        !r.0@.dom().contains("reception"@),
        r.0@.dom().contains("active_setup"@),
        r.0@["active_setup"@] matches TomlValue::Text(s) && s@ == DEFAULT_SETUP_NAME@,
        raw@.dom().contains("kyclient_path"@) ==> r.0@.dom().contains("kyclient_path"@)
            && r.0@["kyclient_path"@] == raw@["kyclient_path"@],
        !raw@.dom().contains("kyclient_path"@) ==> match lifted_path(raw@) {
            Some(v) => r.0@.dom().contains("kyclient_path"@) && r.0@["kyclient_path"@] == v,
            None => !r.0@.dom().contains("kyclient_path"@),
        },
{
    proof {
        reveal_strlit("emission");
        reveal_strlit("reception");
        reveal_strlit("active_setup");
        reveal_strlit("kyclient_path");
        assert("emission"@.len() == 8 && "reception"@.len() == 9);
        assert("active_setup"@.len() == 12 && "kyclient_path"@.len() == 13);
    }
    let ghost m0 = raw@;
    let mut user = raw;
    let mut setup = TomlTable::new();
    let emission = user.remove("emission");
    let reception = user.remove("reception");

    let mut lifted: Option<TomlValue> = None;
    let kept = match reception {
        Some(TomlValue::Table(t)) => {
            let mut t = t;
            lifted = t.remove("kyclient_path");
            Some(TomlValue::Table(t))
        },
        other => other,
    };
    assert(lifted == lifted_path(m0));
    if let Some(e) = emission {
        setup.insert("emission", e);
    }
    if let Some(r) = kept {
        setup.insert("reception", r);
    }
    if let Some(path) = lifted {
        if !user.contains_key("kyclient_path") {
            user.insert("kyclient_path", path);
        }
    }
    user.insert("active_setup", TomlValue::Text(String::from_str(DEFAULT_SETUP_NAME)));
    (user, setup)
}

} // verus!
