//! The primary GPU, from the description of DXGI adapter 0: the adapter the
//! capture and encode pipeline runs on, so its vendor decides which hardware
//! encoder can work.

use vstd::prelude::*;
use crate::encoder::GpuAdapter;
use crate::text::{collapse_whitespace, joined, words};

verus! {

/// The adapter flag of a software (WARP) renderer.
pub const DXGI_ADAPTER_FLAG_SOFTWARE: u32 = 2;

/// A leading (high) surrogate unit.
pub open spec fn is_high_surrogate(u: u16) -> bool {
    0xD800 <= u < 0xDC00
}

/// A trailing (low) surrogate unit.
pub open spec fn is_low_surrogate(u: u16) -> bool {
    0xDC00 <= u < 0xE000
}

/// The text of UTF-16 `units`, decoded from the front: a high surrogate
/// followed by a low one makes one supplementary character, any other
/// surrogate becomes U+FFFD on its own (the unit after it is decoded
/// afresh), and every other unit is the character of that value.
pub open spec fn utf16_lossy_text(units: Seq<u16>) -> Seq<char>
    decreases units.len(),
{
    if units.len() == 0 {
        seq![]
    } else if units.len() >= 2 && is_high_surrogate(units[0]) && is_low_surrogate(units[1]) {
        seq![(0x10000 + (units[0] - 0xD800) * 0x400 + (units[1] - 0xDC00)) as char]
            + utf16_lossy_text(units.subrange(2, units.len() as int))
    } else if is_high_surrogate(units[0]) || is_low_surrogate(units[0]) {
        seq!['\u{FFFD}'] + utf16_lossy_text(units.subrange(1, units.len() as int))
    } else {
        seq![units[0] as char] + utf16_lossy_text(units.subrange(1, units.len() as int))
    }
}

/// `String::from_utf16_lossy`: the text of UTF-16 `units`, each unpaired
/// surrogate replaced by U+FFFD.
#[verifier::external_body]
fn utf16_lossy(units: &[u16]) -> (r: String)
    ensures
        r@ == utf16_lossy_text(units@),
{
    String::from_utf16_lossy(units)
}

/// Length of a NUL-terminated UTF-16 buffer: up to its first zero unit,
/// from `i` on, or the whole buffer when it has none.
pub open spec fn nul_len_from(d: Seq<u16>, i: int) -> int
    decreases d.len() - i,
{
    if i >= d.len() {
        d.len() as int
    } else if d[i] == 0 {
        i
    } else {
        nul_len_from(d, i + 1)
    }
}

/// The adapter a DXGI description names: none for a software renderer, else
/// its description up to the first NUL, white space collapsed (driver strings
/// can carry doubled spaces), and its PCI vendor id.
pub open spec fn described_adapter(description: Seq<u16>, vendor_id: u32, flags: u32) -> Option<(Seq<char>, u32)> {
    if flags & DXGI_ADAPTER_FLAG_SOFTWARE != 0 {
        None
    } else {
        let text = utf16_lossy_text(description.subrange(0, nul_len_from(description, 0)));
        Some((joined(words(text), ' '), vendor_id))
    }
}

/// The GPU a DXGI adapter description names; `None` for a software renderer.
pub fn adapter_from_desc(description: &[u16], vendor_id: u32, flags: u32) -> (r: Option<GpuAdapter>)
    ensures
        match (r, described_adapter(description@, vendor_id, flags)) {
            (None, None) => true,
            (Some(a), Some(d)) => a.name@ == d.0 && a.vendor_id == d.1,
            _ => false,
        },
{
    if flags & DXGI_ADAPTER_FLAG_SOFTWARE != 0 {
        return None;
    }
    let mut units: Vec<u16> = Vec::new();
    let mut i: usize = 0;
    while i < description.len() && description[i] != 0
        invariant
            i <= description@.len(),
            units@ == description@.subrange(0, i as int),
            nul_len_from(description@, 0) == nul_len_from(description@, i as int),
        decreases description@.len() - i,
    {
        units.push(description[i]);
        i = i + 1;
    }
    assert(nul_len_from(description@, i as int) == i);
    let text = utf16_lossy(units.as_slice());
    let name = collapse_whitespace(text.as_str());
    Some(GpuAdapter { name, vendor_id })
}

} // verus!
