//! Video encoder selection for the generated kyavserver configs.
//!
//! The encoder is a machine setting: `Auto` picks the hardware encoder of the
//! GPU kyavserver works on (DXGI adapter 0) and falls back to x264 on the CPU.

use vstd::prelude::*;
use crate::text::{chars_of, ends_with, find, find_in, first_word, first_word_of, lit, sub_vec, vec_ends_with};

verus! {

/// The operator's encoder setting.
#[derive(Clone, Copy, Debug, PartialEq, Eq, Structural)]
pub enum EncoderChoice {
    /// Hardware encoder of the primary GPU when it is known to work, else x264.
    Auto,
    /// Software H.264 on the CPU.
    X264,
    /// AMD Advanced Media Framework.
    Amf,
    /// NVIDIA NVENC.
    Nvenc,
    /// Intel Quick Sync Video: offered on Intel GPUs, never picked by `Auto`.
    Qsv,
}

impl Default for EncoderChoice {
    fn default() -> (r: EncoderChoice)
        ensures
            r == EncoderChoice::Auto,
    {
        EncoderChoice::Auto
    }
}

/// GPU vendors a hardware encoder is known for.
#[derive(Clone, Copy, Debug, PartialEq, Eq, Structural)]
pub enum GpuVendor {
    Amd,
    Nvidia,
    Intel,
}

/// The fork's `[kyavserver].encoder` string of a choice; `None` for `Auto`.
pub open spec fn choice_name(c: EncoderChoice) -> Option<Seq<char>> {
    match c {
        EncoderChoice::Auto => None,
        EncoderChoice::X264 => Some("x264"@),
        EncoderChoice::Amf => Some("amf"@),
        EncoderChoice::Nvenc => Some("nvenc"@),
        EncoderChoice::Qsv => Some("qsv"@),
    }
}

/// The vendor a hardware choice needs.
pub open spec fn choice_vendor(c: EncoderChoice) -> Option<GpuVendor> {
    match c {
        EncoderChoice::Amf => Some(GpuVendor::Amd),
        EncoderChoice::Nvenc => Some(GpuVendor::Nvidia),
        EncoderChoice::Qsv => Some(GpuVendor::Intel),
        _ => None,
    }
}

/// The vendor of a PCI vendor id.
pub open spec fn pci_vendor(id: u32) -> Option<GpuVendor> {
    if id == 0x1002 {
        Some(GpuVendor::Amd)
    } else if id == 0x10DE {
        Some(GpuVendor::Nvidia)
    } else if id == 0x8086 {
        Some(GpuVendor::Intel)
    } else {
        None
    }
}

/// Every choice, in the order the UI lists them.
pub open spec fn all_choices() -> Seq<EncoderChoice> {
    seq![EncoderChoice::Auto, EncoderChoice::X264, EncoderChoice::Amf, EncoderChoice::Nvenc, EncoderChoice::Qsv]
}

impl EncoderChoice {
    /// Every choice, in the order the UI lists them.
    pub fn all() -> (r: Vec<EncoderChoice>)
        ensures
            r@ == all_choices(),
    {
        vec![EncoderChoice::Auto, EncoderChoice::X264, EncoderChoice::Amf, EncoderChoice::Nvenc, EncoderChoice::Qsv]
    }

    /// The fork's `[kyavserver].encoder` string; `None` for `Auto`, which only
    /// becomes concrete once the GPU is known.
    pub fn kyber_name(self) -> (r: Option<&'static str>)
        ensures
            match r {
                Some(s) => choice_name(self) == Some(s@),
                None => choice_name(self) is None,
            },
    {
        match self {
            EncoderChoice::Auto => None,
            EncoderChoice::X264 => Some("x264"),
            EncoderChoice::Amf => Some("amf"),
            EncoderChoice::Nvenc => Some("nvenc"),
            EncoderChoice::Qsv => Some("qsv"),
        }
    }

    /// The GPU vendor a hardware choice needs; `None` for x264 and `Auto`.
    pub fn vendor(self) -> (r: Option<GpuVendor>)
        ensures
            r == choice_vendor(self),
    {
        match self {
            EncoderChoice::Amf => Some(GpuVendor::Amd),
            EncoderChoice::Nvenc => Some(GpuVendor::Nvidia),
            EncoderChoice::Qsv => Some(GpuVendor::Intel),
            EncoderChoice::Auto | EncoderChoice::X264 => None,
        }
    }
}

impl GpuVendor {
    /// From a PCI vendor id (DXGI `VendorId`).
    pub fn from_pci_id(id: u32) -> (r: Option<GpuVendor>)
        ensures
            r == pci_vendor(id),
    {
        if id == 0x1002 {
            Some(GpuVendor::Amd)
        } else if id == 0x10DE {
            Some(GpuVendor::Nvidia)
        } else if id == 0x8086 {
            Some(GpuVendor::Intel)
        } else {
            None
        }
    }
}

/// The GPU kyavserver captures and encodes on.
#[derive(Clone, Debug, PartialEq, Eq)]
pub struct GpuAdapter {
    /// Marketing name, e.g. "AMD Radeon RX 7800 XT".
    pub name: String,
    /// PCI vendor id.
    pub vendor_id: u32,
}

impl GpuAdapter {
    /// The vendor of this adapter, when it is one a hardware encoder is known for.
    pub fn vendor(&self) -> (r: Option<GpuVendor>)
        ensures
            r == pci_vendor(self.vendor_id),
    {
        GpuVendor::from_pci_id(self.vendor_id)
    }
}

/// The vendor of an optional adapter.
pub open spec fn adapter_vendor(primary: Option<&GpuAdapter>) -> Option<GpuVendor> {
    match primary {
        Some(g) => pci_vendor(g.vendor_id),
        None => None,
    }
}

/// The concrete encoder string for `choice` on a machine whose primary GPU has
/// vendor `vendor`: an explicit choice is honoured; `Auto` takes AMF on AMD,
/// NVENC on NVIDIA, and x264 everywhere else.
pub open spec fn resolved_name(choice: EncoderChoice, vendor: Option<GpuVendor>) -> Seq<char> {
    match choice_name(choice) {
        Some(n) => n,
        None => match vendor {
            Some(GpuVendor::Amd) => "amf"@,
            Some(GpuVendor::Nvidia) => "nvenc"@,
            _ => "x264"@,
        },
    }
}

/// An explicit choice is honoured whatever the GPU: AMF is `amf`, NVENC
/// `nvenc`, Quick Sync `qsv` and x264 `x264`. `Auto` takes `amf` on AMD,
/// `nvenc` on NVIDIA and `x264` on anything else, so a hardware choice names
/// what `Auto` would pick on its own vendor; distinct choices have distinct
/// names.
pub proof fn lemma_explicit_choice_honoured(v: Option<GpuVendor>)
    ensures
        resolved_name(EncoderChoice::Amf, v) == "amf"@,
        resolved_name(EncoderChoice::Nvenc, v) == "nvenc"@,
        resolved_name(EncoderChoice::Qsv, v) == "qsv"@,
        resolved_name(EncoderChoice::X264, v) == "x264"@,
        resolved_name(EncoderChoice::Auto, Some(GpuVendor::Amd)) == "amf"@,
        resolved_name(EncoderChoice::Auto, Some(GpuVendor::Nvidia)) == "nvenc"@,
        resolved_name(EncoderChoice::Auto, Some(GpuVendor::Intel)) == "x264"@,
        resolved_name(EncoderChoice::Auto, None) == "x264"@,
        resolved_name(EncoderChoice::Amf, v) == resolved_name(EncoderChoice::Auto, choice_vendor(EncoderChoice::Amf)),
        resolved_name(EncoderChoice::Nvenc, v) == resolved_name(EncoderChoice::Auto, choice_vendor(EncoderChoice::Nvenc)),
        forall|a: EncoderChoice, b: EncoderChoice| #[trigger] choice_name(a) == #[trigger] choice_name(b) ==> a == b,
{
    reveal_strlit("amf");
    reveal_strlit("nvenc");
    reveal_strlit("qsv");
    reveal_strlit("x264");
    assert("amf"@[0] != "qsv"@[0]);
    assert("amf"@ != "qsv"@);
    assert("amf"@ != "x264"@);
    assert("amf"@ != "nvenc"@);
    assert("qsv"@ != "x264"@);
    assert("qsv"@.len() != "nvenc"@.len());
    assert("qsv"@ != "nvenc"@);
    assert("nvenc"@.len() != "x264"@.len());
    assert("nvenc"@ != "x264"@);
}

/// The concrete `[kyavserver].encoder` for `choice` on a machine whose primary
/// GPU is `primary` (`None` when unknown).
pub fn resolve(choice: EncoderChoice, primary: Option<&GpuAdapter>) -> (r: &'static str)
    ensures
        r@ == resolved_name(choice, adapter_vendor(primary)),
{
    match choice.kyber_name() {
        Some(name) => name,
        None => {
            let vendor = match primary {
                Some(g) => g.vendor(),
                None => None,
            };
            match vendor {
                Some(GpuVendor::Amd) => "amf",
                Some(GpuVendor::Nvidia) => "nvenc",
                Some(GpuVendor::Intel) | None => "x264",
            }
        },
    }
}

/// The encoder a transmitter is started with: x264 once it has fallen back,
/// else what the setting resolves to.
pub open spec fn started_encoder(choice: EncoderChoice, vendor: Option<GpuVendor>, fell_back: bool) -> Seq<char> {
    if fell_back {
        "x264"@
    } else {
        resolved_name(choice, vendor)
    }
}

/// The encoder a transmitter is started with, and whether an x264 fallback is
/// armed for it: every encoder but x264 may fail on the GPU and gets one.
pub fn transmitter_encoder(choice: EncoderChoice, primary: Option<&GpuAdapter>, fell_back: bool) -> (r: (
    &'static str,
    bool,
))
    ensures
        r.0@ == started_encoder(choice, adapter_vendor(primary), fell_back),
        r.1 == (r.0@ != "x264"@),
{
    proof {
        reveal_strlit("x264");
        reveal_strlit("amf");
        reveal_strlit("nvenc");
        reveal_strlit("qsv");
    }
    if fell_back {
        return ("x264", false);
    }
    let vendor = match primary {
        Some(g) => g.vendor(),
        None => None,
    };
    let hardware = match choice {
        EncoderChoice::X264 => false,
        EncoderChoice::Amf | EncoderChoice::Nvenc | EncoderChoice::Qsv => true,
        EncoderChoice::Auto => match vendor {
            Some(GpuVendor::Amd) | Some(GpuVendor::Nvidia) => true,
            Some(GpuVendor::Intel) | None => false,
        },
    };
    let name = resolve(choice, primary);
    assert(vendor == adapter_vendor(primary));
    assert(name@.len() != 4 || name@ == "x264"@);
    (name, hardware)
}

/// The marker that precedes the codec name in a libavcodec error line.
pub open spec fn lavc_error_marker() -> Seq<char> {
    " ERROR txproto::lavc:"@
}

/// A codec name that belongs to a hardware encoder.
pub open spec fn is_hardware_codec(codec: Seq<char>) -> bool {
    ||| ends_with(codec, "_amf"@)
    ||| ends_with(codec, "_nvenc"@)
    ||| ends_with(codec, "_qsv"@)
    ||| ends_with(codec, "_vaapi"@)
}

/// Whether a log line reports a failing hardware encoder: after the first
/// `" ERROR txproto::lavc:"`, the first word names a hardware codec.
pub open spec fn reports_hardware_failure(line: Seq<char>) -> bool {
    let i = find(line, lavc_error_marker());
    i >= 0 && is_hardware_codec(first_word(line.subrange(i + lavc_error_marker().len(), line.len() as int)))
}

/// Whether one line of a transmitter's log reports a failing hardware
/// encoder, such as
/// `ERROR txproto::lavc:h264_amf - Could not init hardware frames context`.
/// `libx264` never matches, so falling back to x264 cannot loop.
pub fn is_hardware_encoder_failure(line: &str) -> (r: bool)
    ensures
        r == reports_hardware_failure(line@),
{
    let v = chars_of(line);
    let marker = lit(" ERROR txproto::lavc:");
    proof {
        crate::text::lemma_find_bounds(v@, marker@, 0);
    }
    let i = match find_in(&v, &marker, 0) {
        Some(i) => i,
        None => return false,
    };
    let n = v.len();
    let m = marker.len();
    assert(i + m <= n);
    let rest = sub_vec(&v, i + m, n);
    let codec = first_word_of(&rest);
    vec_ends_with(&codec, &lit("_amf")) || vec_ends_with(&codec, &lit("_nvenc"))
        || vec_ends_with(&codec, &lit("_qsv")) || vec_ends_with(&codec, &lit("_vaapi"))
}

/// An error from x264 is never taken for a failing hardware encoder: its
/// codec, `libx264`, carries none of the hardware suffixes, so the fallback
/// to x264 cannot set itself off again.
pub proof fn lemma_x264_never_falls_back(line: Seq<char>)
    requires
        ({
            let i = find(line, lavc_error_marker());
            i >= 0 && first_word(line.subrange(i + lavc_error_marker().len(), line.len() as int)) == "libx264"@
        }),
    ensures
        !reports_hardware_failure(line),
{
    reveal_strlit("libx264");
    reveal_strlit("_amf");
    reveal_strlit("_nvenc");
    reveal_strlit("_qsv");
    reveal_strlit("_vaapi");
    let c = "libx264"@;
    assert(c.subrange(c.len() - 4, c.len() as int)[0] == 'x');
    assert(c.subrange(c.len() - 6, c.len() as int)[0] == 'i');
    assert(c.subrange(c.len() - 4, c.len() as int)[0] != "_qsv"@[0]);
    assert(!ends_with(c, "_amf"@));
    assert(!ends_with(c, "_nvenc"@));
    assert(!ends_with(c, "_qsv"@));
    assert(!ends_with(c, "_vaapi"@));
}

/// One entry of the encoder picker.
#[derive(Clone, Copy, Debug, PartialEq, Eq, Structural)]
pub struct EncoderOption {
    pub id: EncoderChoice,
    /// Whether it can work on this machine. `Auto` and x264 always can.
    pub available: bool,
}

/// Whether `id` can work on a machine whose primary GPU has vendor `vendor`.
pub open spec fn choice_available(id: EncoderChoice, vendor: Option<GpuVendor>) -> bool {
    choice_vendor(id) is None || choice_vendor(id) == vendor
}

/// What the UI needs to render the encoder setting.
#[derive(Clone, Debug, PartialEq, Eq)]
pub struct EncoderInfo {
    /// The stored setting.
    pub choice: EncoderChoice,
    /// What it resolves to right now.
    pub resolved: &'static str,
    /// Name of the primary GPU, if known.
    pub gpu: Option<String>,
    pub options: Vec<EncoderOption>,
}

impl EncoderInfo {
    /// The picker for `choice` on a machine whose primary GPU is `primary`:
    /// every choice in UI order, available when it needs no vendor or the
    /// primary GPU's.
    pub fn new(choice: EncoderChoice, primary: Option<&GpuAdapter>) -> (r: EncoderInfo)
        ensures
            r.choice == choice,
            r.resolved@ == resolved_name(choice, adapter_vendor(primary)),
            match primary {
                Some(g) => r.gpu matches Some(n) && n@ == g.name@,
                None => r.gpu is None,
            },
            r.options@.len() == all_choices().len(),
            forall|k: int|
                0 <= k < all_choices().len() ==> #[trigger] r.options@[k] == (EncoderOption {
                    id: all_choices()[k],
                    available: choice_available(all_choices()[k], adapter_vendor(primary)),
                }),
    {
        let vendor = match primary {
            Some(g) => g.vendor(),
            None => None,
        };
        let all = EncoderChoice::all();
        let mut options: Vec<EncoderOption> = Vec::new();
        let mut k: usize = 0;
        while k < all.len()
            invariant
                all@ == all_choices(),
                vendor == adapter_vendor(primary),
                k <= all@.len(),
                options@.len() == k,
                forall|j: int|
                    0 <= j < k ==> #[trigger] options@[j] == (EncoderOption {
                        id: all_choices()[j],
                        available: choice_available(all_choices()[j], vendor),
                    }),
            decreases all@.len() - k,
        {
            let id = all[k];
            let needs = id.vendor();
            let available = match needs {
                None => true,
                Some(v) => match vendor {
                    Some(w) => v == w,
                    None => false,
                },
            };
            options.push(EncoderOption { id, available });
            k = k + 1;
        }
        let gpu = match primary {
            Some(g) => Some(g.name.clone()),
            None => None,
        };
        EncoderInfo { choice, resolved: resolve(choice, primary), gpu, options }
    }
}

} // verus!
