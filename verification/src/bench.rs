//! The decisions and records of the latency bench instrument: the schedule of
//! a paced generator, the probe's frame-counter rule, the relay's two-stage
//! publishing, the pick of pixel formats, and the CSV rows every run writes.

use vstd::prelude::*;
use crate::backdrop::{composed, Background};
use crate::hud::{draw, lemma_overlay_within, lemma_paint_outside_lines, overlay_areas, overlay_fits, paint_all, BOX_H};
use crate::idcode::{
    band_at, band_copy, band_offset, band_origins, band_origins_spec, band_pixel, decode_spec, encode,
    lemma_band_copy_decodes, lemma_band_painted, lemma_unpainted_at, paint_band, word_spec, DecodeError, BAND_H,
    BAND_W, CELL,
};
use vstd::arithmetic::div_mod::{lemma_div_is_ordered, lemma_fundamental_div_mod_converse};
use crate::spout::{cstr_at, read_cstr};
use vstd::string::StringSliceAdditionalSpecFns;
use crate::text::{lacks, lemma_decimal_lacks, lemma_signed_decimal_lacks_comma, lemma_split_undoes_join};
use crate::text::{
    bool_text, chars_of, decimal, decimal_string, ends_with, join_with, joined, push_char,
    push_signed, push_str, seqs_of, signed_decimal, signed_string, split_fields, split_on,
    strings_of, str_eq, vec_ends_with,
};

verus! {

// ---------------------------------------------------------------------------
// Pixel formats
// ---------------------------------------------------------------------------

/// `UYVY`: 4:2:2, two pixels in four bytes, luma at odd bytes.
pub const FOURCC_UYVY: u32 = 0x5956_5955;
/// `BGRA`: four bytes per pixel, alpha last.
pub const FOURCC_BGRA: u32 = 0x4152_4742;
/// `BGRX`: four bytes per pixel, the fourth unused.
pub const FOURCC_BGRX: u32 = 0x5852_4742;

/// Receiver colour format: BGRX or BGRA, as sent.
pub const RECV_COLOR_BGRX_BGRA: i32 = 0;
/// Receiver colour format: UYVY when the source allows, else BGRA.
pub const RECV_COLOR_UYVY_BGRA: i32 = 1;

/// The code of a four-character format tag: its bytes, little-endian.
pub open spec fn fourcc_spec(s: Seq<u8>) -> int {
    s[0] + 256 * s[1] + 65536 * s[2] + 16777216 * s[3]
}

/// The code of the four-character format tag `s`.
pub fn fourcc(s: &[u8; 4]) -> (r: u32)
    ensures
        r == fourcc_spec(s@),
{
    let a = s[0] as u32;
    let b = s[1] as u32;
    let c = s[2] as u32;
    let d = s[3] as u32;
    let r = a | b << 8 | c << 16 | d << 24;
    assert(r == a + 256 * b + 65536 * c + 16777216 * d) by (bit_vector)
        requires
            a < 256,
            b < 256,
            c < 256,
            d < 256,
            r == a | b << 8 | c << 16 | d << 24,
    ;
    r
}

/// The sender's pixel format named by `--fourcc`.
pub open spec fn send_fourcc_spec(name: Seq<char>) -> Result<u32, Seq<char>> {
    if name == "BGRX"@ {
        Ok(FOURCC_BGRX)
    } else if name == "BGRA"@ {
        Ok(FOURCC_BGRA)
    } else {
        Err("--fourcc "@ + name + ": BGRX or BGRA"@)
    }
}

/// The sender's pixel format named by `--fourcc`, or the message that
/// rejects the name.
pub fn send_fourcc(name: &str) -> (r: Result<u32, String>)
    ensures
        match (r, send_fourcc_spec(name@)) {
            (Ok(a), Ok(b)) => a == b,
            (Err(e), Err(m)) => e@ == m,
            _ => false,
        },
{
    if str_eq(name, "BGRX") {
        Ok(FOURCC_BGRX)
    } else if str_eq(name, "BGRA") {
        Ok(FOURCC_BGRA)
    } else {
        let mut e = String::new();
        push_str(&mut e, "--fourcc ");
        push_str(&mut e, name);
        push_str(&mut e, ": BGRX or BGRA");
        Err(e)
    }
}

/// The receiver's colour format named by `--color`.
pub open spec fn recv_color_spec(name: Seq<char>) -> Result<i32, Seq<char>> {
    if name == "uyvy"@ {
        Ok(RECV_COLOR_UYVY_BGRA)
    } else if name == "bgra"@ {
        Ok(RECV_COLOR_BGRX_BGRA)
    } else {
        Err("--color "@ + name + ": uyvy or bgra"@)
    }
}

/// The receiver's colour format named by `--color`, or the message that
/// rejects the name.
pub fn recv_color(name: &str) -> (r: Result<i32, String>)
    ensures
        match (r, recv_color_spec(name@)) {
            (Ok(a), Ok(b)) => a == b,
            (Err(e), Err(m)) => e@ == m,
            _ => false,
        },
{
    if str_eq(name, "uyvy") {
        Ok(RECV_COLOR_UYVY_BGRA)
    } else if str_eq(name, "bgra") {
        Ok(RECV_COLOR_BGRX_BGRA)
    } else {
        let mut e = String::new();
        push_str(&mut e, "--color ");
        push_str(&mut e, name);
        push_str(&mut e, ": uyvy or bgra");
        Err(e)
    }
}

/// Width of the texture a received frame is uploaded into, as delivered:
/// UYVY packs two pixels in four bytes, so it fills a half-width BGRA texture.
pub fn upload_width(fourcc: u32, w: u32) -> (r: u32)
    ensures
        r == if fourcc == FOURCC_UYVY { w / 2 } else { w },
{
    if fourcc == FOURCC_UYVY { w / 2 } else { w }
}

/// Whether the upload texture must be (re)created for a `w`x`h` frame: there
/// is none yet, or it has other dimensions.
pub fn needs_texture(current: Option<(u32, u32)>, w: u32, h: u32) -> (r: bool)
    ensures
        r == match current {
            None => true,
            Some(dims) => dims != (w, h),
        },
{
    match current {
        None => true,
        Some((cw, ch)) => cw != w || ch != h,
    }
}

// ---------------------------------------------------------------------------
// Decoded identifiers
// ---------------------------------------------------------------------------

/// How a decode result is written in a report: the identifier in decimal,
/// or the name of the failure.
pub open spec fn decode_text(r: Result<u32, DecodeError>) -> Seq<char> {
    match r {
        Ok(id) => decimal(id as nat),
        Err(DecodeError::NoContrast) => "NoContrast"@,
        Err(DecodeError::BadCrc) => "BadCrc"@,
    }
}

/// The report text of a decode result.
pub fn fmt(r: &Result<u32, DecodeError>) -> (s: String)
    ensures
        s@ == decode_text(*r),
{
    match r {
        Ok(id) => decimal_string(*id as u64),
        Err(DecodeError::NoContrast) => String::from_str("NoContrast"),
        Err(DecodeError::BadCrc) => String::from_str("BadCrc"),
    }
}

/// Both band copies of a frame decoded to the same identifier.
pub open spec fn bands_agree(a: Result<u32, DecodeError>, b: Result<u32, DecodeError>) -> bool {
    match (a, b) {
        (Ok(x), Ok(y)) => x == y,
        _ => false,
    }
}

/// Whether a frame is accepted: both band copies decode, to the same identifier.
pub fn agree(a: &Result<u32, DecodeError>, b: &Result<u32, DecodeError>) -> (r: bool)
    ensures
        r == bands_agree(*a, *b),
{
    match (a, b) {
        (Ok(x), Ok(y)) => *x == *y,
        _ => false,
    }
}

// ---------------------------------------------------------------------------
// Generator schedule
// ---------------------------------------------------------------------------

/// The deadline (microseconds) of frame `n` of a run paced at `fps` from `start`.
pub open spec fn frame_deadline(start: int, n: nat, fps: nat) -> int {
    start + (n * 1000000) / fps
}

/// The deadline of frame `n` of a run paced at `fps` from `start`.
pub fn deadline(start: i64, n: u64, fps: u64) -> (r: i64)
    requires
        fps > 0,
        n * 1000000 <= u64::MAX,
        (n * 1000000) / (fps as int) <= i64::MAX,
        frame_deadline(start as int, n as nat, fps as nat) <= i64::MAX,
    ensures
        r == frame_deadline(start as int, n as nat, fps as nat),
{
    let q = n * 1_000_000 / fps;
    start + q as i64
}

/// The deadline of frame `n`, or `None` once it falls at or after `end`:
/// the run is over.
pub fn scheduled(start: i64, end: i64, n: u64, fps: u64) -> (r: Option<i64>)
    requires
        fps > 0,
        n * 1000000 <= u64::MAX,
        (n * 1000000) / (fps as int) <= i64::MAX,
        frame_deadline(start as int, n as nat, fps as nat) <= i64::MAX,
    ensures
        r == if frame_deadline(start as int, n as nat, fps as nat) < end {
            Some(frame_deadline(start as int, n as nat, fps as nat) as i64)
        } else {
            None::<i64>
        },
{
    let d = deadline(start, n, fps);
    if d >= end { None } else { Some(d) }
}

/// The identifier frame `n` carries: its low 24 bits.
pub fn frame_id(n: u64) -> (r: u32)
    ensures
        r == n % 16777216,
{
    let low = n as u32;
    let r = low & 0x00FF_FFFF;
    assert(r == n % 16777216) by (bit_vector)
        requires
            low == n as u32,
            r == low & 0x00FF_FFFF,
    ;
    r
}

// ---------------------------------------------------------------------------
// Probe and relay decisions
// ---------------------------------------------------------------------------

/// The probe's frame rule: a frame counter reading is a new frame only when
/// it is strictly above the last one seen (another receiver's wait-and-release
/// shows up as a transient count - 1); the answer is how many frames it moved.
pub fn new_frame(last: u64, count: u64) -> (r: Option<u64>)
    ensures
        r == if count > last { Some((count - last) as u64) } else { None::<u64> },
{
    if count <= last { None } else { Some(count - last) }
}

/// When the queued frame detected at `t_in` is due: `delay` later.
pub fn relay_due(t_in: i64, delay: i64) -> (r: i64)
    requires
        i64::MIN <= t_in + delay <= i64::MAX,
    ensures
        r == t_in + delay,
{
    t_in + delay
}

/// Whether to arm the frame due at `due` now: its GPU copy and sender lock
/// are paid `lead` ahead, as soon as the next poll would be too late.
pub fn should_arm(now: i64, poll: i64, due: i64, lead: i64) -> (r: bool)
    requires
        i64::MIN <= now + poll <= i64::MAX,
        i64::MIN <= due - lead <= i64::MAX,
    ensures
        r == (now + poll >= due - lead),
{
    now + poll >= due - lead
}

/// Whether to signal the armed frame due at `due` now: the next poll would
/// be too late.
pub fn should_fire(now: i64, poll: i64, due: i64) -> (r: bool)
    requires
        i64::MIN <= now + poll <= i64::MAX,
    ensures
        r == (now + poll >= due),
{
    now + poll >= due
}

/// The next instant the relay must act at: the armed frame's due time, else
/// the arming time of the first queued frame, else never.
pub open spec fn next_event(armed_due: Option<i64>, front_t_in: Option<i64>, delay: int, lead: int) -> int {
    match (armed_due, front_t_in) {
        (Some(due), _) => due as int,
        (None, Some(t_in)) => t_in + delay - lead,
        (None, None) => i64::MAX as int,
    }
}

/// The next instant the relay must act at.
pub fn next_wake(armed_due: Option<i64>, front_t_in: Option<i64>, delay: i64, lead: i64) -> (r: i64)
    requires
        front_t_in is Some ==> i64::MIN <= front_t_in->0 + delay <= i64::MAX,
        front_t_in is Some ==> i64::MIN <= front_t_in->0 + delay - lead <= i64::MAX,
    ensures
        r == next_event(armed_due, front_t_in, delay as int, lead as int),
{
    match (armed_due, front_t_in) {
        (Some(due), _) => due,
        (None, Some(t_in)) => t_in + delay - lead,
        (None, None) => i64::MAX,
    }
}

/// How long the relay sleeps: until the next poll, or the next event if sooner.
pub fn wake_at(now: i64, poll: i64, next: i64) -> (r: i64)
    requires
        i64::MIN <= now + poll <= i64::MAX,
    ensures
        r == if now + poll <= next { now + poll } else { next as int },
{
    let p = now + poll;
    if p <= next { p } else { next }
}

/// What became of a frame the relay saw arrive.
#[derive(Debug, Clone, Copy, PartialEq, Eq, Structural)]
pub enum Arrival {
    /// Copied into the relay's next free slot.
    Copied,
    /// The sender's lock stayed busy: nothing was copied, the slot stays free.
    Busy,
    /// No free slot, or no input texture: the frame is lost.
    Dropped,
}

/// The relay's frame store. Each GPU slot, numbered from 0, is in exactly one
/// place: free, queued with the frame it holds (detection time and counter,
/// oldest first), or armed (its copy paid and the sender locked) with its
/// due time.
#[derive(Debug)]
pub struct Relay {
    pub free: Vec<u64>,
    pub queue: Vec<(u64, i64, u64)>,
    pub armed: Option<(u64, i64, u64, i64)>,
    /// Frames lost for want of a free slot or an input texture.
    pub overflow: u64,
}

/// The slots of the queued frames, oldest first.
pub open spec fn queue_slots(q: Seq<(u64, i64, u64)>) -> Seq<u64> {
    q.map_values(|e: (u64, i64, u64)| e.0)
}

/// The slot of the armed frame, if any.
pub open spec fn armed_slots(a: Option<(u64, i64, u64, i64)>) -> Seq<u64> {
    match a {
        Some(x) => seq![x.0],
        None => seq![],
    }
}

/// Every slot the relay holds, wherever it is.
pub open spec fn slots_held(r: Relay) -> vstd::multiset::Multiset<u64> {
    (r.free@ + queue_slots(r.queue@) + armed_slots(r.armed)).to_multiset()
}

/// The slots `0..n`.
pub open spec fn slot_range(n: nat) -> Seq<u64> {
    Seq::new(n, |i: int| i as u64)
}

impl Relay {
    /// A relay with `slots` free slots and nothing queued.
    pub fn new(slots: u64) -> (r: Relay)
        ensures
            r.free@ == slot_range(slots as nat),
            r.queue@.len() == 0,
            r.armed is None,
            r.overflow == 0,
            slots_held(r) == slot_range(slots as nat).to_multiset(),
    {
        let mut free: Vec<u64> = Vec::new();
        let mut i: u64 = 0;
        while i < slots
            invariant
                i <= slots,
                free@ == slot_range(i as nat),
            decreases slots - i,
        {
            free.push(i);
            assert(free@ =~= slot_range((i + 1) as nat));
            i = i + 1;
        }
        let r = Relay { free, queue: Vec::new(), armed: None, overflow: 0 };
        assert(queue_slots(r.queue@) =~= seq![]);
        assert(r.free@ + queue_slots(r.queue@) + armed_slots(r.armed) =~= slot_range(slots as nat));
        r
    }

    /// The slot the next arriving frame is copied into: the last free one.
    pub fn input_slot(&self) -> (r: Option<u64>)
        ensures
            r == if self.free@.len() > 0 { Some(self.free@.last()) } else { None },
    {
        if self.free.len() > 0 { Some(self.free[self.free.len() - 1]) } else { None }
    }

    /// Record an arriving frame detected at `t_in` with counter `count`: a
    /// copied frame takes the last free slot to the back of the queue, a busy
    /// lock leaves everything as it was, and a lost frame (or a copy claimed
    /// with no free slot) counts as overflow. No slot is gained or lost.
    pub fn frame_in(&mut self, arrival: Arrival, t_in: i64, count: u64)
        requires
            (arrival != Arrival::Busy && !(arrival == Arrival::Copied && old(self).free@.len() > 0)) ==> old(self).overflow < u64::MAX,
        ensures
            final(self).armed == old(self).armed,
            slots_held(*final(self)) == slots_held(*old(self)),
            if arrival == Arrival::Busy {
                &&& final(self).free@ == old(self).free@
                &&& final(self).queue@ == old(self).queue@
                &&& final(self).overflow == old(self).overflow
            } else if arrival == Arrival::Copied && old(self).free@.len() > 0 {
                &&& final(self).free@ == old(self).free@.drop_last()
                &&& final(self).queue@ == old(self).queue@.push((old(self).free@.last(), t_in, count))
                &&& final(self).overflow == old(self).overflow
            } else {
                &&& final(self).free@ == old(self).free@
                &&& final(self).queue@ == old(self).queue@
                &&& final(self).overflow == old(self).overflow + 1
            },
    {
        broadcast use vstd::seq_lib::group_to_multiset_ensures;
        broadcast use vstd::seq_lib::lemma_multiset_commutative;
        match arrival {
            Arrival::Busy => {},
            _ => {
                if arrival == Arrival::Copied && self.free.len() > 0 {
                    let ghost f = self.free@;
                    let ghost q = self.queue@;
                    let slot = self.free.pop().unwrap();
                    self.queue.push((slot, t_in, count));
                    proof {
                        assert(f =~= self.free@.push(slot));
                        assert(queue_slots(self.queue@) =~= queue_slots(q).push(slot));
                        assert(f.to_multiset() =~= self.free@.to_multiset().insert(slot));
                        assert(queue_slots(self.queue@).to_multiset() =~= queue_slots(q).to_multiset().insert(slot));
                        assert((self.free@ + queue_slots(self.queue@) + armed_slots(self.armed)).to_multiset()
                            =~= (f + queue_slots(q) + armed_slots(self.armed)).to_multiset());
                    }
                } else {
                    self.overflow = self.overflow + 1;
                }
            },
        }
    }

    /// The frame to arm next: the oldest queued one, when none is armed.
    pub fn front(&self) -> (r: Option<(u64, i64, u64)>)
        ensures
            r == if self.armed is None && self.queue@.len() > 0 { Some(self.queue@[0]) } else { None },
    {
        if self.armed.is_none() && self.queue.len() > 0 { Some(self.queue[0]) } else { None }
    }

    /// Arm the oldest queued frame, due `delay` after it was detected, given
    /// whether its copy into the sender was prepared (the sender's lock
    /// taken): armed it waits for its due time; otherwise its slot is freed
    /// and its row, unpublished at `now`, is returned. Nothing happens when a
    /// frame is armed already or none is queued. No slot is gained or lost.
    pub fn arm(&mut self, prepared: bool, now: i64, delay: i64) -> (r: Option<String>)
        requires
            old(self).queue@.len() > 0 ==> i64::MIN <= old(self).queue@[0].1 + delay <= i64::MAX,
        ensures
            slots_held(*final(self)) == slots_held(*old(self)),
            final(self).overflow == old(self).overflow,
            if old(self).armed is Some || old(self).queue@.len() == 0 {
                &&& r is None
                &&& final(self).free@ == old(self).free@
                &&& final(self).queue@ == old(self).queue@
                &&& final(self).armed == old(self).armed
            } else {
                let (slot, t_in, count) = old(self).queue@[0];
                let due = (t_in + delay) as i64;
                &&& final(self).queue@ == old(self).queue@.drop_first()
                &&& if prepared {
                    &&& r is None
                    &&& final(self).armed == Some((slot, t_in, count, due))
                    &&& final(self).free@ == old(self).free@
                } else {
                    &&& r matches Some(row) && row@ == relay_row_spec(count, t_in, due, now, false)
                    &&& final(self).armed is None
                    &&& final(self).free@ == old(self).free@.push(slot)
                }
            },
    {
        broadcast use vstd::seq_lib::group_to_multiset_ensures;
        broadcast use vstd::seq_lib::lemma_multiset_commutative;
        if self.armed.is_some() || self.queue.len() == 0 {
            return None;
        }
        let ghost f = self.free@;
        let ghost q = self.queue@;
        let (slot, t_in, count) = self.queue.remove(0);
        let due = relay_due(t_in, delay);
        proof {
            assert(q =~= seq![(slot, t_in, count)] + self.queue@);
            assert(queue_slots(q) =~= seq![slot] + queue_slots(self.queue@));
        }
        if prepared {
            self.armed = Some((slot, t_in, count, due));
            proof {
                assert((self.free@ + queue_slots(self.queue@) + armed_slots(self.armed)).to_multiset()
                    =~= (f + queue_slots(q) + armed_slots(None)).to_multiset());
            }
            None
        } else {
            self.free.push(slot);
            proof {
                assert(self.free@ =~= f.push(slot));
                assert((self.free@ + queue_slots(self.queue@) + armed_slots(self.armed)).to_multiset()
                    =~= (f + queue_slots(q) + armed_slots(None)).to_multiset());
            }
            Some(relay_row(count, t_in, due, now, false))
        }
    }

    /// Record that the armed frame went out at `t_pub`: its slot is freed and
    /// its published row returned; nothing happens when none is armed. No
    /// slot is gained or lost.
    pub fn publish(&mut self, t_pub: i64) -> (r: Option<String>)
        ensures
            slots_held(*final(self)) == slots_held(*old(self)),
            final(self).queue@ == old(self).queue@,
            final(self).overflow == old(self).overflow,
            final(self).armed is None,
            match old(self).armed {
                Some((slot, t_in, count, due)) => {
                    &&& r matches Some(row) && row@ == relay_row_spec(count, t_in, due, t_pub, true)
                    &&& final(self).free@ == old(self).free@.push(slot)
                },
                None => r is None && final(self).free@ == old(self).free@,
            },
    {
        broadcast use vstd::seq_lib::group_to_multiset_ensures;
        broadcast use vstd::seq_lib::lemma_multiset_commutative;
        match self.armed.take() {
            Some((slot, t_in, count, due)) => {
                let ghost f = self.free@;
                self.free.push(slot);
                proof {
                    assert(self.free@ =~= f.push(slot));
                    assert((self.free@ + queue_slots(self.queue@) + armed_slots(self.armed)).to_multiset()
                        =~= (f + queue_slots(self.queue@) + armed_slots(old(self).armed)).to_multiset());
                }
                Some(relay_row(count, t_in, due, t_pub, true))
            },
            None => None,
        }
    }
}

/// Whether an NDI source is the one asked for: it is advertised as
/// `MACHINE (source)`.
pub fn is_wanted_source(full_name: &str, source: &str) -> (r: bool)
    ensures
        r == ends_with(full_name@, seq!['('] + source@ + seq![')']),
{
    let mut suffix = String::new();
    push_char(&mut suffix, '(');
    push_str(&mut suffix, source);
    push_char(&mut suffix, ')');
    assert(suffix@ =~= seq!['('] + source@ + seq![')']);
    let name = chars_of(full_name);
    let tail = chars_of(suffix.as_str());
    vec_ends_with(&name, &tail)
}

// ---------------------------------------------------------------------------
// Report rows
// ---------------------------------------------------------------------------

/// A published flag as a report writes it.
pub open spec fn flag_text(b: bool) -> Seq<char> {
    if b { "1"@ } else { "0"@ }
}

fn flag_string(b: bool) -> (r: String)
    ensures
        r@ == flag_text(b),
{
    if b { String::from_str("1") } else { String::from_str("0") }
}

/// A frame of the generator: identifier, deadline, publication time and
/// whether the sender took it.
pub open spec fn gen_row_spec(id: u32, deadline: i64, t_pub: i64, published: bool) -> Seq<char> {
    joined(seq![decimal(id as nat), signed_decimal(deadline as int), signed_decimal(t_pub as int),
        flag_text(published)], ',')
}

/// The report row of one generated frame.
pub fn gen_row(id: u32, deadline: i64, t_pub: i64, published: bool) -> (r: String)
    ensures
        r@ == gen_row_spec(id, deadline, t_pub, published),
{
    let a = decimal_string(id as u64);
    let b = signed_string(deadline);
    let c = signed_string(t_pub);
    let d = flag_string(published);
    let ghost parts = seq![a@, b@, c@, d@];
    let mut fields: Vec<String> = Vec::new();
    fields.push(a);
    fields.push(b);
    fields.push(c);
    fields.push(d);
    assert(strings_of(fields@) =~= parts);
    join_with(&fields, ',')
}

/// A frame seen by the probe: counter, step, detection and read times, both
/// decoded bands and whether they agree.
pub open spec fn probe_row_spec(
    count: u64,
    step: u64,
    t_out: i64,
    t_read: i64,
    a: Result<u32, DecodeError>,
    b: Result<u32, DecodeError>,
) -> Seq<char> {
    joined(seq![decimal(count as nat), decimal(step as nat), signed_decimal(t_out as int),
        signed_decimal(t_read as int), decode_text(a), decode_text(b),
        flag_text(bands_agree(a, b))], ',')
}

/// The report row of one frame the probe read.
pub fn probe_row(
    count: u64,
    step: u64,
    t_out: i64,
    t_read: i64,
    a: &Result<u32, DecodeError>,
    b: &Result<u32, DecodeError>,
) -> (r: String)
    ensures
        r@ == probe_row_spec(count, step, t_out, t_read, *a, *b),
{
    let f0 = decimal_string(count);
    let f1 = decimal_string(step);
    let f2 = signed_string(t_out);
    let f3 = signed_string(t_read);
    let f4 = fmt(a);
    let f5 = fmt(b);
    let f6 = flag_string(agree(a, b));
    let ghost parts = seq![f0@, f1@, f2@, f3@, f4@, f5@, f6@];
    let mut fields: Vec<String> = Vec::new();
    fields.push(f0);
    fields.push(f1);
    fields.push(f2);
    fields.push(f3);
    fields.push(f4);
    fields.push(f5);
    fields.push(f6);
    assert(strings_of(fields@) =~= parts);
    join_with(&fields, ',')
}

/// A frame the probe saw but could not copy: its bands are left empty.
pub open spec fn probe_miss_row_spec(count: u64, step: u64, t_out: i64, t_now: i64) -> Seq<char> {
    joined(seq![decimal(count as nat), decimal(step as nat), signed_decimal(t_out as int),
        signed_decimal(t_now as int), seq![], seq![], "0"@], ',')
}

/// The report row of a frame whose bands could not be copied.
pub fn probe_miss_row(count: u64, step: u64, t_out: i64, t_now: i64) -> (r: String)
    ensures
        r@ == probe_miss_row_spec(count, step, t_out, t_now),
{
    let f0 = decimal_string(count);
    let f1 = decimal_string(step);
    let f2 = signed_string(t_out);
    let f3 = signed_string(t_now);
    let f4 = String::new();
    let f5 = String::new();
    let f6 = flag_string(false);
    let ghost parts = seq![f0@, f1@, f2@, f3@, f4@, f5@, f6@];
    let mut fields: Vec<String> = Vec::new();
    fields.push(f0);
    fields.push(f1);
    fields.push(f2);
    fields.push(f3);
    fields.push(f4);
    fields.push(f5);
    fields.push(f6);
    assert(strings_of(fields@) =~= parts);
    let r = join_with(&fields, ',');
    assert(parts =~= seq![decimal(count as nat), decimal(step as nat), signed_decimal(t_out as int),
        signed_decimal(t_now as int), seq![], seq![], "0"@]);
    r
}

/// A frame of the relay: counter, detection, due and publication times,
/// and whether it went out.
pub open spec fn relay_row_spec(count: u64, t_in: i64, due: i64, t_pub: i64, published: bool) -> Seq<char> {
    joined(seq![decimal(count as nat), signed_decimal(t_in as int), signed_decimal(due as int),
        signed_decimal(t_pub as int), flag_text(published)], ',')
}

/// The report row of one relayed frame.
pub fn relay_row(count: u64, t_in: i64, due: i64, t_pub: i64, published: bool) -> (r: String)
    ensures
        r@ == relay_row_spec(count, t_in, due, t_pub, published),
{
    let f0 = decimal_string(count);
    let f1 = signed_string(t_in);
    let f2 = signed_string(due);
    let f3 = signed_string(t_pub);
    let f4 = flag_string(published);
    let ghost parts = seq![f0@, f1@, f2@, f3@, f4@];
    let mut fields: Vec<String> = Vec::new();
    fields.push(f0);
    fields.push(f1);
    fields.push(f2);
    fields.push(f3);
    fields.push(f4);
    assert(strings_of(fields@) =~= parts);
    join_with(&fields, ',')
}

/// A frame of the NDI generator: identifier, deadline, publication, read and
/// send times, and the connection count (sampled once a second, else -1).
pub open spec fn ndi_gen_row_spec(
    id: u32,
    deadline: i64,
    t_pub: i64,
    t_read: i64,
    t_sent: i64,
    connections: i32,
) -> Seq<char> {
    joined(seq![decimal(id as nat), signed_decimal(deadline as int), signed_decimal(t_pub as int),
        "1"@, signed_decimal(t_read as int), signed_decimal(t_sent as int),
        signed_decimal(connections as int)], ',')
}

/// The report row of one frame sent over NDI.
pub fn ndi_gen_row(id: u32, deadline: i64, t_pub: i64, t_read: i64, t_sent: i64, connections: i32) -> (r: String)
    ensures
        r@ == ndi_gen_row_spec(id, deadline, t_pub, t_read, t_sent, connections),
{
    let f0 = decimal_string(id as u64);
    let f1 = signed_string(deadline);
    let f2 = signed_string(t_pub);
    let f3 = flag_string(true);
    let f4 = signed_string(t_read);
    let f5 = signed_string(t_sent);
    let f6 = signed_string(connections as i64);
    let ghost parts = seq![f0@, f1@, f2@, f3@, f4@, f5@, f6@];
    let mut fields: Vec<String> = Vec::new();
    fields.push(f0);
    fields.push(f1);
    fields.push(f2);
    fields.push(f3);
    fields.push(f4);
    fields.push(f5);
    fields.push(f6);
    assert(strings_of(fields@) =~= parts);
    join_with(&fields, ',')
}

/// The sample of the NDI sender's connection count: taken on the first frame
/// of each second, `-1` on the others.
pub fn connections_sampled(n: u64, fps: u64) -> (r: bool)
    requires
        fps > 0,
    ensures
        r == (n % fps == 0),
{
    n % fps == 0
}

/// A frame received over NDI: its rank, detection and read times, both
/// decoded bands, their agreement, the upload time and the sender timestamp.
pub open spec fn ndi_probe_row_spec(
    received: u64,
    t_out: i64,
    t_read: i64,
    a: Result<u32, DecodeError>,
    b: Result<u32, DecodeError>,
    t_up: i64,
    timestamp: i64,
) -> Seq<char> {
    joined(seq![decimal(received as nat), "1"@, signed_decimal(t_out as int),
        signed_decimal(t_read as int), decode_text(a), decode_text(b), flag_text(bands_agree(a, b)),
        signed_decimal(t_up as int), signed_decimal(timestamp as int)], ',')
}

/// The report row of one frame received over NDI.
pub fn ndi_probe_row(
    received: u64,
    t_out: i64,
    t_read: i64,
    a: &Result<u32, DecodeError>,
    b: &Result<u32, DecodeError>,
    t_up: i64,
    timestamp: i64,
) -> (r: String)
    ensures
        r@ == ndi_probe_row_spec(received, t_out, t_read, *a, *b, t_up, timestamp),
{
    let f0 = decimal_string(received);
    let f1 = flag_string(true);
    let f2 = signed_string(t_out);
    let f3 = signed_string(t_read);
    let f4 = fmt(a);
    let f5 = fmt(b);
    let f6 = flag_string(agree(a, b));
    let f7 = signed_string(t_up);
    let f8 = signed_string(timestamp);
    let ghost parts = seq![f0@, f1@, f2@, f3@, f4@, f5@, f6@, f7@, f8@];
    let mut fields: Vec<String> = Vec::new();
    fields.push(f0);
    fields.push(f1);
    fields.push(f2);
    fields.push(f3);
    fields.push(f4);
    fields.push(f5);
    fields.push(f6);
    fields.push(f7);
    fields.push(f8);
    assert(strings_of(fields@) =~= parts);
    join_with(&fields, ',')
}


// ---------------------------------------------------------------------------
// Reports
// ---------------------------------------------------------------------------

/// The CSV report each bench command writes.
#[derive(Clone, Copy, Debug, PartialEq, Eq)]
pub enum Report {
    Gen,
    Probe,
    Relay,
    NdiGen,
    NdiProbe,
}

/// The header line of a report, newline included.
pub open spec fn report_header(r: Report) -> Seq<char> {
    match r {
        Report::Gen => "id,t_deadline_us,t_pub_us,published\n"@,
        Report::Probe => "frame_count,step,t_out_us,t_read_us,id_a,id_b,decoded\n"@,
        Report::Relay => "frame_count,t_in_us,t_due_us,t_pub_us,published\n"@,
        Report::NdiGen => "id,t_deadline_us,t_pub_us,published,t_read_us,t_sent_us,connections\n"@,
        Report::NdiProbe => "frame_count,step,t_out_us,t_read_us,id_a,id_b,decoded,t_up_us,ndi_timestamp\n"@,
    }
}

impl Report {
    /// The header line of this report, newline included.
    pub fn header(self) -> (r: &'static str)
        ensures
            r@ == report_header(self),
    {
        match self {
            Report::Gen => "id,t_deadline_us,t_pub_us,published\n",
            Report::Probe => "frame_count,step,t_out_us,t_read_us,id_a,id_b,decoded\n",
            Report::Relay => "frame_count,t_in_us,t_due_us,t_pub_us,published\n",
            Report::NdiGen => "id,t_deadline_us,t_pub_us,published,t_read_us,t_sent_us,connections\n",
            Report::NdiProbe => "frame_count,step,t_out_us,t_read_us,id_a,id_b,decoded,t_up_us,ndi_timestamp\n",
        }
    }
}

/// Rows, each followed by a newline.
pub open spec fn csv_lines(rows: Seq<Seq<char>>) -> Seq<char>
    decreases rows.len(),
{
    if rows.len() == 0 {
        seq![]
    } else {
        csv_lines(rows.drop_last()) + rows.last() + seq!['\n']
    }
}

/// The text of a report: its header, then each row on a line of its own.
pub fn csv_text(header: &str, rows: &Vec<String>) -> (r: String)
    ensures
        r@ == header@ + csv_lines(strings_of(rows@)),
{
    let mut out = String::new();
    push_str(&mut out, header);
    let mut i: usize = 0;
    while i < rows.len()
        invariant
            i <= rows@.len(),
            out@ == header@ + csv_lines(strings_of(rows@).subrange(0, i as int)),
        decreases rows@.len() - i,
    {
        assert(strings_of(rows@).subrange(0, i + 1).drop_last() =~= strings_of(rows@).subrange(0, i as int));
        push_str(&mut out, rows[i].as_str());
        push_char(&mut out, '\n');
        i = i + 1;
        assert(out@ =~= header@ + csv_lines(strings_of(rows@).subrange(0, i as int)));
    }
    assert(strings_of(rows@).subrange(0, rows@.len() as int) =~= strings_of(rows@));
    out
}

/// How many rows end with `suffix`.
pub open spec fn count_ending(rows: Seq<Seq<char>>, suffix: Seq<char>) -> nat
    decreases rows.len(),
{
    if rows.len() == 0 {
        0
    } else {
        count_ending(rows.drop_last(), suffix) + if ends_with(rows.last(), suffix) { 1nat } else { 0nat }
    }
}

/// How many probe rows hold a decoded frame: those whose last field is `1`.
pub fn count_decoded(rows: &Vec<String>) -> (r: usize)
    ensures
        r == count_ending(strings_of(rows@), ",1"@),
{
    let one = chars_of(",1");
    let mut n: usize = 0;
    let mut i: usize = 0;
    while i < rows.len()
        invariant
            i <= rows@.len(),
            one@ == ",1"@,
            n <= i,
            n == count_ending(strings_of(rows@).subrange(0, i as int), ",1"@),
        decreases rows@.len() - i,
    {
        assert(strings_of(rows@).subrange(0, i + 1).drop_last() =~= strings_of(rows@).subrange(0, i as int));
        let row = chars_of(rows[i].as_str());
        if vec_ends_with(&row, &one) {
            n = n + 1;
        }
        i = i + 1;
    }
    assert(strings_of(rows@).subrange(0, rows@.len() as int) =~= strings_of(rows@));
    n
}

/// Field `k` (from 0) of a comma-separated row is `f`.
pub open spec fn field_is(row: Seq<char>, k: nat, f: Seq<char>) -> bool {
    k < split_on(row, ',').len() && split_on(row, ',')[k as int] == f
}

/// How many rows have `f` as field `k`.
pub open spec fn count_field(rows: Seq<Seq<char>>, k: nat, f: Seq<char>) -> nat
    decreases rows.len(),
{
    if rows.len() == 0 {
        0
    } else {
        count_field(rows.drop_last(), k, f) + if field_is(rows.last(), k, f) { 1nat } else { 0nat }
    }
}

/// How many NDI probe rows hold a decoded frame: those whose seventh field is `1`.
pub fn count_decoded_fields(rows: &Vec<String>) -> (r: usize)
    ensures
        r == count_field(strings_of(rows@), 6, "1"@),
{
    let one = chars_of("1");
    let mut n: usize = 0;
    let mut i: usize = 0;
    while i < rows.len()
        invariant
            i <= rows@.len(),
            one@ == "1"@,
            n <= i,
            n == count_field(strings_of(rows@).subrange(0, i as int), 6, "1"@),
        decreases rows@.len() - i,
    {
        assert(strings_of(rows@).subrange(0, i + 1).drop_last() =~= strings_of(rows@).subrange(0, i as int));
        let row = chars_of(rows[i].as_str());
        let fields = split_fields(&row, ',');
        assert(seqs_of(fields@).len() == fields@.len());
        if fields.len() > 6 {
            assert(seqs_of(fields@)[6] == fields@[6]@);
            if crate::text::vec_eq(&fields[6], &one) {
                n = n + 1;
            }
        }
        i = i + 1;
    }
    assert(strings_of(rows@).subrange(0, rows@.len() as int) =~= strings_of(rows@));
    n
}

/// A name made safe for a JSON string: backslashes doubled, double quotes
/// turned into apostrophes.
pub open spec fn quote_safe(s: Seq<char>) -> Seq<char>
    decreases s.len(),
{
    if s.len() == 0 {
        seq![]
    } else {
        quote_safe(s.drop_last()) + if s.last() == '\\' {
            seq!['\\', '\\']
        } else if s.last() == '"' {
            seq!['\'']
        } else {
            seq![s.last()]
        }
    }
}

/// `s` with its double quotes turned into apostrophes.
pub open spec fn apostrophes(s: Seq<char>) -> Seq<char>
    decreases s.len(),
{
    if s.len() == 0 {
        seq![]
    } else {
        apostrophes(s.drop_last()) + if s.last() == '"' { seq!['\''] } else { seq![s.last()] }
    }
}

/// Appends `s`, its double quotes turned into apostrophes and, when `escape`
/// is set, its backslashes doubled.
fn push_quoted(out: &mut String, s: &str, escape: bool)
    ensures
        final(out)@ == old(out)@ + if escape { quote_safe(s@) } else { apostrophes(s@) },
{
    let v = chars_of(s);
    let mut i: usize = 0;
    while i < v.len()
        invariant
            v@ == s@,
            i <= v@.len(),
            out@ == old(out)@ + if escape {
                quote_safe(v@.subrange(0, i as int))
            } else {
                apostrophes(v@.subrange(0, i as int))
            },
        decreases v@.len() - i,
    {
        assert(v@.subrange(0, i + 1).drop_last() =~= v@.subrange(0, i as int));
        let c = v[i];
        if escape && c == '\\' {
            push_char(out, '\\');
            push_char(out, '\\');
        } else if c == '"' {
            push_char(out, '\'');
        } else {
            push_char(out, c);
        }
        i = i + 1;
        assert(out@ =~= old(out)@ + if escape {
            quote_safe(v@.subrange(0, i as int))
        } else {
            apostrophes(v@.subrange(0, i as int))
        });
    }
    assert(v@.subrange(0, v@.len() as int) =~= s@);
}

/// The one-line JSON summary of an NDI probe run.
pub open spec fn ndi_summary_spec(
    source: Seq<char>,
    runtime: Seq<char>,
    color: Seq<char>,
    upload: bool,
    formats: Seq<char>,
    frames: i64,
    dropped: i64,
) -> Seq<char> {
    "{\"source\": \""@ + quote_safe(source) + "\", \"runtime\": \""@ + runtime
        + "\", \"color\": \""@ + color + "\", \"upload\": "@ + bool_text(upload)
        + ", \"formats\": \""@ + apostrophes(formats) + "\", \"sdk_video_frames\": "@
        + signed_decimal(frames as int) + ", \"sdk_video_dropped\": "@
        + signed_decimal(dropped as int) + "}\n"@
}

/// The JSON summary of an NDI probe run: the source's full name, the SDK
/// runtime version, the colour format asked for, whether frames were
/// uploaded, the formats seen, and the SDK's frame and drop counters.
pub fn ndi_summary(
    source: &str,
    runtime: &str,
    color: &str,
    upload: bool,
    formats: &str,
    frames: i64,
    dropped: i64,
) -> (r: String)
    ensures
        r@ == ndi_summary_spec(source@, runtime@, color@, upload, formats@, frames, dropped),
{
    let mut out = String::new();
    push_str(&mut out, "{\"source\": \"");
    push_quoted(&mut out, source, true);
    push_str(&mut out, "\", \"runtime\": \"");
    push_str(&mut out, runtime);
    push_str(&mut out, "\", \"color\": \"");
    push_str(&mut out, color);
    push_str(&mut out, "\", \"upload\": ");
    let b = crate::text::bool_string(upload);
    push_str(&mut out, b.as_str());
    push_str(&mut out, ", \"formats\": \"");
    push_quoted(&mut out, formats, false);
    push_str(&mut out, "\", \"sdk_video_frames\": ");
    push_signed(&mut out, frames);
    push_str(&mut out, ", \"sdk_video_dropped\": ");
    push_signed(&mut out, dropped);
    push_str(&mut out, "}\n");
    assert(out@ =~= ndi_summary_spec(source@, runtime@, color@, upload, formats@, frames, dropped));
    out
}


// ---------------------------------------------------------------------------
// Band extraction from a received frame
// ---------------------------------------------------------------------------

/// Bytes in one line of an extracted band (576 BGRA pixels).
pub const BAND_LINE: usize = 2304;
/// Bytes in an extracted band (64 lines).
pub const BAND_BYTES: usize = 147456;

/// Byte `o` of the band extracted at (`x0`, `y0`) from a frame of format
/// `fourcc`: BGRA bytes copied as they are; UYVY read through its luma (the
/// Y of pixel x at byte 2x + 1) as an opaque grey pixel.
pub open spec fn band_byte(data: Seq<u8>, stride: int, fourcc: u32, x0: int, y0: int, o: int) -> u8 {
    let y = o / 2304;
    let x = (o % 2304) / 4;
    let k = o % 4;
    if fourcc == FOURCC_UYVY {
        if k < 3 { data[(y0 + y) * stride + 2 * (x0 + x) + 1] } else { 255 }
    } else {
        data[(y0 + y) * stride + (x0 + x) * 4 + k]
    }
}

/// The band extracted at (`x0`, `y0`), byte after byte.
pub open spec fn extracted(data: Seq<u8>, stride: int, fourcc: u32, x0: int, y0: int) -> Seq<u8> {
    Seq::new(147456, |o: int| band_byte(data, stride, fourcc, x0, y0, o))
}

/// How far into the frame the extraction reads: the end of the band's last line.
pub open spec fn extract_extent(stride: int, fourcc: u32, x0: int, y0: int) -> int {
    (y0 + 63) * stride + if fourcc == FOURCC_UYVY { 2 * (x0 + 575) + 2 } else { (x0 + 576) * 4 }
}

proof fn lemma_band_position(y: int, x: int, k: int)
    requires
        0 <= y,
        0 <= x < 576,
        0 <= k < 4,
    ensures
        (y * 2304 + x * 4 + k) / 2304 == y,
        ((y * 2304 + x * 4 + k) % 2304) / 4 == x,
        (y * 2304 + x * 4 + k) % 4 == k,
{
    let o = y * 2304 + x * 4 + k;
    assert(o / 2304 == y && o % 2304 == x * 4 + k) by (nonlinear_arith)
        requires o == y * 2304 + x * 4 + k, 0 <= x * 4 + k < 2304, 0 <= y;
    assert((x * 4 + k) / 4 == x) by (nonlinear_arith) requires 0 <= k < 4, 0 <= x;
    assert(o % 4 == k) by (nonlinear_arith) requires o == y * 2304 + x * 4 + k, 0 <= k < 4, 0 <= y, 0 <= x;
}

/// Copy the identifier band at (`x0`, `y0`) out of a received frame as BGRA.
pub fn extract_band(data: &[u8], stride: usize, fourcc: u32, x0: usize, y0: usize) -> (band: Vec<u8>)
    requires
        extract_extent(stride as int, fourcc, x0 as int, y0 as int) <= data@.len(),
        y0 + 63 <= usize::MAX,
    ensures
        band@ == extracted(data@, stride as int, fourcc, x0 as int, y0 as int),
        band@.len() == BAND_BYTES,
        forall|o: int| 0 <= o < BAND_BYTES ==> #[trigger] band@[o]
            == band_byte(data@, stride as int, fourcc, x0 as int, y0 as int, o),
{
    let uyvy = fourcc == FOURCC_UYVY;
    let dlen = data.len();
    let mut band: Vec<u8> = Vec::new();
    let mut y: usize = 0;
    while y < 64
        invariant
            y <= 64,
            uyvy == (fourcc == FOURCC_UYVY),
            dlen == data@.len(),
            y0 + 63 <= usize::MAX,
            extract_extent(stride as int, fourcc, x0 as int, y0 as int) <= data@.len(),
            band@.len() == y * 2304,
            forall|o: int| 0 <= o < band@.len() ==> #[trigger] band@[o]
                == band_byte(data@, stride as int, fourcc, x0 as int, y0 as int, o),
        decreases 64 - y,
    {
        assert((y0 + y) * stride <= (y0 + 63) * stride) by (nonlinear_arith)
            requires y <= 63;
        let base = (y0 + y) * stride;
        let mut x: usize = 0;
        while x < 576
            invariant
                y < 64,
                x <= 576,
                uyvy == (fourcc == FOURCC_UYVY),
                base == (y0 + y) * stride,
                base <= (y0 + 63) * stride,
                dlen == data@.len(),
                extract_extent(stride as int, fourcc, x0 as int, y0 as int) <= data@.len(),
                band@.len() == y * 2304 + x * 4,
                forall|o: int| 0 <= o < band@.len() ==> #[trigger] band@[o]
                    == band_byte(data@, stride as int, fourcc, x0 as int, y0 as int, o),
            decreases 576 - x,
        {
            let ghost o = (y * 2304 + x * 4) as int;
            proof {
                lemma_band_position(y as int, x as int, 0);
                lemma_band_position(y as int, x as int, 1);
                lemma_band_position(y as int, x as int, 2);
                lemma_band_position(y as int, x as int, 3);
            }
            let ghost before = band@;
            if uyvy {
                let v = data[base + 2 * (x0 + x) + 1];
                band.push(v);
                band.push(v);
                band.push(v);
                band.push(255);
            } else {
                let at = base + (x0 + x) * 4;
                band.push(data[at]);
                band.push(data[at + 1]);
                band.push(data[at + 2]);
                band.push(data[at + 3]);
            }
            assert forall|p: int| 0 <= p < band@.len() implies #[trigger] band@[p]
                == band_byte(data@, stride as int, fourcc, x0 as int, y0 as int, p) by {
                if p >= o {
                    assert(p == o || p == o + 1 || p == o + 2 || p == o + 3);
                } else {
                    assert(band@[p] == before[p]);
                }
            }
            x = x + 1;
        }
        y = y + 1;
    }
    assert(band@ =~= extracted(data@, stride as int, fourcc, x0 as int, y0 as int));
    band
}


// ---------------------------------------------------------------------------
// Generated frames
// ---------------------------------------------------------------------------

/// What the generator draws for frame `n` over a `w`x`h` frame `f`: the
/// scrolled background, the identifier band at both of its origins, then the
/// overlay when the frame has room for it.
pub open spec fn rendered(tile: Seq<u8>, tile_w: int, w: int, h: int, n: u64, fps: u64, f: Seq<u8>) -> Seq<u8> {
    let stride = w * 4;
    let o = band_origins_spec(w, h);
    let word = word_spec((n % 16777216) as u32);
    let bg = composed(tile, tile_w, w, n, f);
    let one = paint_band(bg, stride, o.0, o.1, word, 1152);
    let two = paint_band(one, stride, o.2, o.3, word, 1152);
    if overlay_fits(w, h, n as nat, fps as nat) {
        paint_all(two, stride, overlay_areas(w, h, n as nat, fps as nat))
    } else {
        two
    }
}

/// Draw frame `n` of a run at `fps` into `frame` (`w`x`h`, BGRA) over the
/// `background` made for that size; the answer is the identifier it carries.
pub fn render(background: &Background, frame: &mut [u8], w: usize, h: usize, n: u64, fps: u64) -> (id: u32)
    requires
        fps > 0,
        old(frame)@.len() == w * h * 4,
        w >= BAND_W + CELL,
        h >= BAND_H + CELL,
        background.tile_width() == w + 1024,
        background.pixels().len() == (w + 1024) * h * 4,
        (n as usize) * 8 <= usize::MAX,
    ensures
        id == n % 16777216,
        final(frame)@ == rendered(background.pixels(), (w + 1024) as int, w as int, h as int, n, fps, old(frame)@),
{
    let ghost f0 = frame@;
    let flen = frame.len();
    let id = frame_id(n);
    assert(w * 4 <= w * h * 4) by (nonlinear_arith)
        requires
            h >= 1,
    ;
    assert((w * h * 4) / (w * 4) == h) by (nonlinear_arith)
        requires
            w >= 1,
    ;
    assert(h * ((w + 1024) * 4) == (w + 1024) * h * 4) by (nonlinear_arith);
    background.compose(n, frame, w);
    let origins = band_origins(w, h);
    let stride = w * 4;
    assert((origins[1].1 + 63) * stride <= (h - 1) * stride) by (nonlinear_arith)
        requires
            origins[1].1 + 64 <= h,
    ;
    assert((32 + 63) * stride <= (h - 1) * stride) by (nonlinear_arith)
        requires
            96 <= h,
    ;
    assert((h - 1) * stride + w * 4 == w * h * 4) by (nonlinear_arith)
        requires
            stride == w * 4,
    ;
    encode(frame, stride, origins[0].0, origins[0].1, id);
    encode(frame, stride, origins[1].0, origins[1].1, id);
    draw(frame, stride, w, h, n, fps);
    id
}


/// Extracting a band from a BGRA frame copies it as it lies.
proof fn lemma_bgra_extraction_copies(data: Seq<u8>, stride: int, x0: int, y0: int)
    ensures
        extracted(data, stride, FOURCC_BGRA, x0, y0) == band_copy(data, stride, x0, y0),
{
    let e = extracted(data, stride, FOURCC_BGRA, x0, y0);
    let b = band_copy(data, stride, x0, y0);
    assert forall|o: int| 0 <= o < 147456 implies #[trigger] e[o] == b[o] by {
        let q = o / 2304;
        let c = o % 2304;
        assert(o == q * 2304 + c);
        lemma_fundamental_div_mod_converse(o, 4, q * 576 + c / 4, c % 4);
        assert((c / 4) * 4 + c % 4 == c);
        assert((x0 + c / 4) * 4 + o % 4 == x0 * 4 + c);
    }
    assert(e =~= b);
}

/// The first band survives the second when the second is drawn on lines below it.
proof fn lemma_first_band_survives(one: Seq<u8>, stride: int, ox: int, oy: int, word: u32)
    requires
        stride >= 2432,
        0 <= ox,
        96 <= oy,
        band_at(one, stride, 32, 32, word),
        (95 + 1) * stride <= one.len(),
    ensures
        band_at(paint_band(one, stride, ox, oy, word, 1152), stride, 32, 32, word),
{
    let two = paint_band(one, stride, ox, oy, word, 1152);
    assert forall|r: int, c: int| 0 <= r < 64 && 0 <= c < 2304 implies #[trigger] two[band_offset(stride, 32, 32, r, c)]
        == band_pixel(word, r * 2304 + c) by {
        let i = band_offset(stride, 32, 32, r, c);
        assert((32 + r) * stride <= 95 * stride) by (nonlinear_arith)
            requires
                r <= 63,
                stride >= 0,
        ;
        assert(96 * stride <= oy * stride) by (nonlinear_arith)
            requires
                96 <= oy,
                stride >= 0,
        ;
        assert(0 <= (32 + r) * stride) by (nonlinear_arith)
            requires
                r >= 0,
                stride >= 0,
        ;
        lemma_unpainted_at(one, stride, ox, oy, word, 1152, i);
    }
}

/// Both bands survive the overlay, which is drawn on lines between them.
proof fn lemma_bands_survive_overlay(two: Seq<u8>, stride: int, w: int, h: int, n: u64, fps: u64, ox: int, oy: int, word: u32)
    requires
        w >= 608,
        stride == w * 4,
        fps > 0,
        overlay_fits(w, h, n as nat, fps as nat),
        0 <= ox,
        ox + 576 <= w,
        oy + 64 <= h,
        oy >= (h - BOX_H) / 2 + BOX_H,
        two.len() == h * stride,
        band_at(two, stride, 32, 32, word),
        band_at(two, stride, ox, oy, word),
    ensures
        band_at(paint_all(two, stride, overlay_areas(w, h, n as nat, fps as nat)), stride, 32, 32, word),
        band_at(paint_all(two, stride, overlay_areas(w, h, n as nat, fps as nat)), stride, ox, oy, word),
{
    let areas = overlay_areas(w, h, n as nat, fps as nat);
    let g = paint_all(two, stride, areas);
    let yb = (h - BOX_H) / 2;
    lemma_overlay_within(w, h, n as nat, fps as nat);
    assert(yb >= 128);
    assert forall|r: int, c: int| 0 <= r < 64 && 0 <= c < 2304 implies #[trigger] g[band_offset(stride, 32, 32, r, c)]
        == band_pixel(word, r * 2304 + c) by {
        let i = band_offset(stride, 32, 32, r, c);
        assert((32 + r) * stride <= 95 * stride) by (nonlinear_arith)
            requires
                r <= 63,
                stride >= 0,
        ;
        assert(96 * stride <= yb * stride) by (nonlinear_arith)
            requires
                96 <= yb,
                stride >= 0,
        ;
        assert(0 <= (32 + r) * stride) by (nonlinear_arith)
            requires
                r >= 0,
                stride >= 0,
        ;
        assert(95 * stride + stride <= h * stride) by (nonlinear_arith)
            requires
                96 <= h,
                stride >= 0,
        ;
        lemma_paint_outside_lines(two, stride, w, areas, yb, yb + BOX_H, i);
    }
    assert forall|r: int, c: int| 0 <= r < 64 && 0 <= c < 2304 implies #[trigger] g[band_offset(stride, ox, oy, r, c)]
        == band_pixel(word, r * 2304 + c) by {
        let i = band_offset(stride, ox, oy, r, c);
        assert((yb + BOX_H) * stride <= (oy + r) * stride) by (nonlinear_arith)
            requires
                yb + BOX_H <= oy + r,
                stride >= 0,
        ;
        assert((oy + r) * stride + ox * 4 + c < h * stride) by (nonlinear_arith)
            requires
                oy + r + 1 <= h,
                ox * 4 + c < stride,
                stride >= 0,
        ;
        lemma_paint_outside_lines(two, stride, w, areas, yb, yb + BOX_H, i);
    }
}

/// Every frame the generator renders carries its identifier in both bands:
/// copied out as BGRA and decoded, each band gives it back, the overlay
/// notwithstanding. The frame must be tall enough for the two bands to sit
/// on different lines.
#[verifier::spinoff_prover]
#[verifier::rlimit(40)]
pub proof fn lemma_rendered_frames_decode(tile: Seq<u8>, tile_w: int, w: int, h: int, n: u64, fps: u64, f: Seq<u8>)
    requires
        w >= 608,
        h >= 192,
        fps > 0,
        f.len() == w * h * 4,
    ensures
        ({
            let g = rendered(tile, tile_w, w, h, n, fps, f);
            let o = band_origins_spec(w, h);
            let id = (n % 16777216) as u32;
            &&& decode_spec(extracted(g, w * 4, FOURCC_BGRA, o.0, o.1), 2304) == Ok::<u32, DecodeError>(id)
            &&& decode_spec(extracted(g, w * 4, FOURCC_BGRA, o.2, o.3), 2304) == Ok::<u32, DecodeError>(id)
        }),
{
    let stride = w * 4;
    let o = band_origins_spec(w, h);
    let id = (n % 16777216) as u32;
    let word = word_spec(id);
    let ox = o.2;
    let oy = o.3;
    assert(0 <= ox && ox + 576 <= w);
    assert(96 <= oy && oy + 64 <= h);
    assert(h * stride == f.len()) by (nonlinear_arith)
        requires
            stride == w * 4,
            f.len() == w * h * 4,
    ;
    assert((oy + 63) * stride + (ox + 576) * 4 <= h * stride) by (nonlinear_arith)
        requires
            oy + 64 <= h,
            (ox + 576) * 4 <= stride,
            stride >= 0,
    ;
    assert(95 * stride + 608 * 4 <= h * stride) by (nonlinear_arith)
        requires
            h >= 192,
            stride >= 2432,
    ;
    assert(96 * stride <= h * stride) by (nonlinear_arith)
        requires
            h >= 192,
            stride >= 0,
    ;
    let bg = composed(tile, tile_w, w, n, f);
    let one = paint_band(bg, stride, 32, 32, word, 1152);
    let two = paint_band(one, stride, ox, oy, word, 1152);
    crate::idcode::lemma_paint_band_len(bg, stride, 32, 32, word);
    crate::idcode::lemma_paint_band_len(one, stride, ox, oy, word);
    lemma_band_painted(bg, stride, 32, 32, word);
    lemma_band_painted(one, stride, ox, oy, word);
    lemma_first_band_survives(one, stride, ox, oy, word);
    let g = rendered(tile, tile_w, w, h, n, fps, f);
    if overlay_fits(w, h, n as nat, fps as nat) {
        lemma_bands_survive_overlay(two, stride, w, h, n, fps, ox, oy, word);
    }
    assert(band_at(g, stride, 32, 32, word));
    assert(band_at(g, stride, ox, oy, word));
    lemma_bgra_extraction_copies(g, stride, 32, 32);
    lemma_bgra_extraction_copies(g, stride, ox, oy);
    lemma_band_copy_decodes(g, stride, 32, 32, id);
    lemma_band_copy_decodes(g, stride, ox, oy, id);
    assert(id & 0x00FF_FFFF == id) by (bit_vector)
        requires
            id < 16777216,
    ;
}


// ---------------------------------------------------------------------------
// The Spout registry, as the bench's own sender and receiver use it
// ---------------------------------------------------------------------------

/// Slots of the bench's view of the Spout name registry.
pub const REGISTRY_SLOTS: usize = 256;

/// The registered names in slot order, up to the first empty slot.
pub open spec fn leading_names(b: Seq<u8>, i: nat, k: nat) -> Seq<Seq<char>>
    decreases k - i,
{
    if i >= k {
        seq![]
    } else if cstr_at(b, (i * 256) as int, 256).len() == 0 {
        seq![]
    } else {
        seq![cstr_at(b, (i * 256) as int, 256)] + leading_names(b, i + 1, k)
    }
}

/// How many slots a registry block of `len` bytes holds, capped.
pub open spec fn registry_slots(len: nat) -> nat {
    if len / 256 < 256 { len / 256 } else { 256 }
}

/// The senders a registry block lists: its names in slot order, up to the
/// first empty slot.
pub fn registered_names(block: &[u8]) -> (r: Vec<String>)
    ensures
        strings_of(r@) == leading_names(block@, 0, registry_slots(block@.len())),
{
    let k: usize = if block.len() / 256 < REGISTRY_SLOTS { block.len() / 256 } else { REGISTRY_SLOTS };
    let mut out: Vec<String> = Vec::new();
    let mut i: usize = 0;
    while i < k
        invariant
            k == registry_slots(block@.len()),
            k * 256 <= block@.len(),
            i <= k,
            strings_of(out@) + leading_names(block@, i as nat, k as nat) == leading_names(block@, 0, k as nat),
        decreases k - i,
    {
        let name = read_cstr(block, i * 256, 256);
        if name.as_str().unicode_len() == 0 {
            assert(leading_names(block@, i as nat, k as nat) =~= seq![]);
            assert(strings_of(out@) =~= strings_of(out@) + leading_names(block@, i as nat, k as nat));
            return out;
        }
        let ghost before = strings_of(out@);
        out.push(name);
        assert(strings_of(out@) =~= before.push(name@));
        assert(strings_of(out@) + leading_names(block@, (i + 1) as nat, k as nat)
            =~= before + leading_names(block@, i as nat, k as nat));
        i = i + 1;
    }
    assert(strings_of(out@) =~= strings_of(out@) + leading_names(block@, i as nat, k as nat));
    out
}

/// Whether `name` fits a slot of the registry with its terminating zero:
/// 1 to 255 bytes of UTF-8. A sender is refused any other name.
pub fn sender_name_fits(name: &str) -> (r: bool)
    ensures
        r == (0 < name.spec_bytes().len() < crate::spout::NAME_LEN),
{
    let n = name.as_bytes().len();
    0 < n && n < crate::spout::NAME_LEN
}

/// Why a sender cannot take a slot of the registry.
#[derive(Debug, Clone, Copy, PartialEq, Eq)]
pub enum RegistryError {
    /// A sender of that name is already registered.
    Taken,
    /// Every slot is in use.
    Full,
}

/// The slot a new sender takes: refused when its name is already there,
/// else the first empty slot, else refused as full.
pub open spec fn registry_slot_spec(slots: Seq<Seq<char>>, name: Seq<char>) -> Result<int, RegistryError> {
    if exists|i: int| 0 <= i < slots.len() && #[trigger] slots[i] == name {
        Err(RegistryError::Taken)
    } else if exists|i: int| 0 <= i < slots.len() && (#[trigger] slots[i]).len() == 0 {
        Ok(choose|i: int| 0 <= i < slots.len() && slots[i].len() == 0 && forall|j: int| 0 <= j < i ==> (#[trigger] slots[j]).len() != 0)
    } else {
        Err(RegistryError::Full)
    }
}

/// The slot a new sender named `name` takes among the registry's `slots`.
pub fn registry_slot(slots: &Vec<String>, name: &str) -> (r: Result<usize, RegistryError>)
    ensures
        match (r, registry_slot_spec(strings_of(slots@), name@)) {
            (Ok(i), Ok(j)) => i == j,
            (Err(a), Err(b)) => a == b,
            _ => false,
        },
{
    let ghost s = strings_of(slots@);
    let mut i: usize = 0;
    while i < slots.len()
        invariant
            i <= slots@.len(),
            s == strings_of(slots@),
            forall|j: int| 0 <= j < i ==> s[j] != name@,
        decreases slots@.len() - i,
    {
        if str_eq(slots[i].as_str(), name) {
            assert(s[i as int] == name@);
            return Err(RegistryError::Taken);
        }
        i = i + 1;
    }
    let mut i: usize = 0;
    while i < slots.len()
        invariant
            i <= slots@.len(),
            s == strings_of(slots@),
            forall|j: int| 0 <= j < slots@.len() ==> s[j] != name@,
            forall|j: int| 0 <= j < i ==> (#[trigger] s[j]).len() != 0,
        decreases slots@.len() - i,
    {
        if slots[i].as_str().unicode_len() == 0 {
            proof {
                assert(s[i as int].len() == 0);
                let c = choose|k: int| 0 <= k < s.len() && s[k].len() == 0 && forall|j: int| 0 <= j < k ==> (#[trigger] s[j]).len() != 0;
                // Earlier slots are all taken, and slot `i` is empty.
                assert(!(c < i) && !(c > i));
            }
            return Ok(i);
        }
        i = i + 1;
    }
    Err(RegistryError::Full)
}

/// What the receiver does with the sender's info block: `Lost` when the
/// sender is gone (the texture is dropped), `NotReady` while it is still
/// zero, `Bind` when the shared texture appeared or changed, else `Keep`.
#[derive(Debug, Clone, Copy, PartialEq, Eq)]
pub enum Binding {
    Lost,
    NotReady,
    Keep,
    Bind { handle: u32, width: u32, height: u32 },
}

/// The receiver's decision for an info block `[handle, width, height, format]`.
pub open spec fn binding_spec(info: Option<[u32; 4]>, bound: bool, current: u32) -> Binding {
    match info {
        None => Binding::Lost,
        Some(v) => if v@[0] == 0 || v@[1] == 0 || v@[2] == 0 {
            Binding::NotReady
        } else if !bound || v@[0] != current {
            Binding::Bind { handle: v@[0], width: v@[1], height: v@[2] }
        } else {
            Binding::Keep
        },
    }
}

/// Decide what to do with the sender's info block, given whether a texture
/// is bound and the handle it was bound from; the texture is usable after
/// `Keep` and `Bind`.
pub fn binding(info: Option<[u32; 4]>, bound: bool, current: u32) -> (r: Binding)
    ensures
        r == binding_spec(info, bound, current),
{
    match info {
        None => Binding::Lost,
        Some(v) => {
            if v[0] == 0 || v[1] == 0 || v[2] == 0 {
                Binding::NotReady
            } else if !bound || v[0] != current {
                Binding::Bind { handle: v[0], width: v[1], height: v[2] }
            } else {
                Binding::Keep
            }
        },
    }
}

/// Reads of the frame counter in the burst that seeds a baseline: one, then
/// twenty more 100 µs apart.
pub const SETTLE_READS: usize = 21;

/// The baseline for change detection from a burst of frame-counter reads (in
/// the order they were taken): the largest read, so that a concurrent Spout
/// SDK poller's transient decrement cannot seed it one below the truth;
/// `None` when a read failed (the burst stops there) or nothing was read.
pub fn settled_frame_count(reads: &[Option<i64>]) -> (r: Option<i64>)
    ensures
        r is Some <==> (reads@.len() > 0 && forall|i: int| 0 <= i < reads@.len() ==> reads@[i] is Some),
        r matches Some(m) ==> (exists|i: int| 0 <= i < reads@.len() && reads@[i] == Some(m)) && forall|i: int|
            0 <= i < reads@.len() ==> #[trigger] reads@[i]->0 <= m,
{
    if reads.len() == 0 {
        return None;
    }
    let mut best: i64 = match reads[0] {
        Some(c) => c,
        None => return None,
    };
    let mut k: usize = 1;
    while k < reads.len()
        invariant
            1 <= k <= reads@.len(),
            forall|i: int| 0 <= i < k ==> reads@[i] is Some,
            exists|i: int| 0 <= i < k && reads@[i] == Some(best),
            forall|i: int| 0 <= i < k ==> #[trigger] reads@[i]->0 <= best,
        decreases reads@.len() - k,
    {
        match reads[k] {
            Some(c) => {
                if c > best {
                    best = c;
                }
            },
            None => {
                return None;
            },
        }
        k = k + 1;
    }
    Some(best)
}

/// `--priority normal` occurs among the words of `args`.
pub open spec fn asks_normal_priority(args: Seq<Seq<char>>) -> bool {
    exists|i: int| 0 <= i && i + 1 < args.len() && #[trigger] args[i] == "--priority"@ && args[i + 1] == "normal"@
}

/// Whether the pacing thread is raised to time-critical priority, given the
/// command-line words after the program name: always, unless they hold
/// `--priority normal`. The instrument must not be preempted by the threads
/// of the pipeline it measures.
pub fn raises_priority(args: &[String]) -> (r: bool)
    ensures
        r == !asks_normal_priority(strings_of(args@)),
{
    let ghost words = strings_of(args@);
    let mut i: usize = 0;
    while i < args.len()
        invariant
            i <= args@.len(),
            words == strings_of(args@),
            forall|j: int| 0 <= j < i && j + 1 < words.len() ==> !(#[trigger] words[j] == "--priority"@ && words[j + 1] == "normal"@),
        decreases args@.len() - i,
    {
        if i + 1 < args.len() && str_eq(args[i].as_str(), "--priority") && str_eq(args[i + 1].as_str(), "normal") {
            assert(words[i as int] == "--priority"@ && words[i + 1] == "normal"@);
            return false;
        }
        i = i + 1;
    }
    true
}

/// Below this remaining time the pacer stops sleeping and spins instead.
pub const SPIN_US: i64 = 1_500;

/// One step of waiting for an instant of the microsecond clock.
#[derive(Debug, Clone, Copy, PartialEq, Eq)]
pub enum Pace {
    /// The instant has come.
    Done,
    /// Arm the waitable timer with this relative due time, in 100 ns units
    /// (negative, as the timer takes relative times), then look again.
    Sleep(i64),
    /// Too close to sleep: spin once, then look again.
    Spin,
}

/// The step for `remaining` microseconds left: the timer is armed to wake
/// 1 ms before the instant, leaving the spin to cover its jitter.
pub open spec fn pace_spec(remaining: int) -> Pace {
    if remaining <= 0 {
        Pace::Done
    } else if remaining > SPIN_US {
        Pace::Sleep((-(remaining - SPIN_US + 500) * 10) as i64)
    } else {
        Pace::Spin
    }
}

/// What the pacer does when waiting for `target_us` at `now_us`. A sleep
/// always ends before the target: its length is positive and shorter than
/// the time left.
pub fn pace(target_us: i64, now_us: i64) -> (r: Pace)
    requires
        i64::MIN <= target_us - now_us <= i64::MAX,
        target_us - now_us > SPIN_US ==> (target_us - now_us - SPIN_US + 500) * 10 <= 0x8000_0000_0000_0000,
    ensures
        r == pace_spec(target_us - now_us),
        r matches Pace::Sleep(d) ==> 0 < -d && -d < (target_us - now_us) * 10,
{
    let remaining = target_us - now_us;
    if remaining <= 0 {
        Pace::Done
    } else if remaining > SPIN_US {
        let ahead = remaining - SPIN_US + 500;
        Pace::Sleep(-ahead * 10)
    } else {
        Pace::Spin
    }
}


proof fn lemma_decode_text_lacks_comma(r: Result<u32, DecodeError>)
    ensures
        lacks(decode_text(r), ','),
{
    reveal_strlit("NoContrast");
    reveal_strlit("BadCrc");
    match r {
        Ok(id) => lemma_decimal_lacks(id as nat, ','),
        Err(_) => {},
    }
}

/// The decoded count of a report counts exactly the frames whose two bands
/// agree: a probe row ends with `,1` just when they do (a row whose bands
/// could not be copied never does), and the seventh field of an NDI probe
/// row is `1` just when they do.
pub proof fn lemma_decoded_flag_marks_agreement(
    count: u64,
    step: u64,
    t_out: i64,
    t_read: i64,
    a: Result<u32, DecodeError>,
    b: Result<u32, DecodeError>,
    t_up: i64,
    timestamp: i64,
)
    ensures
        ends_with(probe_row_spec(count, step, t_out, t_read, a, b), ",1"@) == bands_agree(a, b),
        !ends_with(probe_miss_row_spec(count, step, t_out, t_read), ",1"@),
        field_is(ndi_probe_row_spec(count, t_out, t_read, a, b, t_up, timestamp), 6, "1"@) == bands_agree(a, b),
{
    reveal_strlit("1");
    reveal_strlit("0");
    reveal_strlit(",1");
    let flag = flag_text(bands_agree(a, b));
    let fields = seq![decimal(count as nat), decimal(step as nat), signed_decimal(t_out as int),
        signed_decimal(t_read as int), decode_text(a), decode_text(b), flag];
    let row = probe_row_spec(count, step, t_out, t_read, a, b);
    assert(fields.drop_last().len() == 6);
    assert(row == joined(fields.drop_last(), ',') + seq![','] + flag);
    assert(",1"@ =~= seq![',', '1']);
    assert("1"@ =~= seq!['1']);
    assert("0"@ =~= seq!['0']);
    let tail = row.subrange(row.len() - 2, row.len() as int);
    assert(tail =~= seq![',', flag[0]]);
    if !bands_agree(a, b) {
        assert(tail[1] != ",1"@[1]);
    }
    let miss = seq![decimal(count as nat), decimal(step as nat), signed_decimal(t_out as int),
        signed_decimal(t_read as int), seq![], seq![], "0"@];
    let mrow = probe_miss_row_spec(count, step, t_out, t_read);
    assert(mrow == joined(miss.drop_last(), ',') + seq![','] + "0"@);
    assert(mrow.last() == '0');
    assert(mrow.len() >= 2);
    assert(mrow.subrange(mrow.len() - 2, mrow.len() as int)[1] == '0');
    let nfields = seq![decimal(count as nat), "1"@, signed_decimal(t_out as int),
        signed_decimal(t_read as int), decode_text(a), decode_text(b), flag,
        signed_decimal(t_up as int), signed_decimal(timestamp as int)];
    lemma_decimal_lacks(count as nat, ',');
    lemma_signed_decimal_lacks_comma(t_out as int);
    lemma_signed_decimal_lacks_comma(t_read as int);
    lemma_signed_decimal_lacks_comma(t_up as int);
    lemma_signed_decimal_lacks_comma(timestamp as int);
    lemma_decode_text_lacks_comma(a);
    lemma_decode_text_lacks_comma(b);
    assert forall|k: int| 0 <= k < nfields.len() implies lacks(#[trigger] nfields[k], ',') by {
        if k == 1 || k == 6 {
            assert(nfields[k].len() == 1);
        }
    }
    lemma_split_undoes_join(nfields, ',');
    assert(split_on(ndi_probe_row_spec(count, t_out, t_read, a, b, t_up, timestamp), ',')[6] == flag);
}


/// The generator's schedule keeps frames in order, and frame `k * fps` falls
/// exactly `k` seconds after the start.
pub proof fn lemma_schedule_in_order(start: int, n: nat, m: nat, fps: nat, k: nat)
    requires
        fps > 0,
        n <= m,
    ensures
        frame_deadline(start, n, fps) <= frame_deadline(start, m, fps),
        frame_deadline(start, k * fps, fps) == start + k * 1000000,
{
    assert(n * 1000000 <= m * 1000000) by (nonlinear_arith)
        requires
            n <= m,
    ;
    lemma_div_is_ordered((n * 1000000) as int, (m * 1000000) as int, fps as int);
    assert(k * fps * 1000000 == (k * 1000000) * fps) by (nonlinear_arith);
    lemma_fundamental_div_mod_converse((k * fps * 1000000) as int, fps as int, (k * 1000000) as int, 0);
}

} // verus!
