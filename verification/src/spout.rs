//! The Spout sender registry, read from the two shared-memory blocks the
//! Spout SDK keeps: `SpoutSenderNames`, fixed 256-byte null-terminated name
//! slots, and `ActiveSenderName`, the sender Spout considers active.

use vstd::prelude::*;

verus! {

/// Bytes per name slot.
pub const NAME_LEN: usize = 256;
/// Most slots read, whatever the block claims (guards a bogus region size).
pub const MAX_SENDERS: usize = 64;

/// Snapshot of the Spout sender registry at one instant.
#[derive(Debug)]
pub struct SpoutSenders {
    /// All active sender names, in slot order.
    pub names: Vec<String>,
    /// The sender Spout considers active, if any.
    pub active: Option<String>,
}

impl Default for SpoutSenders {
    fn default() -> (r: SpoutSenders)
        ensures
            r.names@.len() == 0,
            r.active is None,
    {
        SpoutSenders { names: Vec::new(), active: None }
    }
}

/// The text `String::from_utf8_lossy` makes of `bytes`.
pub uninterp spec fn lossy_text(bytes: Seq<u8>) -> Seq<char>;

/// `String::from_utf8_lossy`: the text of `bytes`, each invalid sequence
/// replaced by U+FFFD; exactly the decoded text when `bytes` is valid UTF-8.
#[verifier::external_body]
pub(crate) fn utf8_lossy(bytes: &[u8]) -> (r: String)
    ensures
        r@ == lossy_text(bytes@),
        vstd::utf8::valid_utf8(bytes@) ==> r@ == vstd::utf8::decode_utf8(bytes@),
{
    String::from_utf8_lossy(bytes).into_owned()
}

/// How many bytes from `s` (at most `n`) come before the first zero.
pub open spec fn cstr_len(b: Seq<u8>, s: int, n: int) -> int
    decreases n,
{
    if n <= 0 || s < 0 || s >= b.len() {
        0
    } else if b[s] == 0 {
        0
    } else {
        1 + cstr_len(b, s + 1, n - 1)
    }
}

proof fn lemma_cstr_len_bounds(b: Seq<u8>, s: int, n: int)
    ensures
        0 <= cstr_len(b, s, n),
        n >= 0 ==> cstr_len(b, s, n) <= n,
        0 <= s <= b.len() ==> s + cstr_len(b, s, n) <= b.len(),
    decreases n,
{
    if n > 0 && 0 <= s < b.len() && b[s] != 0 {
        lemma_cstr_len_bounds(b, s + 1, n - 1);
    }
}

/// The null-terminated string of at most `n` bytes from `s`.
pub open spec fn cstr_at(b: Seq<u8>, s: int, n: int) -> Seq<char> {
    lossy_text(b.subrange(s, s + cstr_len(b, s, n)))
}

/// Read the null-terminated string of at most `max` bytes from `start`.
pub fn read_cstr(block: &[u8], start: usize, max: usize) -> (r: String)
    requires
        start <= block@.len(),
    ensures
        r@ == cstr_at(block@, start as int, max as int),
{
    let mut len: usize = 0;
    let n = block.len();
    proof {
        lemma_cstr_len_bounds(block@, start as int, max as int);
    }
    while len < max && start + len < n && block[start + len] != 0
        invariant
            n == block@.len(),
            start <= block@.len(),
            len <= max,
            start + len <= block@.len(),
            cstr_len(block@, start as int, max as int) == len + cstr_len(block@, start + len, max - len),
        decreases max - len,
    {
        len = len + 1;
    }
    proof {
        if len < max && start + len < n {
            assert(block@[start + len] == 0);
        }
        assert(cstr_len(block@, start + len, max - len) == 0);
    }
    let bytes = slice_range(block, start, start + len);
    utf8_lossy(bytes.as_slice())
}

/// A copy of `b[from..to]`.
fn slice_range(b: &[u8], from: usize, to: usize) -> (r: Vec<u8>)
    requires
        from <= to <= b@.len(),
    ensures
        r@ == b@.subrange(from as int, to as int),
{
    let mut out: Vec<u8> = Vec::new();
    let mut i = from;
    while i < to
        invariant
            from <= i <= to <= b@.len(),
            out@ == b@.subrange(from as int, i as int),
        decreases to - i,
    {
        out.push(b[i]);
        i = i + 1;
    }
    out
}

/// How many slots a names block of `len` bytes holds, capped.
pub open spec fn slot_count(len: nat) -> nat {
    if len / (NAME_LEN as nat) < MAX_SENDERS as nat { len / (NAME_LEN as nat) } else { MAX_SENDERS as nat }
}

/// The names in the first `k` slots of `b`, empty slots skipped.
pub open spec fn slot_names(b: Seq<u8>, k: nat) -> Seq<Seq<char>>
    decreases k,
{
    if k == 0 {
        seq![]
    } else {
        let prev = slot_names(b, (k - 1) as nat);
        let s = (k - 1) * NAME_LEN as int;
        if b[s] == 0 { prev } else { prev.push(cstr_at(b, s, NAME_LEN as int)) }
    }
}

/// The sender names of a `SpoutSenderNames` block, in slot order.
pub fn sender_names(block: &[u8]) -> (r: Vec<String>)
    ensures
        crate::text::strings_of(r@) == slot_names(block@, slot_count(block@.len())),
{
    let per = block.len() / NAME_LEN;
    let nslots = if per < MAX_SENDERS { per } else { MAX_SENDERS };
    let mut out: Vec<String> = Vec::new();
    let mut i: usize = 0;
    while i < nslots
        invariant
            nslots == slot_count(block@.len()),
            nslots * NAME_LEN <= block@.len(),
            i <= nslots,
            crate::text::strings_of(out@) == slot_names(block@, i as nat),
        decreases nslots - i,
    {
        let slot = i * NAME_LEN;
        if block[slot] != 0 {
            let ghost prev = out@;
            out.push(read_cstr(block, slot, NAME_LEN));
            assert(crate::text::strings_of(out@) =~= crate::text::strings_of(prev).push(
                cstr_at(block@, slot as int, NAME_LEN as int),
            ));
        }
        i = i + 1;
    }
    out
}

/// The active sender named by an `ActiveSenderName` block: none when the
/// block is absent or holds an empty name.
pub open spec fn active_from(block: Option<Seq<u8>>) -> Option<Seq<char>> {
    match block {
        Some(b) => if cstr_at(b, 0, NAME_LEN as int).len() > 0 { Some(cstr_at(b, 0, NAME_LEN as int)) } else { None },
        None => None,
    }
}

/// The view of an optional byte block.
pub open spec fn opt_bytes(v: Option<&[u8]>) -> Option<Seq<u8>> {
    match v {
        Some(b) => Some(b@),
        None => None,
    }
}

/// The current set of Spout senders, read from the `SpoutSenderNames` and
/// `ActiveSenderName` blocks as mapped; a block is `None` when it does not
/// exist, as when no Spout application ever ran, and both absent give the
/// empty snapshot.
pub fn list_senders(names: Option<&[u8]>, active: Option<&[u8]>) -> (r: SpoutSenders)
    ensures
        crate::text::strings_of(r.names@) == match names {
            Some(b) => slot_names(b@, slot_count(b@.len())),
            None => Seq::<Seq<char>>::empty(),
        },
        crate::ops::opt_string(r.active) == active_from(opt_bytes(active)),
{
    let list = match names {
        Some(b) => sender_names(b),
        None => {
            let v: Vec<String> = Vec::new();
            assert(crate::text::strings_of(v@) =~= Seq::<Seq<char>>::empty());
            v
        },
    };
    let current = match active {
        Some(b) => {
            let name = read_cstr(b, 0, NAME_LEN);
            if name.as_str().unicode_len() > 0 { Some(name) } else { None }
        },
        None => None,
    };
    SpoutSenders { names: list, active: current }
}

} // verus!
