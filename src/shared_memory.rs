//! Validated, bounds-checked access to the overlay server's shared memory.
//!
//! The segment is handed in as the bytes of the mapped region. Every offset
//! and size that the header declares is checked against the region's length
//! before any byte it names is read or written.
use crate::bindings::{
    le_u32, read_u32, HEADER_SIZE, OSD_ARR_OFFSET_OFFSET, OSD_ARR_SIZE_OFFSET, OSD_ENTRY_SIZE,
    OSD_ENTRY_SIZE_OFFSET, OSD_EX_LEN, OSD_EX_OFFSET, OSD_OWNER_LEN, OSD_OWNER_OFFSET,
    VERSION_OFFSET,
};
use crate::rtss::Error;
use crate::text::{decimal, push_decimal};
use vstd::prelude::*;
use vstd::string::StringExecFns;
use vstd::utf8::encode_utf8;

verus! {

/// Versions below v2.14 do not support OSD locking.
pub const RTSS_MIN_SUPPORTED_VERSION: u32 = 0x0002000e;

/// The mark that this application writes into the owner field of its slot:
/// the ASCII bytes of "LilPowerMan".
pub open spec fn owner_mark() -> Seq<u8> {
    seq![76u8, 105u8, 108u8, 80u8, 111u8, 119u8, 101u8, 114u8, 77u8, 97u8, 110u8]
}

fn owner_signature() -> (r: Vec<u8>)
    ensures
        r@ == owner_mark(),
{
    let r = vec![76u8, 105u8, 108u8, 80u8, 111u8, 119u8, 101u8, 114u8, 77u8, 97u8, 110u8];
    assert(r@ =~= owner_mark());
    r
}

/// The first four bytes equal `RTSS_SIGNATURE`.
pub open spec fn signature_ok(s: Seq<u8>) -> bool {
    s[0] == 83 && s[1] == 83 && s[2] == 84 && s[3] == 82
}

/// The version that the header declares.
pub open spec fn version_of(s: Seq<u8>) -> int {
    le_u32(s, VERSION_OFFSET as int)
}

/// A region that may be used: it holds a whole header, with the right
/// signature and a supported version.
pub open spec fn is_valid_segment(s: Seq<u8>) -> bool {
    &&& s.len() >= HEADER_SIZE
    &&& signature_ok(s)
    &&& version_of(s) >= RTSS_MIN_SUPPORTED_VERSION
}

/// `e` is the error for a region that fails validation: a layout error
/// where the header does not fit, not running where the signature does not
/// match, else the unsupported version as `major.minor`.
pub open spec fn is_validation_error(s: Seq<u8>, e: Error) -> bool {
    if s.len() < HEADER_SIZE {
        e == Error::UnexpectedMemoryLayout
    } else if !signature_ok(s) {
        e == Error::RtssV2NotRunning
    } else {
        e matches Error::RtssVersionNotSupported(v) && v@ == version_text(version_of(s) as nat)
    }
}

/// A version as `major.minor`, both in decimal.
pub open spec fn version_text(v: nat) -> Seq<char> {
    decimal(v / 65536) + seq!['.'] + decimal(v % 65536)
}

/// Renders a version as `major.minor`.
pub fn format_version(v: u32) -> (r: String)
    ensures
        r@ == version_text(v as nat),
{
    let mut r = String::new();
    push_decimal(&mut r, (v / 65536) as u64);
    proof { reveal_strlit("."); }
    r.append(".");
    push_decimal(&mut r, (v % 65536) as u64);
    r
}

/// `field` holds the NUL-terminated string `t`: the bytes of `t`, none of
/// them NUL, followed by a NUL unless `t` fills the field.
pub open spec fn holds_c_string(field: Seq<u8>, t: Seq<u8>) -> bool {
    &&& t.len() <= field.len()
    &&& field.subrange(0, t.len() as int) == t
    &&& forall|j: int| 0 <= j < t.len() ==> t[j] != 0
    &&& (t.len() == field.len() || field[t.len() as int] == 0)
}

/// Whether the `len` bytes of `mem` at `at` hold the NUL-terminated string `t`.
fn field_holds(mem: &[u8], at: usize, len: usize, t: &[u8]) -> (r: bool)
    requires
        at + len <= mem@.len(),
    ensures
        r == holds_c_string(mem@.subrange(at as int, at + len), t@),
{
    let ghost field = mem@.subrange(at as int, at + len);
    let mlen = mem.len();
    if t.len() > len {
        return false;
    }
    let mut j: usize = 0;
    while j < t.len()
        invariant
            t@.len() <= len,
            at + len <= mem@.len(),
            mlen == mem@.len(),
            field == mem@.subrange(at as int, at + len),
            0 <= j <= t@.len(),
            forall|k: int| 0 <= k < j ==> #[trigger] t@[k] != 0u8,
            forall|k: int| 0 <= k < j ==> #[trigger] field[k] == t@[k],
        decreases t@.len() - j,
    {
        if t[j] == 0 || mem[at + j] != t[j] {
            assert(!holds_c_string(field, t@)) by {
                if t@[j as int] != 0 {
                    assert(field.subrange(0, t@.len() as int)[j as int] == field[j as int]);
                }
            }
            return false;
        }
        assert(field[j as int] == mem@[at + j]);
        assert(t@[j as int] != 0 && field[j as int] == t@[j as int]);
        j = j + 1;
    }
    assert(field.subrange(0, t@.len() as int) =~= t@);
    t.len() == len || mem[at + t.len()] == 0
}

/// The bytes of `s` after the string `b` was stored in the `cap` bytes at
/// `at`: as much of `b` as fits, then a NUL if room is left; the other bytes
/// keep their value.
pub open spec fn store_c_string(s: Seq<u8>, at: int, cap: int, b: Seq<u8>) -> Seq<u8> {
    let l = if b.len() < cap { b.len() as int } else { cap };
    Seq::new(
        s.len(),
        |k: int|
            if at <= k < at + l {
                b[k - at]
            } else if l < cap && k == at + l {
                0u8
            } else {
                s[k]
            },
    )
}

/// Copies `b` into the `cap` bytes of `mem` at `at`, truncating to `cap`
/// bytes, and NUL-terminates it when room is left. Returns whether the whole
/// string and its terminator fitted.
pub fn string_to_mem(b: &[u8], mem: &mut [u8], at: usize, cap: usize) -> (fits: bool)
    requires
        at + cap <= old(mem)@.len(),
    ensures
        fits == (b@.len() < cap),
        final(mem)@ == store_c_string(old(mem)@, at as int, cap as int, b@),
{
    let ghost s = mem@;
    let mlen = mem.len();
    let len: usize = if b.len() < cap { b.len() } else { cap };
    let mut j: usize = 0;
    while j < len
        invariant
            len <= cap,
            len <= b@.len(),
            at + cap <= s.len(),
            mem@.len() == s.len(),
            mlen == s.len(),
            0 <= j <= len,
            forall|k: int| 0 <= k < s.len() ==> mem@[k] == (if at <= k < at + j { b@[k - at] } else { s[k] }),
        decreases len - j,
    {
        mem[at + j] = b[j];
        j = j + 1;
    }
    if len < cap {
        mem[at + len] = 0;
    }
    assert(mem@ =~= store_c_string(s, at as int, cap as int, b@));
    b.len() < cap
}

/// A mapped region whose header was found valid.
pub struct SharedMemoryView {
    size: usize,
}

impl SharedMemoryView {
    #[verifier::type_invariant]
    spec fn inv(&self) -> bool {
        self.size >= HEADER_SIZE
    }

    /// The length of the region that was validated.
    pub closed spec fn size(&self) -> nat {
        self.size as nat
    }

    /// The length of the region that was validated.
    pub fn region_len(&self) -> (r: usize)
        ensures
            r == self.size(),
    {
        self.size
    }

    /// Validates the header at the start of the mapped region `mem`: the
    /// region must hold a whole header, the signature must match, and the
    /// version must be supported. Reads nothing past the header.
    pub fn from_region(mem: &[u8]) -> (r: Result<SharedMemoryView, Error>)
        ensures
            r is Ok <==> is_valid_segment(mem@),
            r matches Ok(v) ==> v.size() == mem@.len(),
            r matches Err(e) ==> is_validation_error(mem@, e),
    {
        if mem.len() < HEADER_SIZE {
            return Err(Error::UnexpectedMemoryLayout);
        }
        if !(mem[0] == 83 && mem[1] == 83 && mem[2] == 84 && mem[3] == 82) {
            return Err(Error::RtssV2NotRunning);
        }
        let version = read_u32(mem, VERSION_OFFSET);
        if version < RTSS_MIN_SUPPORTED_VERSION {
            return Err(Error::RtssVersionNotSupported(format_version(version)));
        }
        Ok(SharedMemoryView { size: mem.len() })
    }
}

/// The size of one slot, as the header declares it.
pub open spec fn entry_size(s: Seq<u8>) -> int {
    le_u32(s, OSD_ENTRY_SIZE_OFFSET as int)
}

/// The offset of slot 0, as the header declares it.
pub open spec fn arr_offset(s: Seq<u8>) -> int {
    le_u32(s, OSD_ARR_OFFSET_OFFSET as int)
}

/// The number of slots, as the header declares it.
pub open spec fn slot_count(s: Seq<u8>) -> int {
    le_u32(s, OSD_ARR_SIZE_OFFSET as int)
}

/// Where slot `i` starts.
pub open spec fn slot_start(s: Seq<u8>, i: int) -> int {
    arr_offset(s) + i * entry_size(s)
}

/// Slot `i` lies entirely within the region.
pub open spec fn slot_in_bounds(s: Seq<u8>, i: int) -> bool {
    slot_start(s, i) + entry_size(s) <= s.len()
}

/// Every slot that is ever used (all but slot 0) lies within the region.
pub open spec fn all_slots_in_bounds(s: Seq<u8>) -> bool {
    forall|i: int| 1 <= i < slot_count(s) ==> #[trigger] slot_in_bounds(s, i)
}

/// The owner field of slot `i`.
pub open spec fn owner_field(s: Seq<u8>, i: int) -> Seq<u8> {
    s.subrange(
        slot_start(s, i) + OSD_OWNER_OFFSET,
        slot_start(s, i) + OSD_OWNER_OFFSET + OSD_OWNER_LEN,
    )
}

/// Slot `i` carries this application's mark.
pub open spec fn owned_by_us(s: Seq<u8>, i: int) -> bool {
    holds_c_string(owner_field(s, i), owner_mark())
}

/// Slot `i` has no owner.
pub open spec fn slot_empty(s: Seq<u8>, i: int) -> bool {
    s[slot_start(s, i) + OSD_OWNER_OFFSET] == 0
}

/// The slot that the claim scan settles on, from slot `i` on, where
/// `fallback` is the first empty slot seen before `i`. Each slot is checked
/// against the region before it is looked at; the first slot that we own
/// wins, else the first empty one.
pub open spec fn claim_from(s: Seq<u8>, i: int, fallback: Option<int>) -> Result<int, Error>
    decreases slot_count(s) - i,
{
    if i >= slot_count(s) {
        match fallback {
            Some(j) => Ok(j),
            None => Err(Error::NoEmptyOsdSlots),
        }
    } else if !slot_in_bounds(s, i) {
        Err(Error::UnexpectedMemoryLayout)
    } else if owned_by_us(s, i) {
        Ok(i)
    } else if slot_empty(s, i) && fallback is None {
        claim_from(s, i + 1, Some(i))
    } else {
        claim_from(s, i + 1, fallback)
    }
}

/// The checks made once the segment is locked, before any slot is read:
/// the signature may have changed since validation, and a slot must be at
/// least as large as this protocol's slot layout.
pub open spec fn locked_header_error(s: Seq<u8>) -> Option<Error> {
    if !signature_ok(s) {
        Some(Error::RtssV2NotRunning)
    } else if entry_size(s) < OSD_ENTRY_SIZE {
        Some(Error::UnexpectedMemoryLayout)
    } else {
        None
    }
}

/// The slot that a write goes to: the first slot from index 1 on that we
/// already own, else the first empty one.
pub open spec fn claim_slot(s: Seq<u8>) -> Result<int, Error> {
    match locked_header_error(s) {
        Some(e) => Err(e),
        None => claim_from(s, 1, None),
    }
}

/// The header fields that the scan uses, checked under the lock.
struct SlotTable {
    offset: u64,
    entry_size: u64,
    count: u64,
}

fn read_slot_table(mem: &[u8]) -> (r: Result<SlotTable, Error>)
    requires
        mem@.len() >= HEADER_SIZE,
    ensures
        match r {
            Ok(t) => locked_header_error(mem@) is None && t.offset == arr_offset(mem@)
                && t.entry_size == entry_size(mem@) && t.count == slot_count(mem@),
            Err(e) => locked_header_error(mem@) == Some(e),
        },
{
    if !(mem[0] == 83 && mem[1] == 83 && mem[2] == 84 && mem[3] == 82) {
        return Err(Error::RtssV2NotRunning);
    }
    let entry_size = read_u32(mem, OSD_ENTRY_SIZE_OFFSET) as u64;
    if entry_size < OSD_ENTRY_SIZE as u64 {
        return Err(Error::UnexpectedMemoryLayout);
    }
    Ok(SlotTable {
        offset: read_u32(mem, OSD_ARR_OFFSET_OFFSET) as u64,
        entry_size,
        count: read_u32(mem, OSD_ARR_SIZE_OFFSET) as u64,
    })
}

/// Where slot `i` starts and whether it lies within `mem`, computed without
/// overflow from the header's 32-bit fields.
fn slot_bounds(t: &SlotTable, i: u64, len: usize) -> (r: (u64, bool))
    requires
        t.offset < 0x1_0000_0000,
        t.entry_size < 0x1_0000_0000,
        i < 0x1_0000_0000,
    ensures
        r.0 == t.offset + i * t.entry_size,
        r.1 == (t.offset + i * t.entry_size + t.entry_size <= len),
{
    assert(i * t.entry_size <= 0xFFFF_FFFF * 0xFFFF_FFFF) by (nonlinear_arith)
        requires
            i < 0x1_0000_0000,
            t.entry_size < 0x1_0000_0000,
    ;
    let start = t.offset + i * t.entry_size;
    (start, start + t.entry_size <= len as u64)
}

/// Finds the slot to write to (see `claim_slot`): its index and where it
/// starts.
fn find_slot(mem: &[u8]) -> (r: Result<(usize, usize), Error>)
    requires
        mem@.len() >= HEADER_SIZE,
    ensures
        match r {
            Ok((i, start)) => claim_slot(mem@) == Ok::<int, Error>(i as int) && start
                == slot_start(mem@, i as int),
            Err(e) => claim_slot(mem@) == Err::<int, Error>(e),
        },
{
    let t = read_slot_table(mem)?;
    let mark = owner_signature();
    let mut remembered: Option<(usize, usize)> = None;
    let mut i: u64 = 1;
    while i < t.count
        invariant
            locked_header_error(mem@) is None,
            t.offset == arr_offset(mem@),
            t.entry_size == entry_size(mem@),
            t.count == slot_count(mem@),
            t.offset < 0x1_0000_0000,
            t.entry_size < 0x1_0000_0000,
            t.count < 0x1_0000_0000,
            1 <= i,
            mark@ == owner_mark(),
            match remembered {
                Some((j, start)) => claim_from(mem@, 1, None) == claim_from(
                    mem@,
                    i as int,
                    Some(j as int),
                ) && start == slot_start(mem@, j as int),
                None => claim_from(mem@, 1, None) == claim_from(mem@, i as int, None),
            },
        decreases t.count - i,
    {
        let (start, in_bounds) = slot_bounds(&t, i, mem.len());
        if !in_bounds {
            return Err(Error::UnexpectedMemoryLayout);
        }
        let owner_at = start as usize + OSD_OWNER_OFFSET;
        if field_holds(mem, owner_at, OSD_OWNER_LEN, mark.as_slice()) {
            return Ok((i as usize, start as usize));
        }
        if mem[owner_at] == 0 && remembered.is_none() {
            remembered = Some((i as usize, start as usize));
        }
        i = i + 1;
    }
    match remembered {
        Some(found) => Ok(found),
        None => Err(Error::NoEmptyOsdSlots),
    }
}

/// A slot that the claim scan settles on lies within the region.
proof fn lemma_claim_in_bounds(s: Seq<u8>, i: int, fallback: Option<int>)
    requires
        1 <= i,
        fallback matches Some(f) ==> 1 <= f < slot_count(s) && slot_in_bounds(s, f),
    ensures
        claim_from(s, i, fallback) matches Ok(j) ==> 1 <= j < slot_count(s) && slot_in_bounds(
            s,
            j,
        ),
    decreases slot_count(s) - i,
{
    if i < slot_count(s) && slot_in_bounds(s, i) && !owned_by_us(s, i) {
        if slot_empty(s, i) && fallback is None {
            lemma_claim_in_bounds(s, i + 1, Some(i));
        } else {
            lemma_claim_in_bounds(s, i + 1, fallback);
        }
    }
}

/// The region after our mark went into the owner field of slot `i` and
/// `text` into its extended text field.
pub open spec fn publish(s: Seq<u8>, i: int, text: Seq<u8>) -> Seq<u8> {
    let owned = store_c_string(
        s,
        slot_start(s, i) + OSD_OWNER_OFFSET,
        OSD_OWNER_LEN as int,
        owner_mark(),
    );
    store_c_string(owned, slot_start(s, i) + OSD_EX_OFFSET, OSD_EX_LEN as int, text)
}

/// What a write of `text` returns once slot `i` was found: the text and its
/// terminator must fit the extended text field.
pub open spec fn publish_result(text: Seq<u8>) -> Result<(), Error> {
    if text.len() < OSD_EX_LEN {
        Ok(())
    } else {
        Err(Error::EntryOverflow)
    }
}

/// What a write of `text` returns: the claim scan's error, else whether the
/// text fitted.
pub open spec fn write_result(s: Seq<u8>, text: Seq<u8>) -> Result<(), Error> {
    match claim_slot(s) {
        Err(e) => Err(e),
        Ok(_) => publish_result(text),
    }
}

/// The region after a write of `text`: unchanged where no slot was found.
pub open spec fn write_region(s: Seq<u8>, text: Seq<u8>) -> Seq<u8> {
    match claim_slot(s) {
        Err(_) => s,
        Ok(i) => publish(s, i, text),
    }
}

/// Composes the text of one OSD slot.
pub struct SharedMemoryBuilder {
    osd: String,
}

impl SharedMemoryBuilder {
    /// The text composed so far.
    pub closed spec fn text(&self) -> Seq<char> {
        self.osd@
    }

    pub fn new() -> (r: SharedMemoryBuilder)
        ensures
            r.text() == Seq::<char>::empty(),
    {
        SharedMemoryBuilder { osd: String::new() }
    }

    /// Appends `text` verbatim; markup in it reaches the server unchanged.
    pub fn add_text(&mut self, text: &str) -> (r: &mut SharedMemoryBuilder)
        ensures
            r.text() == old(self).text() + text@,
            *final(self) == *final(r),
    {
        self.osd.append(text);
        self
    }

    /// Appends a line break.
    pub fn add_newline(&mut self) -> (r: &mut SharedMemoryBuilder)
        ensures
            r.text() == old(self).text() + "\r\n"@,
            *final(self) == *final(r),
    {
        self.add_text("\r\n")
    }

    /// Writes the composed text into the slot that the claim scan picks, and
    /// marks the slot as ours. The caller holds the segment's busy flag.
    /// Where the text does not fit, it is stored truncated and terminated,
    /// and `EntryOverflow` is returned.
    pub fn write(&self, view: &SharedMemoryView, mem: &mut [u8]) -> (r: Result<(), Error>)
        requires
            old(mem)@.len() == view.size(),
        ensures
            r == write_result(old(mem)@, encode_utf8(self.text())),
            final(mem)@ == write_region(old(mem)@, encode_utf8(self.text())),
    {
        proof {
            use_type_invariant(view);
        }
        let (_, start) = find_slot(mem)?;
        proof {
            lemma_claim_in_bounds(mem@, 1, None);
        }
        let mark = owner_signature();
        let owner_fits = string_to_mem(
            mark.as_slice(),
            mem,
            start + OSD_OWNER_OFFSET,
            OSD_OWNER_LEN,
        );
        let text = self.osd.as_str().as_bytes();
        let text_fits = string_to_mem(text, mem, start + OSD_EX_OFFSET, OSD_EX_LEN);
        if !owner_fits || !text_fits {
            Err(Error::EntryOverflow)
        } else {
            Ok(())
        }
    }
}

/// Slot `i` is cleared when we release our slots: it is in use, lies within
/// the region, and carries our mark.
pub open spec fn released_slot(s: Seq<u8>, i: int) -> bool {
    1 <= i < slot_count(s) && slot_in_bounds(s, i) && owned_by_us(s, i)
}

/// Byte `k` lies in a slot below `bound` that is cleared on release.
pub open spec fn cleared_below(s: Seq<u8>, k: int, bound: int) -> bool {
    exists|i: int|
        #![trigger released_slot(s, i), slot_start(s, i)]
        i < bound && released_slot(s, i) && slot_start(s, i) <= k < slot_start(s, i)
            + OSD_ENTRY_SIZE
}

/// The region after the release scan: every slot that carried our mark is
/// zeroed over the whole slot layout, all other bytes keep their value.
pub open spec fn release(s: Seq<u8>) -> Seq<u8> {
    Seq::new(s.len(), |k: int| if cleared_below(s, k, slot_count(s)) { 0u8 } else { s[k] })
}

/// What the release scan returns: an error of the locked header checks, a
/// layout error where some slot lies outside the region, else success.
pub open spec fn unregister_result(s: Seq<u8>) -> Result<(), Error> {
    match locked_header_error(s) {
        Some(e) => Err(e),
        None => if all_slots_in_bounds(s) {
            Ok(())
        } else {
            Err(Error::UnexpectedMemoryLayout)
        },
    }
}

/// The region after the release scan: released where the scan succeeds,
/// unchanged where it fails, so a layout error leaves no partial write.
pub open spec fn unregister_region(s: Seq<u8>) -> Seq<u8> {
    match unregister_result(s) {
        Ok(()) => release(s),
        Err(_) => s,
    }
}

/// Slots follow one another without overlap: slot `j` ends where slot `i`
/// starts at the latest.
proof fn lemma_slot_order(s: Seq<u8>, j: int, i: int)
    requires
        j < i,
        entry_size(s) >= 0,
    ensures
        slot_start(s, j) + entry_size(s) <= slot_start(s, i),
{
    let e = entry_size(s);
    assert(j * e + e <= i * e) by (nonlinear_arith)
        requires
            j < i,
            e >= 0,
    ;
}

/// Zeroes the `len` bytes of `mem` at `at`.
fn clear_range(mem: &mut [u8], at: usize, len: usize)
    requires
        at + len <= old(mem)@.len(),
    ensures
        final(mem)@.len() == old(mem)@.len(),
        forall|k: int|
            0 <= k < old(mem)@.len() ==> #[trigger] final(mem)@[k] == (if at <= k < at + len {
                0u8
            } else {
                old(mem)@[k]
            }),
{
    let ghost s = mem@;
    let mlen = mem.len();
    let mut j: usize = 0;
    while j < len
        invariant
            at + len <= s.len(),
            mem@.len() == s.len(),
            mlen == s.len(),
            0 <= j <= len,
            forall|k: int|
                0 <= k < s.len() ==> #[trigger] mem@[k] == (if at <= k < at + j {
                    0u8
                } else {
                    s[k]
                }),
        decreases len - j,
    {
        mem[at + j] = 0;
        j = j + 1;
    }
}

/// Adding slot `i` to the scanned slots adds its bytes to the cleared ones
/// exactly when it is released.
proof fn lemma_cleared_step(s: Seq<u8>, k: int, i: int)
    ensures
        cleared_below(s, k, i + 1) == (cleared_below(s, k, i) || (released_slot(s, i)
            && slot_start(s, i) <= k < slot_start(s, i) + OSD_ENTRY_SIZE)),
{
    if cleared_below(s, k, i + 1) && !cleared_below(s, k, i) {
        let j = choose|j: int|
            #![trigger released_slot(s, j), slot_start(s, j)]
            j < i + 1 && released_slot(s, j) && slot_start(s, j) <= k < slot_start(s, j)
                + OSD_ENTRY_SIZE;
        assert(j == i);
    }
    if cleared_below(s, k, i) {
        let j = choose|j: int|
            #![trigger released_slot(s, j), slot_start(s, j)]
            j < i && released_slot(s, j) && slot_start(s, j) <= k < slot_start(s, j)
                + OSD_ENTRY_SIZE;
        assert(cleared_below(s, k, i + 1));
    }
    if released_slot(s, i) && slot_start(s, i) <= k < slot_start(s, i) + OSD_ENTRY_SIZE {
        assert(cleared_below(s, k, i + 1));
    }
}

/// No byte of slot `i` or after it lies in a cleared slot below `i`.
proof fn lemma_not_cleared_from(s: Seq<u8>, k: int, i: int)
    requires
        entry_size(s) >= OSD_ENTRY_SIZE,
        slot_start(s, i) <= k,
    ensures
        !cleared_below(s, k, i),
{
    if cleared_below(s, k, i) {
        let j = choose|j: int|
            #![trigger released_slot(s, j), slot_start(s, j)]
            j < i && released_slot(s, j) && slot_start(s, j) <= k < slot_start(s, j)
                + OSD_ENTRY_SIZE;
        lemma_slot_order(s, j, i);
    }
}

/// Once every slot was scanned, the cleared bytes are those of `release`.
proof fn lemma_cleared_all(s: Seq<u8>, k: int, i: int)
    requires
        i >= slot_count(s),
    ensures
        cleared_below(s, k, i) == cleared_below(s, k, slot_count(s)),
{
    if cleared_below(s, k, i) {
        let j = choose|j: int|
            #![trigger released_slot(s, j), slot_start(s, j)]
            j < i && released_slot(s, j) && slot_start(s, j) <= k < slot_start(s, j)
                + OSD_ENTRY_SIZE;
        assert(cleared_below(s, k, slot_count(s)));
    }
    if cleared_below(s, k, slot_count(s)) {
        let j = choose|j: int|
            #![trigger released_slot(s, j), slot_start(s, j)]
            j < slot_count(s) && released_slot(s, j) && slot_start(s, j) <= k < slot_start(s, j)
                + OSD_ENTRY_SIZE;
        assert(cleared_below(s, k, i));
    }
}

impl SharedMemoryView {
    /// Releases every slot that carries our mark by zeroing it. The scan
    /// does not stop at the first such slot, so duplicates are cleared too.
    /// Every declared slot is checked against the region before any byte is
    /// written: on a layout error the region is left as it was. The caller
    /// holds the segment's busy flag.
    pub fn unregister(&self, mem: &mut [u8]) -> (r: Result<(), Error>)
        requires
            old(mem)@.len() == self.size(),
        ensures
            r == unregister_result(old(mem)@),
            final(mem)@ == unregister_region(old(mem)@),
    {
        proof {
            use_type_invariant(self);
        }
        let ghost s = mem@;
        let t = read_slot_table(mem)?;
        if t.count > 1 {
            // slots start further on as the index grows: the last one decides
            let (_, last_in_bounds) = slot_bounds(&t, t.count - 1, mem.len());
            if !last_in_bounds {
                assert(!slot_in_bounds(s, slot_count(s) - 1));
                return Err(Error::UnexpectedMemoryLayout);
            }
        }
        assert forall|j: int| 1 <= j < slot_count(s) implies #[trigger] slot_in_bounds(s, j) by {
            if j < slot_count(s) - 1 {
                lemma_slot_order(s, j, slot_count(s) - 1);
                lemma_slot_order(s, slot_count(s) - 2, slot_count(s) - 1);
            }
        }
        let mark = owner_signature();
        let mut i: u64 = 1;
        while i < t.count
            invariant
                s == old(mem)@,
                locked_header_error(s) is None,
                all_slots_in_bounds(s),
                t.offset == arr_offset(s),
                t.entry_size == entry_size(s),
                t.count == slot_count(s),
                t.offset < 0x1_0000_0000,
                t.entry_size < 0x1_0000_0000,
                t.count < 0x1_0000_0000,
                1 <= i,
                mark@ == owner_mark(),
                mem@.len() == s.len(),
                forall|k: int|
                    0 <= k < s.len() ==> #[trigger] mem@[k] == (if cleared_below(s, k, i as int) {
                        0u8
                    } else {
                        s[k]
                    }),
            decreases t.count - i,
        {
            let (start, in_bounds) = slot_bounds(&t, i, mem.len());
            assert(slot_in_bounds(s, i as int));
            let owner_at = start as usize + OSD_OWNER_OFFSET;
            assert forall|k: int| start <= k < start + t.entry_size implies mem@[k] == s[k] by {
                lemma_not_cleared_from(s, k, i as int);
            }
            assert(mem@.subrange(owner_at as int, owner_at + OSD_OWNER_LEN) =~= owner_field(
                s,
                i as int,
            ));
            let owned = field_holds(mem, owner_at, OSD_OWNER_LEN, mark.as_slice());
            if owned {
                clear_range(mem, start as usize, OSD_ENTRY_SIZE);
            }
            assert forall|k: int| 0 <= k < s.len() implies #[trigger] mem@[k] == (if cleared_below(
                s,
                k,
                i + 1,
            ) {
                0u8
            } else {
                s[k]
            }) by {
                lemma_cleared_step(s, k, i as int);
                if start <= k {
                    lemma_not_cleared_from(s, k, i as int);
                }
            }
            i = i + 1;
        }
        assert forall|k: int| 0 <= k < s.len() implies cleared_below(s, k, i as int)
            == cleared_below(s, k, slot_count(s)) by {
            lemma_cleared_all(s, k, i as int);
        }
        assert(mem@ =~= release(s));
        Ok(())
    }
}

/// Validation looks at the header alone: two regions of the same length
/// whose first `HEADER_SIZE` bytes agree are accepted or refused alike, with
/// the same version, whatever their slots hold.
pub proof fn lemma_validation_reads_header_only(s1: Seq<u8>, s2: Seq<u8>)
    requires
        s1.len() == s2.len(),
        s1.len() >= HEADER_SIZE,
        s1.subrange(0, HEADER_SIZE as int) == s2.subrange(0, HEADER_SIZE as int),
    ensures
        is_valid_segment(s1) == is_valid_segment(s2),
        signature_ok(s1) == signature_ok(s2),
        version_of(s1) == version_of(s2),
{
    assert forall|k: int| 0 <= k < HEADER_SIZE implies s1[k] == s2[k] by {
        assert(s1[k] == s1.subrange(0, HEADER_SIZE as int)[k]);
        assert(s2[k] == s2.subrange(0, HEADER_SIZE as int)[k]);
    }
}

proof fn lemma_claim_from_owned(s: Seq<u8>, i: int, fallback: Option<int>)
    requires
        1 <= i,
        forall|j: int| i <= j < slot_count(s) ==> #[trigger] slot_in_bounds(s, j),
        exists|k: int| i <= k < slot_count(s) && #[trigger] owned_by_us(s, k),
    ensures
        claim_from(s, i, fallback) matches Ok(j) && i <= j < slot_count(s) && owned_by_us(s, j)
            && forall|k: int| i <= k < j ==> !#[trigger] owned_by_us(s, k),
    decreases slot_count(s) - i,
{
    if !owned_by_us(s, i) {
        let k = choose|k: int| i <= k < slot_count(s) && #[trigger] owned_by_us(s, k);
        assert(i + 1 <= k);
        if slot_empty(s, i) && fallback is None {
            lemma_claim_from_owned(s, i + 1, Some(i));
        } else {
            lemma_claim_from_owned(s, i + 1, fallback);
        }
    }
}

/// A slot that we already own is always preferred over an empty one: where
/// every slot lies within the region and some slot carries our mark, the
/// claim goes to the first such slot, whatever empty slots come before it.
pub proof fn lemma_claim_prefers_owned(s: Seq<u8>)
    requires
        locked_header_error(s) is None,
        all_slots_in_bounds(s),
        exists|k: int| 1 <= k < slot_count(s) && #[trigger] owned_by_us(s, k),
    ensures
        claim_slot(s) matches Ok(j) && 1 <= j < slot_count(s) && owned_by_us(s, j) && forall|
            k: int,
        | 1 <= k < j ==> !#[trigger] owned_by_us(s, k),
{
    lemma_claim_from_owned(s, 1, None);
}

proof fn lemma_claim_from_full(s: Seq<u8>, i: int, fallback: Option<int>)
    requires
        1 <= i,
        forall|j: int| i <= j < slot_count(s) ==> #[trigger] slot_in_bounds(s, j),
    ensures
        claim_from(s, i, fallback) == Err::<int, Error>(Error::NoEmptyOsdSlots) ==> fallback is None,
        claim_from(s, i, fallback) == Err::<int, Error>(Error::NoEmptyOsdSlots) ==> forall|j: int|
            i <= j < slot_count(s) ==> !#[trigger] owned_by_us(s, j) && !slot_empty(s, j),
        fallback is None && (forall|j: int|
            i <= j < slot_count(s) ==> !#[trigger] owned_by_us(s, j) && !slot_empty(s, j))
            ==> claim_from(s, i, fallback) == Err::<int, Error>(Error::NoEmptyOsdSlots),
    decreases slot_count(s) - i,
{
    if i < slot_count(s) {
        if slot_empty(s, i) && fallback is None {
            lemma_claim_from_full(s, i + 1, Some(i));
        } else {
            lemma_claim_from_full(s, i + 1, fallback);
        }
        if claim_from(s, i, fallback) == Err::<int, Error>(Error::NoEmptyOsdSlots) {
            assert forall|j: int| i <= j < slot_count(s) implies !#[trigger] owned_by_us(s, j)
                && !slot_empty(s, j) by {
                if j > i {
                    assert(i + 1 <= j < slot_count(s));
                }
            }
        }
        if fallback is None && (forall|j: int|
            i <= j < slot_count(s) ==> !#[trigger] owned_by_us(s, j) && !slot_empty(s, j)) {
            assert(!owned_by_us(s, i) && !slot_empty(s, i));
            assert forall|j: int| i + 1 <= j < slot_count(s) implies !#[trigger] owned_by_us(s, j)
                && !slot_empty(s, j) by {
                assert(i <= j < slot_count(s));
            }
        }
    }
}

/// The claim fails for want of a slot exactly when every slot lies within the
/// region, none is empty and none carries our mark.
pub proof fn lemma_claim_no_free_slot(s: Seq<u8>)
    requires
        locked_header_error(s) is None,
        all_slots_in_bounds(s),
    ensures
        (claim_slot(s) == Err::<int, Error>(Error::NoEmptyOsdSlots)) <==> forall|i: int|
            1 <= i < slot_count(s) ==> !#[trigger] owned_by_us(s, i) && !slot_empty(s, i),
{
    lemma_claim_from_full(s, 1, None);
}

/// A string that fills its buffer, or more, is reported as not fitting; the
/// buffer then holds its first `cap` bytes, with no room for a terminator.
/// A shorter string is stored whole and followed by a NUL.
pub proof fn lemma_store_c_string(s: Seq<u8>, at: int, cap: int, b: Seq<u8>)
    requires
        0 <= at,
        0 <= cap,
        at + cap <= s.len(),
    ensures
        b.len() >= cap ==> store_c_string(s, at, cap, b).subrange(at, at + cap) == b.subrange(
            0,
            cap,
        ),
        b.len() < cap ==> store_c_string(s, at, cap, b).subrange(at, at + b.len()) == b
            && store_c_string(s, at, cap, b)[at + b.len()] == 0,
        forall|k: int|
            0 <= k < s.len() && !(at <= k < at + cap) ==> #[trigger] store_c_string(
                s,
                at,
                cap,
                b,
            )[k] == s[k],
{
    let r = store_c_string(s, at, cap, b);
    if b.len() >= cap {
        assert(r.subrange(at, at + cap) =~= b.subrange(0, cap));
    } else {
        assert(r.subrange(at, at + b.len()) =~= b);
    }
}

/// Teardown undoes a claim: where the slot table lies after the header and
/// every slot within the region, the release scan that follows a write
/// succeeds and zeroes the whole slot that the write went to.
pub proof fn lemma_release_after_write(s: Seq<u8>, text: Seq<u8>)
    requires
        locked_header_error(s) is None,
        all_slots_in_bounds(s),
        arr_offset(s) >= HEADER_SIZE,
        claim_slot(s) is Ok,
    ensures
        ({
            let i = claim_slot(s)->Ok_0;
            let after = write_region(s, text);
            &&& unregister_result(after) == Ok::<(), Error>(())
            &&& forall|k: int|
                slot_start(s, i) <= k < slot_start(s, i) + OSD_ENTRY_SIZE ==> #[trigger] unregister_region(
                    after,
                )[k] == 0
        }),
{
    let i = claim_slot(s)->Ok_0;
    lemma_claim_in_bounds(s, 1, None);
    let after = write_region(s, text);
    let start = slot_start(s, i);
    let e = entry_size(s);
    assert(i * e >= 0) by (nonlinear_arith)
        requires
            i >= 1,
            e >= 0,
    ;
    let owned = store_c_string(s, start + OSD_OWNER_OFFSET, OSD_OWNER_LEN as int, owner_mark());
    lemma_store_c_string(s, start + OSD_OWNER_OFFSET, OSD_OWNER_LEN as int, owner_mark());
    lemma_store_c_string(owned, start + OSD_EX_OFFSET, OSD_EX_LEN as int, text);
    assert forall|k: int| 0 <= k < HEADER_SIZE implies after[k] == s[k] by {
        assert(k < start);
    }
    assert(locked_header_error(after) == locked_header_error(s));
    assert(entry_size(after) == e);
    assert(arr_offset(after) == arr_offset(s));
    assert(slot_count(after) == slot_count(s));
    assert forall|j: int| 1 <= j < slot_count(after) implies #[trigger] slot_in_bounds(after, j) by {
        assert(slot_in_bounds(s, j));
    }
    assert(owner_field(after, i) =~= owned.subrange(
        start + OSD_OWNER_OFFSET,
        start + OSD_OWNER_OFFSET + OSD_OWNER_LEN,
    ));
    assert(owner_field(after, i).subrange(0, owner_mark().len() as int) =~= owner_mark());
    assert(owned_by_us(after, i));
    assert(released_slot(after, i));
    assert forall|k: int| start <= k < start + OSD_ENTRY_SIZE implies #[trigger] unregister_region(
        after,
    )[k] == 0 by {
        assert(cleared_below(after, k, slot_count(after)));
    }
}

/// Rewriting a slot that we already own: where every slot lies within the
/// region and some slot carries our mark, a write goes to the first such
/// slot and changes nothing but its extended text field; its owner field, and
/// every other slot, keep their bytes.
pub proof fn lemma_write_to_owned_slot(s: Seq<u8>, text: Seq<u8>)
    requires
        locked_header_error(s) is None,
        all_slots_in_bounds(s),
        exists|k: int| 1 <= k < slot_count(s) && #[trigger] owned_by_us(s, k),
    ensures
        claim_slot(s) matches Ok(j) && owned_by_us(s, j) && ({
            let after = write_region(s, text);
            let ex = slot_start(s, j) + OSD_EX_OFFSET;
            &&& after.len() == s.len()
            &&& forall|k: int|
                0 <= k < s.len() && !(ex <= k < ex + OSD_EX_LEN) ==> #[trigger] after[k] == s[k]
        }),
{
    lemma_claim_prefers_owned(s);
    let j = claim_slot(s)->Ok_0;
    lemma_claim_in_bounds(s, 1, None);
    let start = slot_start(s, j);
    let o = start + OSD_OWNER_OFFSET;
    let field = owner_field(s, j);
    let owned = store_c_string(s, o, OSD_OWNER_LEN as int, owner_mark());
    lemma_store_c_string(owned, start + OSD_EX_OFFSET, OSD_EX_LEN as int, text);
    assert forall|k: int| 0 <= k < s.len() implies owned[k] == s[k] by {
        if o <= k < o + owner_mark().len() {
            assert(field.subrange(0, owner_mark().len() as int)[k - o] == field[k - o]);
            assert(field[k - o] == s[k]);
        } else if k == o + owner_mark().len() {
            assert(field[owner_mark().len() as int] == s[k]);
        }
    }
}

} // verus!
