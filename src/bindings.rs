//! Byte layout of the overlay server's shared memory segment (protocol v2).
//!
//! The segment is owned and written by another process: these definitions
//! describe where each field lies, and the readers below take its value from
//! the raw bytes, little-endian, only where the bytes are known to be there.
use vstd::prelude::*;
use vstd::slice::slice_to_vec;

verus! {

/// Size of the segment header, in bytes.
pub const HEADER_SIZE: usize = 40;

/// Byte offsets of the header fields.
pub const VERSION_OFFSET: usize = 4;
pub const APP_ENTRY_SIZE_OFFSET: usize = 8;
pub const APP_ARR_OFFSET_OFFSET: usize = 12;
pub const APP_ARR_SIZE_OFFSET: usize = 16;
pub const OSD_ENTRY_SIZE_OFFSET: usize = 20;
pub const OSD_ARR_OFFSET_OFFSET: usize = 24;
pub const OSD_ARR_SIZE_OFFSET: usize = 28;
pub const OSD_FRAME_OFFSET: usize = 32;
pub const BUSY_OFFSET: usize = 36;

/// Layout of one OSD slot: text, owner, extended text, data buffer.
pub const OSD_LEN: usize = 256;
pub const OSD_OWNER_OFFSET: usize = 256;
pub const OSD_OWNER_LEN: usize = 256;
pub const OSD_EX_OFFSET: usize = 512;
pub const OSD_EX_LEN: usize = 4096;
pub const OSD_BUFFER_OFFSET: usize = 4608;
pub const OSD_BUFFER_LEN: usize = 262144;
pub const OSD_ENTRY_SIZE: usize = 266752;

/// The signature bytes of an initialised segment.
pub const RTSS_SIGNATURE: [u8; 4] = [83, 83, 84, 82];

/// The signature bytes of an embedded graph object.
pub const RTSS_EMBEDDED_OBJECT_GRAPH_SIGNATURE: [u8; 4] = [48, 48, 82, 71];

/// The little-endian unsigned integer held by the four bytes of `s` at `at`.
pub open spec fn le_u32(s: Seq<u8>, at: int) -> int {
    s[at] + 256 * s[at + 1] + 65536 * s[at + 2] + 16777216 * s[at + 3]
}

/// The same four bytes read as a two's complement signed integer.
pub open spec fn le_i32(s: Seq<u8>, at: int) -> int {
    if le_u32(s, at) < 0x8000_0000 {
        le_u32(s, at)
    } else {
        le_u32(s, at) - 0x1_0000_0000
    }
}

/// Reads the little-endian `u32` at byte `at` of `mem`.
pub fn read_u32(mem: &[u8], at: usize) -> (r: u32)
    requires
        at + 4 <= mem@.len(),
    ensures
        r == le_u32(mem@, at as int),
{
    let b0 = mem[at] as u32;
    let b1 = mem[at + 1] as u32;
    let b2 = mem[at + 2] as u32;
    let b3 = mem[at + 3] as u32;
    assert(b0 + 256 * b1 + 65536 * b2 + 16777216 * b3 < 0x1_0000_0000) by (nonlinear_arith)
        requires
            b0 < 256,
            b1 < 256,
            b2 < 256,
            b3 < 256,
    ;
    b0 + 256 * b1 + 65536 * b2 + 16777216 * b3
}

/// The segment header, as the server laid it out.
pub struct RtssSharedMemory {
    /// `RTSS_SIGNATURE` while the server's data is valid.
    pub signature: [u8; 4],
    /// Structure version, `(major << 16) | minor`.
    pub version: u32,
    pub app_entry_size: u32,
    pub app_arr_offset: u32,
    pub app_arr_size: u32,
    /// Size of one OSD slot, as the server declares it.
    pub osd_entry_size: u32,
    /// Offset of slot 0 from the start of the segment.
    pub osd_arr_offset: u32,
    /// Number of OSD slots.
    pub osd_arr_size: u32,
    /// Global OSD frame counter.
    pub osd_frame: u32,
    /// 1 while some client holds the segment, 0 when it is free.
    pub busy: i32,
}

impl RtssSharedMemory {
    /// The header that the first `HEADER_SIZE` bytes of `s` hold.
    pub open spec fn spec_read(s: Seq<u8>) -> RtssSharedMemory {
        RtssSharedMemory {
            signature: [s[0], s[1], s[2], s[3]],
            version: le_u32(s, 4) as u32,
            app_entry_size: le_u32(s, 8) as u32,
            app_arr_offset: le_u32(s, 12) as u32,
            app_arr_size: le_u32(s, 16) as u32,
            osd_entry_size: le_u32(s, 20) as u32,
            osd_arr_offset: le_u32(s, 24) as u32,
            osd_arr_size: le_u32(s, 28) as u32,
            osd_frame: le_u32(s, 32) as u32,
            busy: le_i32(s, 36) as i32,
        }
    }

    /// Reads the header from the start of `mem`.
    pub fn read(mem: &[u8]) -> (r: RtssSharedMemory)
        requires
            mem@.len() >= HEADER_SIZE,
        ensures
            r == Self::spec_read(mem@),
    {
        let busy = read_u32(mem, BUSY_OFFSET);
        let busy: i32 = if busy < 0x8000_0000 {
            busy as i32
        } else {
            (busy as i64 - 0x1_0000_0000i64) as i32
        };
        RtssSharedMemory {
            signature: [mem[0], mem[1], mem[2], mem[3]],
            version: read_u32(mem, VERSION_OFFSET),
            app_entry_size: read_u32(mem, APP_ENTRY_SIZE_OFFSET),
            app_arr_offset: read_u32(mem, APP_ARR_OFFSET_OFFSET),
            app_arr_size: read_u32(mem, APP_ARR_SIZE_OFFSET),
            osd_entry_size: read_u32(mem, OSD_ENTRY_SIZE_OFFSET),
            osd_arr_offset: read_u32(mem, OSD_ARR_OFFSET_OFFSET),
            osd_arr_size: read_u32(mem, OSD_ARR_SIZE_OFFSET),
            osd_frame: read_u32(mem, OSD_FRAME_OFFSET),
            busy,
        }
    }
}

/// One OSD slot.
pub struct RtssSharedMemoryOsdEntry {
    /// Slot text.
    pub osd: Vec<u8>,
    /// Identity of the client that owns the slot, NUL-terminated.
    pub osd_owner: Vec<u8>,
    /// Extended slot text (v2.7 and later).
    pub osd_ex: Vec<u8>,
    /// Data buffer for embedded objects (v2.12 and later).
    pub buffer: Vec<u8>,
}

impl RtssSharedMemoryOsdEntry {
    /// Reads the slot that starts at byte `at` of `mem`.
    pub fn read(mem: &[u8], at: usize) -> (r: RtssSharedMemoryOsdEntry)
        requires
            at + OSD_ENTRY_SIZE <= mem@.len(),
        ensures
            r.osd@ == mem@.subrange(at as int, at + OSD_LEN),
            r.osd_owner@ == mem@.subrange(at + OSD_OWNER_OFFSET, at + OSD_OWNER_OFFSET + OSD_OWNER_LEN),
            r.osd_ex@ == mem@.subrange(at + OSD_EX_OFFSET, at + OSD_EX_OFFSET + OSD_EX_LEN),
            r.buffer@ == mem@.subrange(
                at + OSD_BUFFER_OFFSET,
                at + OSD_BUFFER_OFFSET + OSD_BUFFER_LEN,
            ),
    {
        let len = mem.len();
        assert(at + OSD_ENTRY_SIZE <= len);
        RtssSharedMemoryOsdEntry {
            osd: slice_to_vec(&mem[at..at + OSD_LEN]),
            osd_owner: slice_to_vec(&mem[at + OSD_OWNER_OFFSET..at + OSD_OWNER_OFFSET + OSD_OWNER_LEN]),
            osd_ex: slice_to_vec(&mem[at + OSD_EX_OFFSET..at + OSD_EX_OFFSET + OSD_EX_LEN]),
            buffer: slice_to_vec(&mem[at + OSD_BUFFER_OFFSET..at + OSD_BUFFER_OFFSET + OSD_BUFFER_LEN]),
        }
    }
}

/// One application slot: a 3D application that the server tracks.
pub struct RtssSharedMemoryAppEntry {
    /// Process ID.
    pub process_id: u32,
    /// Executable name, NUL-terminated, in a buffer of `MAX_PATH` bytes.
    pub name: [u8; 260],
    /// Application specific flags.
    pub flags: u32,
    /// Start of the frame rate measurement period, in milliseconds.
    pub time0: u32,
    /// End of the frame rate measurement period, in milliseconds.
    pub time1: u32,
    /// Frames rendered during the period.
    pub frames: u32,
    /// Frame time, in microseconds.
    pub frame_time: u32,
}

/// Header of an object embedded in a slot's data buffer.
pub struct RtssEmbeddedObject {
    /// `RTSS_EMBEDDED_OBJECT_GRAPH_SIGNATURE` for a graph.
    pub signature: [u8; 4],
    /// Size of the whole object in bytes.
    pub size: u32,
    /// Width in pixels if positive, in characters if negative.
    pub width: i32,
    /// Height in pixels if positive, in characters if negative.
    pub height: i32,
    /// Margin in pixels.
    pub margin: i32,
}

} // verus!
