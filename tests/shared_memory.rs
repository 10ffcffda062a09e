use lilpowerman::bindings::{
    RtssSharedMemory, RtssSharedMemoryOsdEntry, HEADER_SIZE, OSD_ENTRY_SIZE, OSD_EX_LEN,
    OSD_EX_OFFSET, OSD_OWNER_LEN, OSD_OWNER_OFFSET,
};
use lilpowerman::rtss::Error;
use lilpowerman::shared_memory::{format_version, string_to_mem, SharedMemoryBuilder, SharedMemoryView};

const OURS: &str = "LilPowerMan";

fn put_u32(mem: &mut [u8], at: usize, v: u32) {
    mem[at..at + 4].copy_from_slice(&v.to_le_bytes());
}

/// A region with a valid header and `slots` slots right after it.
fn region(version: u32, slots: u32) -> Vec<u8> {
    let mut mem = vec![0u8; HEADER_SIZE + slots as usize * OSD_ENTRY_SIZE];
    mem[0..4].copy_from_slice(b"SSTR");
    put_u32(&mut mem, 4, version);
    put_u32(&mut mem, 20, OSD_ENTRY_SIZE as u32);
    put_u32(&mut mem, 24, HEADER_SIZE as u32);
    put_u32(&mut mem, 28, slots);
    mem
}

fn slot_start(i: usize) -> usize {
    HEADER_SIZE + i * OSD_ENTRY_SIZE
}

fn set_owner(mem: &mut [u8], i: usize, owner: &str) {
    let at = slot_start(i) + OSD_OWNER_OFFSET;
    mem[at..at + OSD_OWNER_LEN].fill(0);
    mem[at..at + owner.len()].copy_from_slice(owner.as_bytes());
}

fn owner_of(mem: &[u8], i: usize) -> Vec<u8> {
    let entry = RtssSharedMemoryOsdEntry::read(mem, slot_start(i));
    let len = entry.osd_owner.iter().position(|&c| c == 0).unwrap_or(OSD_OWNER_LEN);
    entry.osd_owner[..len].to_vec()
}

fn text_of(mem: &[u8], i: usize) -> Vec<u8> {
    let entry = RtssSharedMemoryOsdEntry::read(mem, slot_start(i));
    let len = entry.osd_ex.iter().position(|&c| c == 0).unwrap_or(OSD_EX_LEN);
    entry.osd_ex[..len].to_vec()
}

fn write_text(mem: &mut [u8], text: &str) -> Result<(), Error> {
    let view = SharedMemoryView::from_region(mem)?;
    let mut builder = SharedMemoryBuilder::new();
    builder.add_text(text);
    builder.write(&view, mem)
}

#[test]
fn header_is_read_little_endian() {
    let mut mem = region(0x0002000e, 3);
    put_u32(&mut mem, 36, 1);
    let h = RtssSharedMemory::read(&mem);
    assert_eq!(h.signature, *b"SSTR");
    assert_eq!(h.version, 0x0002000e);
    assert_eq!(h.osd_entry_size, OSD_ENTRY_SIZE as u32);
    assert_eq!(h.osd_arr_offset, HEADER_SIZE as u32);
    assert_eq!(h.osd_arr_size, 3);
    assert_eq!(h.busy, 1);
}

#[test]
fn valid_header_is_accepted() {
    let mem = region(0x0002000e, 2);
    assert!(SharedMemoryView::from_region(&mem).is_ok());
    let mem = region(0x00030001, 2);
    assert!(SharedMemoryView::from_region(&mem).is_ok());
}

#[test]
fn wrong_signature_means_not_running() {
    let mut mem = region(0x0002000e, 2);
    mem[0] = 0xAD;
    mem[1] = 0xDE;
    assert_eq!(SharedMemoryView::from_region(&mem).err(), Some(Error::RtssV2NotRunning));
}

#[test]
fn old_version_is_refused_with_its_number() {
    let mem = region(0x0002000d, 2);
    assert_eq!(
        SharedMemoryView::from_region(&mem).err(),
        Some(Error::RtssVersionNotSupported("2.13".to_string()))
    );
}

#[test]
fn short_region_is_a_layout_error() {
    let mem = region(0x0002000e, 0);
    assert_eq!(
        SharedMemoryView::from_region(&mem[..HEADER_SIZE - 1]).err(),
        Some(Error::UnexpectedMemoryLayout)
    );
    assert!(SharedMemoryView::from_region(&mem[..HEADER_SIZE]).is_ok());
}

#[test]
fn version_is_rendered_major_dot_minor() {
    assert_eq!(format_version(0x00020005), "2.5");
    assert_eq!(format_version(0x0007000c), "7.12");
    assert_eq!(format_version(0), "0.0");
}

#[test]
fn claim_prefers_owned_slot_over_empty_one() {
    let mut mem = region(0x0002000e, 5);
    set_owner(&mut mem, 1, "OtherApp");
    set_owner(&mut mem, 3, OURS);
    write_text(&mut mem, "hello").unwrap();
    assert_eq!(text_of(&mem, 3), b"hello");
    assert_eq!(text_of(&mem, 2), b"");
    assert_eq!(owner_of(&mem, 2), b"");
    assert_eq!(owner_of(&mem, 1), b"OtherApp");
}

#[test]
fn claim_takes_first_empty_slot_when_none_is_owned() {
    let mut mem = region(0x0002000e, 4);
    set_owner(&mut mem, 1, "OtherApp");
    write_text(&mut mem, "hello").unwrap();
    assert_eq!(owner_of(&mem, 2), OURS.as_bytes());
    assert_eq!(text_of(&mem, 2), b"hello");
    assert_eq!(owner_of(&mem, 3), b"");
}

#[test]
fn slot_zero_is_never_claimed() {
    let mut mem = region(0x0002000e, 2);
    write_text(&mut mem, "x").unwrap();
    assert_eq!(owner_of(&mem, 0), b"");
    assert_eq!(owner_of(&mem, 1), OURS.as_bytes());
}

#[test]
fn a_longer_owner_with_our_prefix_is_not_ours() {
    let mut mem = region(0x0002000e, 3);
    set_owner(&mut mem, 1, "LilPowerManX");
    write_text(&mut mem, "x").unwrap();
    assert_eq!(owner_of(&mem, 1), b"LilPowerManX");
    assert_eq!(owner_of(&mem, 2), OURS.as_bytes());
}

#[test]
fn no_free_slot_when_all_are_taken_by_others() {
    let mut mem = region(0x0002000e, 3);
    set_owner(&mut mem, 1, "A");
    set_owner(&mut mem, 2, "B");
    let before = mem.clone();
    assert_eq!(write_text(&mut mem, "x"), Err(Error::NoEmptyOsdSlots));
    assert!(mem == before);
}

#[test]
fn no_free_slot_with_only_slot_zero() {
    let mut mem = region(0x0002000e, 1);
    assert_eq!(write_text(&mut mem, "x"), Err(Error::NoEmptyOsdSlots));
}

#[test]
fn slot_past_the_region_is_a_layout_error() {
    let mut mem = region(0x0002000e, 3);
    put_u32(&mut mem, 28, 4);
    set_owner(&mut mem, 1, "A");
    let before = mem.clone();
    assert_eq!(write_text(&mut mem, "x"), Err(Error::UnexpectedMemoryLayout));
    assert!(mem == before);
}

#[test]
fn owned_slot_before_a_bad_one_is_still_used() {
    let mut mem = region(0x0002000e, 3);
    put_u32(&mut mem, 28, 4);
    set_owner(&mut mem, 2, OURS);
    assert_eq!(write_text(&mut mem, "x"), Ok(()));
    assert_eq!(text_of(&mem, 2), b"x");
}

#[test]
fn declared_slot_size_below_layout_is_a_layout_error() {
    let mut mem = region(0x0002000e, 3);
    put_u32(&mut mem, 20, OSD_ENTRY_SIZE as u32 - 1);
    assert_eq!(write_text(&mut mem, "x"), Err(Error::UnexpectedMemoryLayout));
}

#[test]
fn signature_lost_after_validation_means_not_running() {
    let mut mem = region(0x0002000e, 3);
    let view = SharedMemoryView::from_region(&mem).unwrap();
    mem[0] = 0;
    let mut builder = SharedMemoryBuilder::new();
    builder.add_text("x");
    assert_eq!(builder.write(&view, &mut mem), Err(Error::RtssV2NotRunning));
}

#[test]
fn exact_fill_does_not_fit_and_is_truncated() {
    let mut mem = vec![7u8; 10];
    assert!(!string_to_mem(b"abcd", &mut mem, 2, 4));
    assert_eq!(mem, [7, 7, b'a', b'b', b'c', b'd', 7, 7, 7, 7]);
}

#[test]
fn short_string_is_terminated() {
    let mut mem = vec![7u8; 10];
    assert!(string_to_mem(b"abc", &mut mem, 2, 4));
    assert_eq!(mem, [7, 7, b'a', b'b', b'c', 0, 7, 7, 7, 7]);
}

#[test]
fn long_string_is_cut_to_capacity() {
    let mut mem = vec![7u8; 6];
    assert!(!string_to_mem(b"abcdef", &mut mem, 1, 3));
    assert_eq!(mem, [7, b'a', b'b', b'c', 7, 7]);
}

#[test]
fn empty_string_in_empty_buffer_does_not_fit() {
    let mut mem = vec![7u8; 3];
    assert!(!string_to_mem(b"", &mut mem, 1, 0));
    assert_eq!(mem, [7, 7, 7]);
}

#[test]
fn text_that_fills_the_buffer_overflows() {
    let mut mem = region(0x0002000e, 2);
    let text = "a".repeat(OSD_EX_LEN);
    assert_eq!(write_text(&mut mem, &text), Err(Error::EntryOverflow));
    let at = slot_start(1) + OSD_EX_OFFSET;
    assert!(mem[at..at + OSD_EX_LEN].iter().all(|&c| c == b'a'));
    assert_eq!(owner_of(&mem, 1), OURS.as_bytes());

    let mut mem = region(0x0002000e, 2);
    let text = "a".repeat(OSD_EX_LEN - 1);
    assert_eq!(write_text(&mut mem, &text), Ok(()));
    assert_eq!(mem[at + OSD_EX_LEN - 1], 0);
}

#[test]
fn builder_keeps_markup_verbatim() {
    let mut mem = region(0x0002000e, 2);
    let view = SharedMemoryView::from_region(&mem).unwrap();
    let mut builder = SharedMemoryBuilder::new();
    builder.add_text("<S=50>W<S>").add_newline().add_text("<FR>");
    builder.write(&view, &mut mem).unwrap();
    assert_eq!(text_of(&mem, 1), b"<S=50>W<S>\r\n<FR>");
}

#[test]
fn unregister_clears_every_slot_we_own() {
    let mut mem = region(0x0002000e, 4);
    set_owner(&mut mem, 1, OURS);
    set_owner(&mut mem, 2, "Other");
    set_owner(&mut mem, 3, OURS);
    let view = SharedMemoryView::from_region(&mem).unwrap();
    assert_eq!(view.unregister(&mut mem), Ok(()));
    assert!(mem[slot_start(1)..slot_start(2)].iter().all(|&c| c == 0));
    assert!(mem[slot_start(3)..].iter().all(|&c| c == 0));
    assert_eq!(owner_of(&mem, 2), b"Other");
}

#[test]
fn unregister_reports_a_slot_past_the_region() {
    let mut mem = region(0x0002000e, 3);
    put_u32(&mut mem, 28, 4);
    set_owner(&mut mem, 2, OURS);
    let before = mem.clone();
    let view = SharedMemoryView::from_region(&mem).unwrap();
    assert_eq!(view.unregister(&mut mem), Err(Error::UnexpectedMemoryLayout));
    assert_eq!(owner_of(&mem, 2), OURS.as_bytes());
    assert!(mem == before);
}

#[test]
fn unregister_layout_error_leaves_no_partial_write() {
    let mut mem = region(0x0002000e, 3);
    set_owner(&mut mem, 1, OURS);
    put_u32(&mut mem, 28, 7);
    let before = mem.clone();
    let view = SharedMemoryView::from_region(&mem).unwrap();
    assert_eq!(view.unregister(&mut mem), Err(Error::UnexpectedMemoryLayout));
    assert_eq!(owner_of(&mem, 1), OURS.as_bytes());
    assert!(mem == before);
}
