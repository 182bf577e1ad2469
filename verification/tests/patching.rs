use bytepatch::pattern::{compile_entry, PatchEntry};
use bytepatch::patch::{apply_entry, apply_patches};

fn entry(pattern: &str, replace: &str) -> PatchEntry {
    compile_entry(pattern, replace).unwrap()
}

#[test]
fn end_to_end_wildcard_match_with_padding() {
    let mut data = vec![0x11u8, 0x22, 0x33, 0x44, 0x55];
    let e = entry("22 ?? 44", "AA BB");
    assert_eq!(e.replace, vec![0xAA, 0xBB, 0x00]);
    let r = apply_entry(&mut data, &e);
    assert_eq!(r, Some(1));
    assert_eq!(data, vec![0x11, 0xAA, 0xBB, 0x00, 0x55]);
}

#[test]
fn end_to_end_no_match_leaves_buffer_unchanged() {
    let mut data = vec![0x01u8, 0x02, 0x03];
    let e = entry("FF FF", "00 00");
    let r = apply_entry(&mut data, &e);
    assert_eq!(r, None);
    assert_eq!(data, vec![0x01, 0x02, 0x03]);
}

#[test]
fn end_to_end_unanchored_first_match() {
    let mut data = vec![0x01u8, 0x02, 0x09, 0x02];
    let e = entry("?? 02", "AA BB");
    let r = apply_entry(&mut data, &e);
    assert_eq!(r, Some(0));
    assert_eq!(data, vec![0xAA, 0xBB, 0x09, 0x02]);
}

#[test]
fn padding_overwrites_exactly_pattern_length_bytes() {
    let mut data = vec![0x01u8, 0xAA, 0xBB, 0xCC, 0x05];
    let e = entry("AA BB CC", "AA");
    assert_eq!(e.replace, vec![0xAA, 0x00, 0x00]);
    let r = apply_entry(&mut data, &e);
    assert_eq!(r, Some(1));
    // Exactly three bytes change; the neighbours stay.
    assert_eq!(data, vec![0x01, 0xAA, 0x00, 0x00, 0x05]);
}

#[test]
fn second_application_is_a_noop_when_patch_destroys_the_match() {
    let mut data = vec![0x11u8, 0x22, 0x33];
    let e = entry("22 33", "44 55");
    let first = apply_entry(&mut data, &e);
    assert_eq!(first, Some(1));
    assert_eq!(data, vec![0x11, 0x44, 0x55]);
    let again = apply_entry(&mut data, &e);
    assert_eq!(again, None);
    assert_eq!(data, vec![0x11, 0x44, 0x55]);
}

#[test]
fn non_overlapping_patches_commute() {
    let original = vec![0x01u8, 0x02, 0x03, 0x04, 0x05, 0x06];
    let e1 = entry("02 03", "AA BB");
    let e2 = entry("05 06", "CC DD");

    let mut one_way = original.clone();
    let r1 = apply_patches(&vec![entry("02 03", "AA BB"), entry("05 06", "CC DD")], &mut one_way);
    assert_eq!(r1, vec![Some(1), Some(4)]);

    let mut other_way = original.clone();
    let r2 = apply_patches(&vec![e2, e1], &mut other_way);
    assert_eq!(r2, vec![Some(4), Some(1)]);

    assert_eq!(one_way, other_way);
    assert_eq!(one_way, vec![0x01, 0xAA, 0xBB, 0x04, 0xCC, 0xDD]);
}

#[test]
fn later_entry_scans_the_evolving_buffer() {
    // The first patch writes bytes that only then let the second pattern
    // match: list order is observable.
    let mut data = vec![0x10u8, 0x20, 0x30];
    let e1 = entry("10 20", "40 50");
    let e2 = entry("50 30", "60 70");
    let results = apply_patches(&vec![e1, e2], &mut data);
    assert_eq!(results, vec![Some(0), Some(1)]);
    assert_eq!(data, vec![0x40, 0x60, 0x70]);
}

#[test]
fn failed_entry_does_not_abort_later_entries() {
    let mut data = vec![0x0Au8, 0x0B, 0x0C];
    let e1 = entry("FF", "00");
    let e2 = entry("0B", "BB");
    let results = apply_patches(&vec![e1, e2], &mut data);
    assert_eq!(results, vec![None, Some(1)]);
    assert_eq!(data, vec![0x0A, 0xBB, 0x0C]);
}

#[test]
fn empty_entry_list_changes_nothing() {
    let mut data = vec![0x01u8, 0x02];
    let results = apply_patches(&Vec::new(), &mut data);
    assert_eq!(results, vec![]);
    assert_eq!(data, vec![0x01, 0x02]);
}

#[test]
fn buffer_shorter_than_pattern_reports_no_match() {
    let mut data = vec![0x22u8];
    let e = entry("22 33 44", "AA");
    let results = apply_patches(&vec![e], &mut data);
    assert_eq!(results, vec![None]);
    assert_eq!(data, vec![0x22]);
}

#[test]
fn each_entry_patches_only_its_first_match() {
    let mut data = vec![0x22u8, 0x33, 0x00, 0x22, 0x33];
    let e = entry("22 33", "AA BB");
    let results = apply_patches(&vec![e], &mut data);
    assert_eq!(results, vec![Some(0)]);
    // The second occurrence stays untouched.
    assert_eq!(data, vec![0xAA, 0xBB, 0x00, 0x22, 0x33]);
}
