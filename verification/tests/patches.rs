use ips_patcher::ips::{Data, InvalidFormatCause, InvalidFormatError, IPS};

fn patch_of(records: &[u8]) -> Vec<u8> {
    let mut bytes = b"PATCH".to_vec();
    bytes.extend_from_slice(records);
    bytes.extend_from_slice(b"EOF");
    bytes
}

fn cause_of(result: Result<IPS, InvalidFormatError>) -> InvalidFormatCause {
    match result {
        Ok(_) => panic!("the patch was accepted"),
        Err(error) => *error.source().unwrap(),
    }
}

#[test]
fn run_patch_fills_the_tail_of_the_target() {
    let bytes = patch_of(&[0x00, 0x00, 0x05, 0x00, 0x00, 0x00, 0x03, 0xFF]);
    assert!(IPS::is_decodable(&bytes));
    let patch = IPS::parse(bytes).unwrap();
    let target = vec![0, 0, 0, 0, 0, 0, 0, 0];
    assert!(patch.can_apply(&target));
    assert_eq!(patch.apply(target), vec![0, 0, 0, 0, 0, 0xFF, 0xFF, 0xFF]);
}

#[test]
fn patch_without_records_returns_the_target_unchanged() {
    let bytes = patch_of(&[]);
    assert_eq!(bytes.len(), 8);
    assert!(IPS::is_decodable(&bytes));
    let patch = IPS::parse(bytes).unwrap();
    assert!(patch.records().is_empty());
    assert_eq!(patch.apply(vec![1, 2, 3]), vec![1, 2, 3]);
    assert_eq!(patch.apply(Vec::new()), Vec::<u8>::new());
}

#[test]
fn missing_header_is_reported() {
    let mut bytes = b"XXXXX".to_vec();
    bytes.extend_from_slice(&[0x00, 0x00, 0x05, 0x00, 0x00, 0x00, 0x03, 0xFF]);
    bytes.extend_from_slice(b"EOF");
    assert!(IPS::is_decodable(&bytes));
    assert_eq!(cause_of(IPS::parse(bytes)), InvalidFormatCause::MissingHeader);
}

#[test]
fn missing_trailer_is_reported() {
    let mut bytes = b"PATCH".to_vec();
    bytes.extend_from_slice(&[0x00, 0x00, 0x05, 0x00, 0x00, 0x00, 0x03, 0xFF]);
    bytes.extend_from_slice(b"EOX");
    assert!(IPS::is_decodable(&bytes));
    assert_eq!(cause_of(IPS::parse(bytes)), InvalidFormatCause::MissingEOF);
}

#[test]
fn header_is_checked_before_trailer() {
    let bytes = b"patchXXXXXXXXeof".to_vec();
    assert_eq!(cause_of(IPS::parse(bytes)), InvalidFormatCause::MissingHeader);
}

#[test]
fn header_must_match_in_every_byte() {
    for at in 0..5 {
        let mut bytes = patch_of(&[]);
        bytes[at] ^= 0x20;
        assert_eq!(cause_of(IPS::parse(bytes)), InvalidFormatCause::MissingHeader);
    }
}

#[test]
fn trailer_must_match_in_every_byte() {
    for at in 5..8 {
        let mut bytes = patch_of(&[]);
        bytes[at] ^= 0x20;
        assert_eq!(cause_of(IPS::parse(bytes)), InvalidFormatCause::MissingEOF);
    }
}

#[test]
fn records_are_decoded_in_file_order() {
    let bytes = patch_of(&[
        0x00, 0x00, 0x01, 0x00, 0x02, 0xA1, 0xA2, // literal at 1
        0x00, 0x00, 0x04, 0x00, 0x00, 0x00, 0x02, 0xB0, // run at 4
        0x12, 0x34, 0x56, 0x00, 0x01, 0xC0, // literal at 0x123456
    ]);
    let patch = IPS::parse(bytes).unwrap();
    let records = patch.records();
    assert_eq!(records.len(), 3);
    assert_eq!(records[0].offset(), 1);
    assert_eq!(records[0].data(), &Data::Standard(vec![0xA1, 0xA2]));
    assert_eq!(records[1].offset(), 4);
    assert_eq!(records[1].data(), &Data::RLE { size: 2, value: 0xB0 });
    assert_eq!(records[2].offset(), 0x123456);
    assert_eq!(records[2].data(), &Data::Standard(vec![0xC0]));
}

#[test]
fn later_records_overwrite_earlier_ones() {
    let bytes = patch_of(&[
        0x00, 0x00, 0x00, 0x00, 0x00, 0x00, 0x04, 0x11, // run of four 0x11 at 0
        0x00, 0x00, 0x02, 0x00, 0x03, 0x21, 0x22, 0x23, // literal at 2
        0x00, 0x00, 0x05, 0x00, 0x00, 0x00, 0x02, 0x33, // run of two 0x33 at 5
    ]);
    let patch = IPS::parse(bytes).unwrap();
    let target = vec![9, 9];
    assert!(patch.can_apply(&target));
    assert_eq!(patch.apply(target), vec![0x11, 0x11, 0x21, 0x22, 0x23, 0x33, 0x33]);
}

#[test]
fn replay_gives_the_same_result_on_equal_targets() {
    let bytes = patch_of(&[
        0x00, 0x00, 0x01, 0x00, 0x02, 0xA1, 0xA2, 0x00, 0x00, 0x03, 0x00, 0x00, 0x00, 0x03, 0x77,
    ]);
    let patch = IPS::parse(bytes).unwrap();
    let target = vec![1, 2, 3, 4];
    let first = patch.apply(target.clone());
    let second = patch.apply(target.clone());
    assert_eq!(first, second);
    assert_eq!(first, vec![1, 0xA1, 0xA2, 0x77, 0x77, 0x77]);
    assert_eq!(target, vec![1, 2, 3, 4]);
}

#[test]
fn last_record_may_reach_into_the_trailer() {
    // The literal claims one byte, which is the `E` of the trailer.
    let bytes = patch_of(&[0x00, 0x00, 0x00, 0x00, 0x01]);
    assert!(IPS::is_decodable(&bytes));
    let patch = IPS::parse(bytes).unwrap();
    assert_eq!(patch.records().len(), 1);
    assert_eq!(patch.records()[0].data(), &Data::Standard(vec![b'E']));
    assert_eq!(patch.apply(vec![0, 0]), vec![b'E', 0]);
}

#[test]
fn record_behind_the_end_of_the_source_is_not_decodable() {
    let bytes = patch_of(&[0x00, 0x00, 0x00, 0x00, 0x05]);
    assert!(!IPS::is_decodable(&bytes));
    let bytes = patch_of(&[0x00, 0x00, 0x00, 0x00]);
    assert!(!IPS::is_decodable(&bytes));
    let bytes = patch_of(&[0x00]);
    assert!(!IPS::is_decodable(&bytes));
}

#[test]
fn run_may_take_its_count_and_value_from_the_trailer() {
    let bytes = patch_of(&[0x00, 0x00, 0x01, 0x00, 0x00, 0x00]);
    assert!(IPS::is_decodable(&bytes));
    let patch = IPS::parse(bytes).unwrap();
    assert_eq!(patch.records().len(), 1);
    assert_eq!(patch.records()[0].offset(), 1);
    assert_eq!(patch.records()[0].data(), &Data::RLE { size: 0x0045, value: 0x4F });
}

#[test]
fn source_shorter_than_both_markers_is_not_decodable() {
    assert!(!IPS::is_decodable(b""));
    assert!(!IPS::is_decodable(b"PATCH"));
    assert!(!IPS::is_decodable(b"PATCHEO"));
    assert!(IPS::is_decodable(b"PATCHEOF"));
    assert!(IPS::is_decodable(b"12345678"));
}

#[test]
fn record_behind_the_end_of_the_target_cannot_be_applied() {
    let bytes = patch_of(&[0x00, 0x00, 0x05, 0x00, 0x01, 0xAA]);
    let patch = IPS::parse(bytes).unwrap();
    assert!(!patch.can_apply(&[0, 0, 0, 0]));
    assert!(patch.can_apply(&[0, 0, 0, 0, 0]));
    assert!(patch.can_apply(&[0, 0, 0, 0, 0, 0]));
}

#[test]
fn earlier_record_may_grow_the_target_for_a_later_one() {
    let bytes = patch_of(&[
        0x00, 0x00, 0x02, 0x00, 0x00, 0x00, 0x03, 0x10, // grows the target to 5 bytes
        0x00, 0x00, 0x05, 0x00, 0x01, 0x20, // begins at its new end
    ]);
    let patch = IPS::parse(bytes).unwrap();
    assert!(patch.can_apply(&[1, 2]));
    assert!(!patch.can_apply(&[1]));
    assert_eq!(patch.apply(vec![1, 2]), vec![1, 2, 0x10, 0x10, 0x10, 0x20]);
}

#[test]
fn error_texts() {
    let error = InvalidFormatError::new(InvalidFormatCause::MissingHeader);
    assert_eq!(error.message(), "IPS file has invalid format");
    assert_eq!(error.description(), "Given patch file doesn't conform to IPS format");
    assert_eq!(error.source(), Some(&InvalidFormatCause::MissingHeader));
    assert_eq!(InvalidFormatCause::MissingHeader.message(), "IPS file has no header");
    assert_eq!(InvalidFormatCause::MissingHeader.description(), "IPS file has no header");
    assert_eq!(InvalidFormatCause::MissingEOF.message(), "IPS file has no EOF marker");
    assert_eq!(InvalidFormatCause::MissingEOF.description(), "IPS file has no EOF marker");
}
