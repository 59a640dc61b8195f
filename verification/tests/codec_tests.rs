use sound_label_info::codec::{sniff, Entry, SliError, SliFile};

fn scenario_bytes() -> Vec<u8> {
    vec![
        0x53, 0x4C, 0x49, 0x00, // magic "SLI\0"
        0x01, 0x00, 0x00, 0x00, // format_version = 1
        0x01, 0x00, 0x00, 0x00, // record count = 1
        0xAA, 0xAA, 0xAA, 0xAA, 0xAA, 0xAA, 0xAA, 0xAA, // tone_name
        0x02, 0x00, 0x00, 0x00, // nus3bank_id = 2
        0x03, 0x00, 0x00, 0x00, // tone_id = 3
    ]
}

#[test]
fn scenario_decode_and_reencode() {
    let bytes = scenario_bytes();
    let file = SliFile::decode(&bytes).unwrap();
    assert_eq!(file.version(), 1);
    assert_eq!(file.entries().len(), 1);
    let entry = &file.entries()[0];
    assert_eq!(entry.tone_name, 0xAAAA_AAAA_AAAA_AAAA);
    assert_eq!(entry.nus3bank_id, 2);
    assert_eq!(entry.tone_id, 3);
    assert_eq!(file.encode(), bytes);
}

#[test]
fn round_trip_ignores_trailing_bytes() {
    let mut bytes = scenario_bytes();
    let consumed = bytes.clone();
    bytes.extend_from_slice(&[0xDE, 0xAD, 0xBE, 0xEF]);
    let file = SliFile::decode(&bytes).unwrap();
    assert_eq!(file.entries().len(), 1);
    assert_eq!(file.encode(), consumed);
}

#[test]
fn bad_magic_reports_found_bytes() {
    let mut bytes = scenario_bytes();
    bytes[1] = 0x4D;
    match SliFile::decode(&bytes) {
        Err(SliError::BadMagic { found }) => assert_eq!(found, [0x53, 0x4D, 0x49, 0x00]),
        other => panic!("expected BadMagic, got {:?}", other),
    }
}

#[test]
fn bad_magic_wins_over_any_remainder() {
    // Even garbage after the first four bytes still reports BadMagic.
    let bytes = vec![0x00, 0x11, 0x22, 0x33, 0xFF, 0xFF];
    match SliFile::decode(&bytes) {
        Err(SliError::BadMagic { found }) => assert_eq!(found, [0x00, 0x11, 0x22, 0x33]),
        other => panic!("expected BadMagic, got {:?}", other),
    }
}

#[test]
fn short_inputs_report_eof() {
    assert_eq!(SliFile::decode(&[]).unwrap_err(), SliError::UnexpectedEof);
    assert_eq!(SliFile::decode(&[0x53, 0x4C, 0x49]).unwrap_err(), SliError::UnexpectedEof);
    // Magic alone, header incomplete.
    assert_eq!(SliFile::decode(&[0x53, 0x4C, 0x49, 0x00]).unwrap_err(), SliError::UnexpectedEof);
    // Header declares one record but no record bytes follow.
    let header_only = vec![
        0x53, 0x4C, 0x49, 0x00, 0x01, 0x00, 0x00, 0x00, 0x01, 0x00, 0x00, 0x00,
    ];
    assert_eq!(SliFile::decode(&header_only).unwrap_err(), SliError::UnexpectedEof);
    // One byte short of a full record.
    let mut nearly = scenario_bytes();
    nearly.pop();
    assert_eq!(SliFile::decode(&nearly).unwrap_err(), SliError::UnexpectedEof);
}

#[test]
fn encoded_count_tracks_record_length() {
    let entries = vec![
        Entry { tone_name: 1, nus3bank_id: 10, tone_id: 100 },
        Entry { tone_name: 2, nus3bank_id: 20, tone_id: 200 },
        Entry { tone_name: 3, nus3bank_id: 30, tone_id: 300 },
    ];
    let mut file = SliFile::new(7, entries);
    let bytes = file.encode();
    assert_eq!(&bytes[8..12], &[3, 0, 0, 0]);
    assert_eq!(bytes.len(), 12 + 3 * 16);
    // Adding and removing records changes the recomputed count in step.
    file.entries_mut().push(Entry { tone_name: 4, nus3bank_id: 40, tone_id: 400 });
    assert_eq!(&file.encode()[8..12], &[4, 0, 0, 0]);
    file.entries_mut().clear();
    let empty = file.encode();
    assert_eq!(&empty[8..12], &[0, 0, 0, 0]);
    assert_eq!(empty.len(), 12);
}

#[test]
fn encode_layout_is_little_endian() {
    let file = SliFile::new(
        0x0403_0201,
        vec![Entry { tone_name: 0x0807_0605_0403_0201, nus3bank_id: 0x1413_1211, tone_id: 0x2423_2221 }],
    );
    let bytes = file.encode();
    assert_eq!(
        bytes,
        vec![
            0x53, 0x4C, 0x49, 0x00, // magic
            0x01, 0x02, 0x03, 0x04, // version
            0x01, 0x00, 0x00, 0x00, // count
            0x01, 0x02, 0x03, 0x04, 0x05, 0x06, 0x07, 0x08, // tone_name
            0x11, 0x12, 0x13, 0x14, // nus3bank_id
            0x21, 0x22, 0x23, 0x24, // tone_id
        ]
    );
}

#[test]
fn entries_mut_edits_are_encoded() {
    let bytes = scenario_bytes();
    let mut file = SliFile::decode(&bytes).unwrap();
    file.entries_mut()[0].tone_id = 0;
    let out = file.encode();
    assert_eq!(&out[24..28], &[0, 0, 0, 0]);
    assert_eq!(&out[..24], &bytes[..24]);
}

#[test]
fn sniff_detects_the_magic() {
    assert!(sniff(&scenario_bytes()));
    assert!(sniff(&[0x53, 0x4C, 0x49, 0x00]));
    assert!(!sniff(&[0x53, 0x4C, 0x49]));
    assert!(!sniff(b"version: 1"));
    assert!(!sniff(&[]));
}
