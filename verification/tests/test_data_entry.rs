use elfredo::data_entry::{DataEntryHeader, ElfReadoError, EMBEDDED_MAGIC, HEADER_SIZE};
use elfredo::get_embedded_data;

const HELLO_ENTRY: [u8; 21] = [
    222, 173, 190, 239, 14, 139, 168, 35, 5, 0, 0, 0, 0, 0, 0, 0, 72, 101, 108, 108, 111,
];

pub const TEST_STRING: &[u8] = b"\"Oh, how I wish I could shut up like a telescope! \
I think I could, if only I knew how to begin.\
\" For, you see, so many out-of-the-way things had happened lately, \
that Alice had begun to think that very few things indeed were really impossible.\
 -Chapter 1, Down the Rabbit-Hole";

#[test]
fn generate_entry_hello_exact_bytes() {
    let entry = DataEntryHeader::generate_entry(b"Hello".to_vec()).unwrap();
    assert_eq!(entry, HELLO_ENTRY.to_vec());
}

#[test]
fn generate_entry_empty_exact_bytes() {
    let entry = DataEntryHeader::generate_entry(Vec::new()).unwrap();
    assert_eq!(
        entry,
        vec![222, 173, 190, 239, 105, 223, 34, 101, 0, 0, 0, 0, 0, 0, 0, 0]
    );
}

#[test]
fn roundtrip_u8_vec() {
    let entry = DataEntryHeader::generate_entry(TEST_STRING.to_vec()).unwrap();
    assert_eq!(entry.len(), HEADER_SIZE + TEST_STRING.len());
    assert_eq!(get_embedded_data(&entry).unwrap(), TEST_STRING);
}

#[test]
fn roundtrip_stress_u8_vec() {
    let huge_blob = b"A".repeat(1024 * 110);
    let entry = DataEntryHeader::generate_entry(huge_blob.clone()).unwrap();
    assert_eq!(get_embedded_data(&entry).unwrap(), huge_blob.as_slice());
}

#[test]
fn roundtrip_empty_data() {
    let entry = DataEntryHeader::generate_entry(Vec::new()).unwrap();
    assert_eq!(get_embedded_data(&entry).unwrap(), &[] as &[u8]);
}

#[test]
fn trailing_bytes_are_ignored() {
    let mut entry = HELLO_ENTRY.to_vec();
    entry.extend_from_slice(&[0, 0, 0, 7]);
    assert_eq!(get_embedded_data(&entry).unwrap(), b"Hello");
}

#[test]
fn unpatched_section_has_no_magic() {
    let section = [0u8; 16];
    assert_eq!(
        get_embedded_data(&section),
        Err(ElfReadoError::MagicNotFound { magic_found: [0, 0, 0, 0] })
    );
}

#[test]
fn foreign_magic_is_reported() {
    let mut entry = HELLO_ENTRY.to_vec();
    entry[0] = 0xCA;
    assert_eq!(
        get_embedded_data(&entry),
        Err(ElfReadoError::MagicNotFound { magic_found: [0xCA, 0xAD, 0xBE, 0xEF] })
    );
}

#[test]
fn corrupted_data_is_reported() {
    let mut entry = HELLO_ENTRY.to_vec();
    entry[18] = b'L';
    assert_eq!(get_embedded_data(&entry), Err(ElfReadoError::InvalidCRC {}));
}

#[test]
fn changed_checksum_is_reported() {
    let mut entry = HELLO_ENTRY.to_vec();
    entry[4] ^= 1;
    assert_eq!(get_embedded_data(&entry), Err(ElfReadoError::InvalidCRC {}));
}

#[test]
fn changed_size_is_reported() {
    let mut entry = HELLO_ENTRY.to_vec();
    entry.push(b'!');
    entry[8] = 6;
    assert_eq!(get_embedded_data(&entry), Err(ElfReadoError::InvalidCRC {}));
}

#[test]
fn section_shorter_than_header() {
    assert_eq!(
        get_embedded_data(&HELLO_ENTRY[..15]),
        Err(ElfReadoError::SectionTooShort {})
    );
    assert_eq!(get_embedded_data(&[]), Err(ElfReadoError::SectionTooShort {}));
}

#[test]
fn section_shorter_than_announced_data() {
    assert_eq!(
        get_embedded_data(&HELLO_ENTRY[..20]),
        Err(ElfReadoError::SectionTooShort {})
    );
}

#[test]
fn huge_announced_size() {
    let mut entry = HELLO_ENTRY.to_vec();
    for b in &mut entry[8..16] {
        *b = 0xFF;
    }
    assert_eq!(get_embedded_data(&entry), Err(ElfReadoError::SectionTooShort {}));
}

#[test]
fn magic_checked_before_length() {
    let section = [1u8, 2, 3, 4, 0, 0, 0, 0, 0xFF, 0xFF, 0xFF, 0xFF, 0xFF, 0xFF, 0xFF, 0xFF];
    assert_eq!(
        get_embedded_data(&section),
        Err(ElfReadoError::MagicNotFound { magic_found: [1, 2, 3, 4] })
    );
}

#[test]
fn header_from_bytes_reads_fields() {
    let h = DataEntryHeader::from_bytes(&HELLO_ENTRY).unwrap();
    assert_eq!(h.magic, EMBEDDED_MAGIC);
    assert_eq!(h.checksum, 0x23a88b0e);
    assert_eq!(h.size, 5);
    assert!(DataEntryHeader::from_bytes(&HELLO_ENTRY[..15]).is_none());
}

#[test]
fn header_bytes_roundtrip() {
    let h = DataEntryHeader { magic: [1, 2, 3, 4], checksum: 0xA1B2C3D4, size: 0x0102 };
    let bytes = h.to_bytes().unwrap();
    assert_eq!(bytes, vec![1, 2, 3, 4, 0xD4, 0xC3, 0xB2, 0xA1, 2, 1, 0, 0, 0, 0, 0, 0]);
    assert_eq!(DataEntryHeader::from_bytes(&bytes).unwrap(), h);
}

#[test]
fn get_data_checks_magic_then_crc() {
    let h = DataEntryHeader::from_bytes(&HELLO_ENTRY).unwrap();
    assert!(h.has_magic());
    assert!(h.is_crc_valid(&HELLO_ENTRY[16..]));
    assert_eq!(h.get_data(&HELLO_ENTRY[16..]).unwrap(), b"Hello");
    assert_eq!(h.get_data(b"Hellp"), Err(ElfReadoError::InvalidCRC {}));
    let zero = DataEntryHeader { magic: [0; 4], checksum: 0, size: 0 };
    assert!(!zero.has_magic());
    assert_eq!(
        zero.get_data(&[]),
        Err(ElfReadoError::MagicNotFound { magic_found: [0; 4] })
    );
}

#[test]
fn error_messages() {
    assert_eq!(
        ElfReadoError::MagicNotFound { magic_found: [0, 0, 0, 0] }.message(),
        "Embedded magic was not found: [0, 0, 0, 0]"
    );
    assert_eq!(
        ElfReadoError::MagicNotFound { magic_found: [222, 173, 190, 9] }.message(),
        "Embedded magic was not found: [222, 173, 190, 9]"
    );
    assert_eq!(
        ElfReadoError::MagicNotFound { magic_found: [10, 99, 100, 255] }.message(),
        "Embedded magic was not found: [10, 99, 100, 255]"
    );
    assert_eq!(ElfReadoError::InvalidCRC {}.message(), "Calculated CRC is invalid.");
    assert_eq!(
        ElfReadoError::SectionTooShort {}.message(),
        "The section is too short for its entry."
    );
}

#[test]
fn every_single_byte_change_is_detected() {
    for i in (4..8).chain(16..HELLO_ENTRY.len()) {
        for delta in [1u8, 0x80, 0xFF] {
            let mut entry = HELLO_ENTRY.to_vec();
            entry[i] ^= delta;
            assert_eq!(get_embedded_data(&entry), Err(ElfReadoError::InvalidCRC {}));
        }
    }
}
