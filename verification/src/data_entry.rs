//! Generation and validation of dynamic resource section (DRS) entries.
//!
//! A DRS entry is what the `.extended` section of an executable holds, and what
//! `objcopy --update-section` writes there to change the embedded data after the
//! executable was built. Its layout is that of bincode's encoding of the header
//! (fixed-width little-endian integers, no length prefixes), followed by the data:
//!
//! | bytes           | field                                     |
//! |-----------------|-------------------------------------------|
//! | 0 .. 4          | magic, `DE AD BE EF`                      |
//! | 4 .. 8          | checksum: CRC32 (IEEE) of bytes 8 .. end  |
//! | 8 .. 16         | size of the data                          |
//! | 16 .. 16 + size | data                                      |
use vstd::prelude::*;
use vstd::bytes::*;
use vstd::slice::*;
use vstd::string::*;
use crate::checksum::{checksum_ieee, crc32_ieee, lemma_crc32_detects_single_byte_change};

verus! {

/// The magic that opens every entry.
pub const EMBEDDED_MAGIC: [u8; 4] = [0xDE, 0xAD, 0xBE, 0xEF];

/// Number of bytes of the header: magic, checksum and size field.
pub const HEADER_SIZE: usize = 16;

/// Number of bytes of the size field.
pub const SIZE_FIELD_SIZE: usize = 8;

/// Offset of the first byte that the checksum covers (the size field).
pub const CHECK_START_OFFSET: usize = 8;

// ---------------------------------------------------------------------------
// Outside calls
// ---------------------------------------------------------------------------

/// bincode's error, carried out of `bincode::serialize`.
#[verifier::external_type_specification]
#[verifier::external_body]
pub struct ExBincodeErrorKind(bincode::ErrorKind);

/// Calls `bincode::serialize` on the tuple of the header's fields, which bincode encodes
/// as it encodes the header struct. The contract states what bincode's default
/// configuration for `serialize` (fixed-width integers, little endian, no size limit;
/// arrays and tuples without length) writes: the four magic bytes, then the checksum's
/// four little-endian bytes, then the size's eight little-endian bytes. It also states
/// that the call succeeds: with no size limit the size check cannot fail, and writing
/// integers into a `Vec` cannot fail.
#[verifier::external_body]
fn bincode_serialize_header(magic: [u8; 4], checksum: u32, size: u64) -> (res: Result<
    Vec<u8>,
    Box<bincode::ErrorKind>,
>)
    ensures
        res is Ok,
        res matches Ok(v) ==> v@ == magic@ + spec_u32_to_le_bytes(checksum) + spec_u64_to_le_bytes(
            size,
        ),
{
    bincode::serialize(&(magic, checksum, size))
}

// ---------------------------------------------------------------------------
// Model of the format
// ---------------------------------------------------------------------------

/// The magic as a sequence of bytes.
pub open spec fn magic_bytes() -> Seq<u8> {
    seq![0xDEu8, 0xADu8, 0xBEu8, 0xEFu8]
}

/// The bytes of a header with the given fields.
pub open spec fn header_bytes(magic: Seq<u8>, checksum: u32, size: u64) -> Seq<u8> {
    magic + spec_u32_to_le_bytes(checksum) + spec_u64_to_le_bytes(size)
}

/// The checksum that an entry holding `data` carries: the CRC32 of the size field's
/// bytes followed by the data.
pub open spec fn entry_checksum(data: Seq<u8>) -> u32 {
    crc32_ieee(spec_u64_to_le_bytes(data.len() as u64) + data)
}

/// The entry that holds `data`.
pub open spec fn entry_bytes(data: Seq<u8>) -> Seq<u8> {
    header_bytes(magic_bytes(), entry_checksum(data), data.len() as u64) + data
}

/// The magic stored at the start of a section.
pub open spec fn stored_magic(section: Seq<u8>) -> Seq<u8> {
    section.subrange(0, 4)
}

/// The checksum stored in a section's header.
pub open spec fn stored_checksum(section: Seq<u8>) -> u32 {
    spec_u32_from_le_bytes(section.subrange(4, 8))
}

/// The data size stored in a section's header.
pub open spec fn stored_size(section: Seq<u8>) -> u64 {
    spec_u64_from_le_bytes(section.subrange(8, 16))
}

/// The bytes that a section's checksum covers: the size field and the data.
pub open spec fn checked_bytes(section: Seq<u8>) -> Seq<u8> {
    section.subrange(8, 16 + stored_size(section))
}

/// The data of a section: the `size` bytes after the header.
pub open spec fn entry_payload(section: Seq<u8>) -> Seq<u8> {
    section.subrange(16, 16 + stored_size(section))
}

/// What reading a section finds, in the order in which the checks are made.
#[derive(Debug, PartialEq, Eq)]
pub enum EntryStatus {
    /// The section cannot hold the header, or not the data that the header announces.
    TooShort,
    /// The section does not start with the magic.
    BadMagic,
    /// The stored checksum is not the CRC32 of the size field and the data.
    BadChecksum,
    /// A well-formed entry.
    Valid,
}

/// The status of a section.
pub open spec fn entry_status(section: Seq<u8>) -> EntryStatus {
    if section.len() < 16 {
        EntryStatus::TooShort
    } else if stored_magic(section) != magic_bytes() {
        EntryStatus::BadMagic
    } else if stored_size(section) > section.len() - 16 {
        EntryStatus::TooShort
    } else if crc32_ieee(checked_bytes(section)) != stored_checksum(section) {
        EntryStatus::BadChecksum
    } else {
        EntryStatus::Valid
    }
}

// ---------------------------------------------------------------------------
// Errors
// ---------------------------------------------------------------------------

/// Why embedded data could not be read.
#[derive(Debug, PartialEq, Eq)]
pub enum ElfReadoError {
    /// The header does not start with `EMBEDDED_MAGIC`; `magic_found` is what it holds.
    MagicNotFound { magic_found: [u8; 4] },
    /// The stored checksum does not match the size field and the data.
    InvalidCRC {},
    /// The section is too short for the header, or for the data that the header announces.
    SectionTooShort {},
}

/// Whether `e` is the error that reading `section` reports: the one that matches the
/// section's status, and for a foreign magic, that magic.
pub open spec fn error_of_section(e: ElfReadoError, section: Seq<u8>) -> bool {
    match e {
        ElfReadoError::MagicNotFound { magic_found } => {
            &&& entry_status(section) == EntryStatus::BadMagic
            &&& magic_found@ == stored_magic(section)
        },
        ElfReadoError::InvalidCRC {  } => entry_status(section) == EntryStatus::BadChecksum,
        ElfReadoError::SectionTooShort {  } => entry_status(section) == EntryStatus::TooShort,
    }
}

/// The decimal digit `d` as a character.
pub open spec fn digit_char(d: int) -> char {
    (d + 48) as char
}

/// The decimal form of `n`, without leading zeros.
pub open spec fn decimal(n: u8) -> Seq<char> {
    if n >= 100 {
        seq![
            digit_char((n / 100) as int),
            digit_char(((n / 10) % 10) as int),
            digit_char((n % 10) as int),
        ]
    } else if n >= 10 {
        seq![digit_char((n / 10) as int), digit_char((n % 10) as int)]
    } else {
        seq![digit_char(n as int)]
    }
}

/// The debug form of four bytes, as `{:?}` prints an array: `[222, 173, 190, 239]`.
pub open spec fn bytes4_debug(m: Seq<u8>) -> Seq<char> {
    "["@ + decimal(m[0]) + ", "@ + decimal(m[1]) + ", "@ + decimal(m[2]) + ", "@ + decimal(m[3])
        + "]"@
}

impl ElfReadoError {
    /// The text that describes the error.
    pub open spec fn spec_message(&self) -> Seq<char> {
        match self {
            ElfReadoError::MagicNotFound { magic_found } => "Embedded magic was not found: "@
                + bytes4_debug(magic_found@),
            ElfReadoError::InvalidCRC {  } => "Calculated CRC is invalid."@,
            ElfReadoError::SectionTooShort {  } => "The section is too short for its entry."@,
        }
    }

    /// Describes the error: `Embedded magic was not found: [..]` with the magic found,
    /// `Calculated CRC is invalid.`, or that the section is too short for its entry.
    pub fn message(&self) -> (res: String)
        ensures
            res@ == self.spec_message(),
    {
        match self {
            ElfReadoError::MagicNotFound { magic_found } => {
                let mut text = String::from_str("Embedded magic was not found: ");
                text.append("[");
                append_decimal(&mut text, magic_found[0]);
                text.append(", ");
                append_decimal(&mut text, magic_found[1]);
                text.append(", ");
                append_decimal(&mut text, magic_found[2]);
                text.append(", ");
                append_decimal(&mut text, magic_found[3]);
                text.append("]");
                text
            },
            ElfReadoError::InvalidCRC {  } => String::from_str("Calculated CRC is invalid."),
            ElfReadoError::SectionTooShort {  } => String::from_str(
                "The section is too short for its entry.",
            ),
        }
    }
}

/// The decimal digit `d` as a string.
fn digit_str(d: u8) -> (res: &'static str)
    requires
        d < 10,
    ensures
        res@ == seq![digit_char(d as int)],
{
    match d {
        0 => {
            proof {
                reveal_strlit("0");
            }
            "0"
        },
        1 => {
            proof {
                reveal_strlit("1");
            }
            "1"
        },
        2 => {
            proof {
                reveal_strlit("2");
            }
            "2"
        },
        3 => {
            proof {
                reveal_strlit("3");
            }
            "3"
        },
        4 => {
            proof {
                reveal_strlit("4");
            }
            "4"
        },
        5 => {
            proof {
                reveal_strlit("5");
            }
            "5"
        },
        6 => {
            proof {
                reveal_strlit("6");
            }
            "6"
        },
        7 => {
            proof {
                reveal_strlit("7");
            }
            "7"
        },
        8 => {
            proof {
                reveal_strlit("8");
            }
            "8"
        },
        _ => {
            proof {
                reveal_strlit("9");
            }
            "9"
        },
    }
}

/// Appends the decimal form of `n` to `text`.
fn append_decimal(text: &mut String, n: u8)
    ensures
        final(text)@ == old(text)@ + decimal(n),
{
    if n >= 100 {
        text.append(digit_str(n / 100));
        text.append(digit_str((n / 10) % 10));
        text.append(digit_str(n % 10));
    } else if n >= 10 {
        text.append(digit_str(n / 10));
        text.append(digit_str(n % 10));
    } else {
        text.append(digit_str(n));
    }
}

/// Why an entry could not be generated.
#[derive(Debug, PartialEq, Eq)]
pub enum EntryError {
    /// The serializer refused the header (bincode does not refuse one).
    Serialization {},
}

/// Whether `magic` is `EMBEDDED_MAGIC`.
pub fn is_embedded_magic(magic: &[u8; 4]) -> (res: bool)
    ensures
        res == (magic@ == magic_bytes()),
        res == (magic[0] == 0xDE && magic[1] == 0xAD && magic[2] == 0xBE && magic[3] == 0xEF),
{
    let m = EMBEDDED_MAGIC;
    assert(m@ == magic_bytes());
    let res = magic[0] == m[0] && magic[1] == m[1] && magic[2] == m[2] && magic[3] == m[3];
    assert(res ==> magic@ =~= magic_bytes());
    res
}

// ---------------------------------------------------------------------------
// The header
// ---------------------------------------------------------------------------

/// The header of a DRS entry.
#[derive(Debug, PartialEq, Eq)]
pub struct DataEntryHeader {
    pub magic: [u8; 4],
    pub checksum: u32,
    pub size: usize,
}

impl DataEntryHeader {
    /// The header holds the embedded magic.
    pub open spec fn has_embedded_magic(&self) -> bool {
        self.magic@ == magic_bytes()
    }

    /// The bytes that the checksum covers when `payload` follows the header.
    pub open spec fn crc_input(&self, payload: Seq<u8>) -> Seq<u8> {
        spec_u64_to_le_bytes(self.size as u64) + payload.subrange(0, self.size as int)
    }

    /// The checksum matches the size field and the first `size` bytes of `payload`.
    pub open spec fn crc_matches(&self, payload: Seq<u8>) -> bool {
        crc32_ieee(self.crc_input(payload)) == self.checksum
    }

    /// The bytes of this header.
    pub open spec fn spec_bytes(&self) -> Seq<u8> {
        header_bytes(self.magic@, self.checksum, self.size as u64)
    }

    /// Whether the header holds `EMBEDDED_MAGIC`.
    pub fn has_magic(&self) -> (res: bool)
        ensures
            res == self.has_embedded_magic(),
            res == (self.magic[0] == 0xDE && self.magic[1] == 0xAD && self.magic[2] == 0xBE
                && self.magic[3] == 0xEF),
    {
        is_embedded_magic(&self.magic)
    }

    /// Whether the checksum matches the size field followed by the first `size`
    /// bytes of `payload`, the bytes that follow the header.
    pub fn is_crc_valid(&self, payload: &[u8]) -> (res: bool)
        requires
            self.size <= payload@.len(),
        ensures
            res == self.crc_matches(payload@),
            res == (crc32_ieee(
                spec_u64_to_le_bytes(self.size as u64) + payload@.subrange(0, self.size as int),
            ) == self.checksum),
    {
        let mut checked = u64_to_le_bytes(self.size as u64);
        let mut data = slice_to_vec(slice_subrange(payload, 0, self.size));
        checked.append(&mut data);
        checksum_ieee(checked.as_slice()) == self.checksum
    }
}

impl DataEntryHeader {
    /// Reads the header at the start of `bytes`: the magic, the little-endian checksum
    /// and the little-endian size. `None` when `bytes` is shorter than a header, or when
    /// the stored size does not fit in a `usize`.
    pub fn from_bytes(bytes: &[u8]) -> (res: Option<DataEntryHeader>)
        ensures
            res is None <==> (bytes@.len() < HEADER_SIZE || stored_size(bytes@) > usize::MAX),
            res matches Some(h) ==> {
                &&& h.magic@ == stored_magic(bytes@)
                &&& h.checksum == stored_checksum(bytes@)
                &&& h.size == stored_size(bytes@)
            },
    {
        if bytes.len() < HEADER_SIZE {
            return None;
        }
        let magic: [u8; 4] = [bytes[0], bytes[1], bytes[2], bytes[3]];
        assert(magic@ =~= stored_magic(bytes@));
        let checksum = u32_from_le_bytes(slice_subrange(bytes, 4, 8));
        let size = u64_from_le_bytes(slice_subrange(bytes, 8, 16));
        if size > usize::MAX as u64 {
            return None;
        }
        Some(DataEntryHeader { magic, checksum, size: size as usize })
    }

    /// Encodes the header with bincode: magic, little-endian checksum, little-endian size.
    pub fn to_bytes(&self) -> (res: Result<Vec<u8>, EntryError>)
        ensures
            res matches Ok(v) && v@ == self.spec_bytes(),
            res matches Ok(v) && {
                &&& v@.len() == HEADER_SIZE
                &&& v@.subrange(0, 4) == self.magic@
                &&& spec_u32_from_le_bytes(v@.subrange(4, 8)) == self.checksum
                &&& spec_u64_from_le_bytes(v@.subrange(8, 16)) == self.size
            },
    {
        proof {
            lemma_header_fields_read_back(*self);
        }
        match bincode_serialize_header(self.magic, self.checksum, self.size as u64) {
            Ok(v) => Ok(v),
            Err(_) => Err(EntryError::Serialization {  }),
        }
    }

    /// Gets the data that follows this header: `payload` is what follows the header in
    /// the section. Fails with `MagicNotFound` (carrying the magic found) when the header
    /// does not hold `EMBEDDED_MAGIC`, and otherwise with `InvalidCRC` when the checksum
    /// does not match the size field followed by the first `size` bytes of `payload`;
    /// else returns those `size` bytes.
    pub fn get_data<'a>(&self, payload: &'a [u8]) -> (res: Result<&'a [u8], ElfReadoError>)
        requires
            self.has_embedded_magic() ==> self.size <= payload@.len(),
        ensures
            !self.has_embedded_magic() ==> res == Err::<&'a [u8], ElfReadoError>(
                ElfReadoError::MagicNotFound { magic_found: self.magic },
            ),
            self.has_embedded_magic() && !self.crc_matches(payload@) ==> res == Err::<
                &'a [u8],
                ElfReadoError,
            >(ElfReadoError::InvalidCRC {  }),
            self.has_embedded_magic() && self.crc_matches(payload@) ==> (res matches Ok(d) && d@
                == payload@.subrange(0, self.size as int)),
    {
        if !self.has_magic() {
            return Err(ElfReadoError::MagicNotFound { magic_found: self.magic });
        }
        if !self.is_crc_valid(payload) {
            return Err(ElfReadoError::InvalidCRC {  });
        }
        Ok(slice_subrange(payload, 0, self.size))
    }

    /// Generates the DRS entry that holds `data`: the header (magic, checksum, size)
    /// followed by the data, where the checksum is the CRC32 of the size field and the
    /// data.
    pub fn generate_entry(data: Vec<u8>) -> (res: Result<Vec<u8>, EntryError>)
        ensures
            res matches Ok(v) && v@ == entry_bytes(data@),
    {
        let ghost d = data@;
        let entry = DataEntryHeader { magic: EMBEDDED_MAGIC, checksum: 0, size: data.len() };
        proof {
            assert(EMBEDDED_MAGIC@ == magic_bytes());
        }
        let mut entry_vec = match entry.to_bytes() {
            Ok(v) => v,
            Err(e) => {
                return Err(e);
            },
        };
        proof {
            lemma_auto_spec_u32_to_from_le_bytes();
            lemma_auto_spec_u64_to_from_le_bytes();
        }
        let ghost size_bytes = spec_u64_to_le_bytes(d.len() as u64);
        assert(entry_vec@.len() == HEADER_SIZE);
        let mut tail = data;
        entry_vec.append(&mut tail);
        assert(entry_vec@.subrange(8, entry_vec@.len() as int) =~= size_bytes + d);
        // Calculate and store the checksum.
        let checksum = checksum_ieee(slice_subrange(entry_vec.as_slice(), CHECK_START_OFFSET, entry_vec.len()));
        let checksum_bytes = u32_to_le_bytes(checksum);
        entry_vec.set(4, checksum_bytes[0]);
        entry_vec.set(5, checksum_bytes[1]);
        entry_vec.set(6, checksum_bytes[2]);
        entry_vec.set(7, checksum_bytes[3]);
        assert(entry_vec@ =~= magic_bytes() + checksum_bytes@ + size_bytes + d);
        Ok(entry_vec)
    }
}

// ---------------------------------------------------------------------------
// Laws of the format
// ---------------------------------------------------------------------------

/// A header's bytes read back as the same header: magic, checksum and size.
pub proof fn lemma_header_roundtrip(magic: Seq<u8>, checksum: u32, size: u64, rest: Seq<u8>)
    requires
        magic.len() == 4,
    ensures
        ({
            let section = header_bytes(magic, checksum, size) + rest;
            &&& section.len() == HEADER_SIZE + rest.len()
            &&& stored_magic(section) == magic
            &&& stored_checksum(section) == checksum
            &&& stored_size(section) == size
            &&& section.subrange(8, 16) == spec_u64_to_le_bytes(size)
            &&& section.subrange(16, section.len() as int) == rest
        }),
{
    lemma_auto_spec_u32_to_from_le_bytes();
    lemma_auto_spec_u64_to_from_le_bytes();
    let section = header_bytes(magic, checksum, size) + rest;
    assert(section.subrange(0, 4) =~= magic);
    assert(section.subrange(4, 8) =~= spec_u32_to_le_bytes(checksum));
    assert(section.subrange(8, 16) =~= spec_u64_to_le_bytes(size));
    assert(section.subrange(16, section.len() as int) =~= rest);
}

/// Reading back what `generate_entry` writes gives the data: a section that starts with
/// the entry of `data` (whatever follows it) is a valid entry whose payload is `data`,
/// and its checksum covers the size field and the data.
pub proof fn lemma_entry_roundtrip(data: Seq<u8>, tail: Seq<u8>)
    requires
        data.len() <= u64::MAX,
    ensures
        entry_status(entry_bytes(data) + tail) == EntryStatus::Valid,
        entry_payload(entry_bytes(data) + tail) == data,
        stored_size(entry_bytes(data) + tail) == data.len(),
        checked_bytes(entry_bytes(data) + tail) == spec_u64_to_le_bytes(data.len() as u64) + data,
        (entry_bytes(data) + tail).subrange(0, 4) == seq![0xDEu8, 0xADu8, 0xBEu8, 0xEFu8],
        spec_u32_from_le_bytes((entry_bytes(data) + tail).subrange(4, 8)) == crc32_ieee(
            spec_u64_to_le_bytes(data.len() as u64) + data,
        ),
        spec_u64_from_le_bytes((entry_bytes(data) + tail).subrange(8, 16)) == data.len(),
        (entry_bytes(data) + tail).subrange(16, 16 + data.len() as int) == data,
{
    let section = entry_bytes(data) + tail;
    let h = header_bytes(magic_bytes(), entry_checksum(data), data.len() as u64);
    assert(section =~= h + (data + tail));
    lemma_header_roundtrip(magic_bytes(), entry_checksum(data), data.len() as u64, data + tail);
    assert(entry_payload(section) =~= data);
    assert(checked_bytes(section) =~= spec_u64_to_le_bytes(data.len() as u64) + data) by {
        assert(section.subrange(8, 16) == spec_u64_to_le_bytes(data.len() as u64));
    }
}

/// A changed magic is reported: overwriting the magic of any section of at least a
/// header's length with four bytes other than the magic makes it `BadMagic`, with the
/// written bytes as the magic found.
pub proof fn lemma_foreign_magic_rejected(section: Seq<u8>, magic: Seq<u8>)
    requires
        section.len() >= HEADER_SIZE,
        magic.len() == 4,
        magic != magic_bytes(),
    ensures
        entry_status(magic + section.subrange(4, section.len() as int)) == EntryStatus::BadMagic,
        stored_magic(magic + section.subrange(4, section.len() as int)) == magic,
{
    let s = magic + section.subrange(4, section.len() as int);
    assert(stored_magic(s) =~= magic);
}

/// A changed checksum is reported: in a valid section, replacing the stored checksum by
/// any other value makes the section `BadChecksum`.
pub proof fn lemma_changed_checksum_rejected(section: Seq<u8>, checksum: u32)
    requires
        entry_status(section) == EntryStatus::Valid,
        checksum != stored_checksum(section),
    ensures
        entry_status(
            section.subrange(0, 4) + spec_u32_to_le_bytes(checksum) + section.subrange(
                8,
                section.len() as int,
            ),
        ) == EntryStatus::BadChecksum,
{
    lemma_auto_spec_u32_to_from_le_bytes();
    let s = section.subrange(0, 4) + spec_u32_to_le_bytes(checksum) + section.subrange(
        8,
        section.len() as int,
    );
    assert(s.len() == section.len());
    assert(s.subrange(0, 4) =~= section.subrange(0, 4));
    assert(s.subrange(4, 8) =~= spec_u32_to_le_bytes(checksum));
    assert(s.subrange(8, 16) =~= section.subrange(8, 16));
    assert(checked_bytes(s) =~= checked_bytes(section));
}

/// Every change of a single byte of a generated entry's checksum or data is detected:
/// a section that starts with the entry of `data` and has one byte of its checksum field
/// or of its data changed is `BadChecksum`, whatever bytes follow the entry.
pub proof fn lemma_single_byte_change_rejected(data: Seq<u8>, tail: Seq<u8>, i: int, x: u8)
    requires
        data.len() <= u64::MAX,
        (4 <= i < 8 || 16 <= i < 16 + data.len()),
        x != (entry_bytes(data) + tail)[i],
    ensures
        entry_status((entry_bytes(data) + tail).update(i, x)) == EntryStatus::BadChecksum,
{
    let section = entry_bytes(data) + tail;
    let changed = section.update(i, x);
    lemma_entry_roundtrip(data, tail);
    assert(changed.subrange(0, 4) =~= section.subrange(0, 4));
    if i < 8 {
        lemma_auto_spec_u32_to_from_le_bytes();
        let old_field = section.subrange(4, 8);
        let new_field = changed.subrange(4, 8);
        assert(new_field =~= old_field.update(i - 4, x));
        assert(new_field != old_field) by {
            assert(new_field[i - 4] != old_field[i - 4]);
        }
        let checksum = spec_u32_from_le_bytes(new_field);
        assert(spec_u32_to_le_bytes(checksum) == new_field);
        assert(spec_u32_to_le_bytes(stored_checksum(section)) == old_field);
        assert(checksum != stored_checksum(section));
        assert(changed =~= section.subrange(0, 4) + spec_u32_to_le_bytes(checksum)
            + section.subrange(8, section.len() as int));
        lemma_changed_checksum_rejected(section, checksum);
    } else {
        assert(changed.subrange(4, 8) =~= section.subrange(4, 8));
        assert(changed.subrange(8, 16) =~= section.subrange(8, 16));
        let checked = checked_bytes(section);
        assert(checked_bytes(changed) =~= checked.update(i - 8, x));
        lemma_crc32_detects_single_byte_change(checked, i - 8, x);
    }
}

/// A header holds the magic exactly when all four of its magic bytes are `DE AD BE EF`.
pub proof fn lemma_magic_is_exact(h: DataEntryHeader)
    ensures
        h.has_embedded_magic() <==> (h.magic@[0] == 0xDE && h.magic@[1] == 0xAD && h.magic@[2]
            == 0xBE && h.magic@[3] == 0xEF),
{
    if h.magic@[0] == 0xDE && h.magic@[1] == 0xAD && h.magic@[2] == 0xBE && h.magic@[3] == 0xEF {
        assert(h.magic@ =~= magic_bytes());
    }
}

/// A header's bytes hold its fields: the magic, then the checksum as four little-endian
/// bytes, then the size as eight little-endian bytes; reading them back gives every field,
/// the whole size included.
pub proof fn lemma_header_fields_read_back(h: DataEntryHeader)
    ensures
        h.spec_bytes().len() == HEADER_SIZE,
        h.spec_bytes().subrange(0, 4) == h.magic@,
        spec_u32_from_le_bytes(h.spec_bytes().subrange(4, 8)) == h.checksum,
        spec_u64_from_le_bytes(h.spec_bytes().subrange(8, 16)) == h.size,
        stored_magic(h.spec_bytes()) == h.magic@,
        stored_checksum(h.spec_bytes()) == h.checksum,
        stored_size(h.spec_bytes()) == h.size,
{
    lemma_header_roundtrip(h.magic@, h.checksum, h.size as u64, Seq::empty());
    assert(h.spec_bytes() + Seq::<u8>::empty() =~= h.spec_bytes());
}

/// Whether a header's checksum matches depends only on its size field and the first
/// `size` bytes that follow it: it is the CRC-32 of exactly those bytes compared with
/// the checksum, so bytes appended after the data never change it.
pub proof fn lemma_crc_covers_only_announced_bytes(
    h: DataEntryHeader,
    payload: Seq<u8>,
    tail: Seq<u8>,
)
    requires
        h.size <= payload.len(),
    ensures
        h.crc_matches(payload) <==> crc32_ieee(
            spec_u64_to_le_bytes(h.size as u64) + payload.subrange(0, h.size as int),
        ) == h.checksum,
        h.crc_matches(payload + tail) == h.crc_matches(payload),
{
    assert((payload + tail).subrange(0, h.size as int) =~= payload.subrange(0, h.size as int));
}

/// The header of a generated entry accepts the entry's data, whatever bytes follow it:
/// it holds the magic and its checksum matches the data followed by any bytes.
pub proof fn lemma_generated_header_accepts_data(data: Seq<u8>, tail: Seq<u8>)
    requires
        data.len() <= usize::MAX,
    ensures
        ({
            let h = DataEntryHeader {
                magic: [0xDEu8, 0xADu8, 0xBEu8, 0xEFu8],
                checksum: crc32_ieee(spec_u64_to_le_bytes(data.len() as u64) + data),
                size: data.len() as usize,
            };
            &&& h.has_embedded_magic()
            &&& h.crc_matches(data + tail)
        }),
{
    let h = DataEntryHeader {
        magic: [0xDEu8, 0xADu8, 0xBEu8, 0xEFu8],
        checksum: crc32_ieee(spec_u64_to_le_bytes(data.len() as u64) + data),
        size: data.len() as usize,
    };
    lemma_magic_is_exact(h);
    assert((data + tail).subrange(0, data.len() as int) =~= data);
}

/// The number that a string of decimal digits reads as.
pub open spec fn decimal_value(digits: Seq<char>) -> int
    decreases digits.len(),
{
    if digits.len() == 0 {
        0
    } else {
        decimal_value(digits.drop_last()) * 10 + (digits.last() as int - 48)
    }
}

/// The decimal form of a byte, as the magic found is printed in a message, is one to
/// three digits `0`..`9` (character codes 48 to 57), starts with `0` only when it is `0`,
/// and reads back as the byte.
pub proof fn lemma_decimal_reads_back(n: u8)
    ensures
        1 <= decimal(n).len() <= 3,
        forall|i: int|
            0 <= i < decimal(n).len() ==> 48 <= (#[trigger] decimal(n)[i]) as int <= 57,
        decimal(n)[0] as int == 48 ==> n == 0,
        decimal_value(decimal(n)) == n,
{
    let s = decimal(n);
    assert forall|d: int| 0 <= d < 10 implies (#[trigger] digit_char(d)) as int == d + 48 by {
        assert(((d + 48) as char) as int == d + 48);
    }
    if n >= 100 {
        let s2 = s.drop_last();
        let s1 = s2.drop_last();
        assert(s1.drop_last() =~= Seq::<char>::empty());
        assert(decimal_value(s1) == decimal_value(s1.drop_last()) * 10 + (s1.last() as int - 48));
        assert(s1.last() == digit_char((n / 100) as int));
        assert(decimal_value(s1) == (n / 100) as int);
        assert(s2.last() == digit_char(((n / 10) % 10) as int));
        assert(decimal_value(s2) == decimal_value(s1) * 10 + (s2.last() as int - 48));
        assert(decimal_value(s2) == (n / 100) as int * 10 + ((n / 10) % 10) as int);
        assert(s.last() == digit_char((n % 10) as int));
        assert(decimal_value(s) == decimal_value(s2) * 10 + (s.last() as int - 48));
        assert(((n / 100) as int * 10 + ((n / 10) % 10) as int) * 10 + (n % 10) as int == n)
            by (nonlinear_arith);
    } else if n >= 10 {
        let s1 = s.drop_last();
        assert(s1.drop_last() =~= Seq::<char>::empty());
        assert(decimal_value(s1) == decimal_value(s1.drop_last()) * 10 + (s1.last() as int - 48));
        assert(s1.last() == digit_char((n / 10) as int));
        assert(decimal_value(s1) == (n / 10) as int);
        assert(s.last() == digit_char((n % 10) as int));
        assert(decimal_value(s) == decimal_value(s1) * 10 + (s.last() as int - 48));
        assert((n / 10) as int * 10 + (n % 10) as int == n) by (nonlinear_arith);
    } else {
        assert(s.drop_last() =~= Seq::<char>::empty());
        assert(s.last() == digit_char(n as int));
        assert(decimal_value(s) == decimal_value(s.drop_last()) * 10 + (s.last() as int - 48));
    }
}

} // verus!
