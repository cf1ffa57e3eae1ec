//! Elfredo: data embedded in an executable's `.extended` section, which can be
//! replaced after the executable was built.
//!
//! The section holds a DRS entry (see [`data_entry`]): a header with a magic, a
//! checksum and the data's size, followed by the data. [`get_embedded_data`] reads the
//! data back from the section's bytes, [`data_entry::DataEntryHeader::generate_entry`]
//! builds the entry that holds given data.
use vstd::prelude::*;
use vstd::slice::*;

pub mod binpatch;
pub mod checksum;
pub mod data_entry;
pub mod person;

use crate::data_entry::{
    entry_payload,
    entry_status,
    error_of_section,
    is_embedded_magic,
    DataEntryHeader,
    ElfReadoError,
    EntryStatus,
    HEADER_SIZE,
};

verus! {

/// Gets the data embedded in a section whose bytes are `section`: checks that the
/// section holds the header, that the header holds the magic, that the section holds the
/// data the header announces and that the checksum matches, and returns the data.
pub fn get_embedded_data(section: &[u8]) -> (res: Result<&[u8], ElfReadoError>)
    ensures
        (entry_status(section@) == EntryStatus::Valid) <==> res is Ok,
        res matches Ok(d) ==> d@ == entry_payload(section@),
        res matches Err(e) ==> error_of_section(e, section@),
{
    if section.len() < HEADER_SIZE {
        return Err(ElfReadoError::SectionTooShort {  });
    }
    let magic_found: [u8; 4] = [section[0], section[1], section[2], section[3]];
    assert(magic_found@ =~= section@.subrange(0, 4));
    if !is_embedded_magic(&magic_found) {
        return Err(ElfReadoError::MagicNotFound { magic_found });
    }
    let header = match DataEntryHeader::from_bytes(section) {
        Some(h) => h,
        None => {
            return Err(ElfReadoError::SectionTooShort {  });
        },
    };
    if header.size > section.len() - HEADER_SIZE {
        return Err(ElfReadoError::SectionTooShort {  });
    }
    let payload = slice_subrange(section, HEADER_SIZE, section.len());
    proof {
        vstd::bytes::lemma_auto_spec_u64_to_from_le_bytes();
        assert(header.crc_input(payload@) =~= data_entry::checked_bytes(section@));
    }
    header.get_data(payload)
}

} // verus!
