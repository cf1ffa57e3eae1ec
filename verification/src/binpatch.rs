//! The objcopy command lines that read and replace an ELF section.
//!
//! Running objcopy and moving the section's bytes through a temporary file is the
//! caller's part; this module builds the arguments.
use vstd::prelude::*;
use vstd::string::*;

verus! {

/// Where objcopy is run from.
pub const OBJCOPY_PATH: &'static str = "/usr/bin/objcopy";

/// objcopy's argument that pairs a section with a file: `section_name=file_path`.
pub fn section_file_arg(section_name: &str, file_path: &str) -> (res: String)
    ensures
        res@ == section_name@ + seq!['='] + file_path@,
{
    let mut arg = section_name.to_owned();
    arg.append("=");
    arg.append(file_path);
    proof {
        reveal_strlit("=");
    }
    arg
}

/// objcopy's arguments that dump the section `section_name` of `elf_file` into
/// `file_path`: the ELF, `--dump-section`, and `section_name=file_path`.
pub fn dump_section_args(elf_file: &str, section_name: &str, file_path: &str) -> (res: Vec<String>)
    ensures
        res@.len() == 3,
        res@[0]@ == elf_file@,
        res@[1]@ == "--dump-section"@,
        res@[2]@ == section_name@ + seq!['='] + file_path@,
{
    let mut args: Vec<String> = Vec::new();
    args.push(elf_file.to_owned());
    args.push("--dump-section".to_owned());
    args.push(section_file_arg(section_name, file_path));
    args
}

/// objcopy's arguments that replace the contents of the section `section_name` of
/// `elf_file` by those of `file_path`: the ELF, `--update-section`, and
/// `section_name=file_path`.
pub fn update_section_args(elf_file: &str, section_name: &str, file_path: &str) -> (res: Vec<
    String,
>)
    ensures
        res@.len() == 3,
        res@[0]@ == elf_file@,
        res@[1]@ == "--update-section"@,
        res@[2]@ == section_name@ + seq!['='] + file_path@,
{
    let mut args: Vec<String> = Vec::new();
    args.push(elf_file.to_owned());
    args.push("--update-section".to_owned());
    args.push(section_file_arg(section_name, file_path));
    args
}

} // verus!
