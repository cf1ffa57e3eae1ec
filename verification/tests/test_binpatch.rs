use elfredo::binpatch::{dump_section_args, section_file_arg, update_section_args, OBJCOPY_PATH};

#[test]
fn section_file_arg_joins_with_equals() {
    assert_eq!(section_file_arg(".extended", "/tmp/x"), ".extended=/tmp/x");
    assert_eq!(section_file_arg("", ""), "=");
}

#[test]
fn dump_args() {
    assert_eq!(
        dump_section_args("app.elf", ".extended", "/tmp/.tmpXh5QHg"),
        vec!["app.elf", "--dump-section", ".extended=/tmp/.tmpXh5QHg"]
    );
}

#[test]
fn update_args() {
    assert_eq!(
        update_section_args("../target/debug/example", ".data", "/tmp/t"),
        vec!["../target/debug/example", "--update-section", ".data=/tmp/t"]
    );
}

#[test]
fn objcopy_path() {
    assert_eq!(OBJCOPY_PATH, "/usr/bin/objcopy");
}
