use ferret::perms::{explain_permissions, format_permissions};

fn text(v: Vec<u8>) -> String {
    String::from_utf8(v).unwrap()
}

#[test]
fn regular_file_modes() {
    assert_eq!(text(format_permissions(0o100644)), "-rw-r--r--");
    assert_eq!(text(format_permissions(0o100755)), "-rwxr-xr-x");
    assert_eq!(text(format_permissions(0o100000)), "----------");
}

#[test]
fn directory_and_symlink_modes() {
    assert_eq!(text(format_permissions(0o040755)), "drwxr-xr-x");
    assert_eq!(text(format_permissions(0o120777)), "lrwxrwxrwx");
}

#[test]
fn explanation_spells_out_classes() {
    assert_eq!(
        text(explain_permissions(0o644)),
        "(owner:rw-, group:r--, other:r--)"
    );
    assert_eq!(
        text(explain_permissions(0o750)),
        "(owner:rwx, group:r-x, other:---)"
    );
}
