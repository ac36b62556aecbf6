use unzipper::sanitize::sanitize;

#[test]
fn plain_relative_name_accepted() {
    let r = sanitize(&b"dir/sub/file.txt".to_vec()).unwrap();
    assert_eq!(r, vec![b"dir".to_vec(), b"sub".to_vec(), b"file.txt".to_vec()]);
}

#[test]
fn dot_and_empty_components_dropped() {
    let r = sanitize(&b"a//./b/".to_vec()).unwrap();
    assert_eq!(r, vec![b"a".to_vec(), b"b".to_vec()]);
}

#[test]
fn parent_component_rejected() {
    assert!(sanitize(&b"a/../../etc/passwd".to_vec()).is_none());
    assert!(sanitize(&b"../x".to_vec()).is_none());
    assert!(sanitize(&b"a/..".to_vec()).is_none());
}

#[test]
fn backslash_is_a_separator() {
    let r = sanitize(&b"a\\b\\c.txt".to_vec()).unwrap();
    assert_eq!(r, vec![b"a".to_vec(), b"b".to_vec(), b"c.txt".to_vec()]);
    assert!(sanitize(&b"a\\..\\b".to_vec()).is_none());
}

#[test]
fn absolute_names_rejected() {
    assert!(sanitize(&b"/etc/passwd".to_vec()).is_none());
    assert!(sanitize(&b"\\windows\\system32".to_vec()).is_none());
}

#[test]
fn drive_and_volume_names_rejected() {
    assert!(sanitize(&b"C:\\temp\\x".to_vec()).is_none());
    assert!(sanitize(&b"c:relative".to_vec()).is_none());
}

#[test]
fn nul_byte_rejected() {
    assert!(sanitize(&b"a\0b".to_vec()).is_none());
}

#[test]
fn dotted_file_names_kept() {
    let r = sanitize(&b"a/..hidden/file..txt".to_vec()).unwrap();
    assert_eq!(r, vec![b"a".to_vec(), b"..hidden".to_vec(), b"file..txt".to_vec()]);
}

#[test]
fn empty_name_yields_no_components() {
    let r = sanitize(&b"".to_vec()).unwrap();
    assert_eq!(r, Vec::<Vec<u8>>::new());
}
