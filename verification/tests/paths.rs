use std::path::PathBuf;

#[test]
fn empty_dir() {
    assert!(!PathBuf::from("/tmp/aidbox-tool-text").exists());
}
