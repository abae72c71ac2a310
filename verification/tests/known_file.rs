use lib::file_manip::{KnownFile, SaveOutcome};
use lib::shrub::TErrors;

fn pair(k: &str, v: &str) -> (String, String) {
    (k.to_string(), v.to_string())
}

fn empty_file(path: &str) -> KnownFile {
    KnownFile { path: path.to_string(), content: Vec::new() }
}

#[test]
fn known_file_truncate_clears_memory() {
    let mut kf = empty_file("./data.dat");
    kf.append_contents("a".to_string(), "1".to_string());
    kf.truncate_contents();
    assert!(kf.get_contents().is_empty());
    assert_eq!(kf.get_path(), "./data.dat");
}

#[test]
fn known_file_get_and_set_path() {
    let mut kf = empty_file("./old.dat");
    assert_eq!(kf.get_path(), "./old.dat");
    kf.set_path("./new.dat".to_string());
    assert_eq!(kf.get_path(), "./new.dat");
}

#[test]
fn known_file_set_and_get_contents() {
    let mut kf = empty_file("./data.dat");
    kf.set_contents(vec![pair("x", "10")]);
    assert_eq!(kf.get_contents(), [pair("x", "10")]);
}

#[test]
fn known_file_append_keeps_order() {
    let mut kf = empty_file("./data.dat");
    kf.append_contents("version".to_string(), "1.0".to_string());
    kf.append_contents("a".to_string(), "1".to_string());
    assert_eq!(kf.get_contents(), [pair("version", "1.0"), pair("a", "1")]);
}

#[test]
fn known_file_remove_contents_drops_every_match() {
    let mut kf = empty_file("./data.dat");
    kf.append_contents("keep".to_string(), "this".to_string());
    kf.append_contents("remove".to_string(), "me".to_string());
    kf.append_contents("other".to_string(), "x".to_string());
    kf.append_contents("remove".to_string(), "again".to_string());
    kf.remove_contents("remove");
    assert_eq!(kf.get_contents(), [pair("keep", "this"), pair("other", "x")]);
    kf.remove_contents("absent");
    assert_eq!(kf.get_contents(), [pair("keep", "this"), pair("other", "x")]);
}

#[test]
fn known_file_update_by_key_in_place() {
    let mut kf = empty_file("./data.dat");
    kf.append_contents("a".to_string(), "1".to_string());
    kf.append_contents("score".to_string(), "10".to_string());
    kf.append_contents("score".to_string(), "20".to_string());
    assert_eq!(kf.update_by_key("score".to_string(), "99".to_string()), Ok(()));
    assert_eq!(kf.get_contents(), [pair("a", "1"), pair("score", "99"), pair("score", "20")]);
}

#[test]
fn known_file_update_by_key_missing_is_index_error() {
    let mut kf = empty_file("./data.dat");
    kf.append_contents("a".to_string(), "1".to_string());
    assert_eq!(kf.update_by_key("b".to_string(), "2".to_string()), Err(TErrors::IndexError));
    assert_eq!(kf.get_contents(), [pair("a", "1")]);
}

#[test]
fn known_file_init_reports_create_error() {
    match KnownFile::init("./x.dat".to_string(), false) {
        Err(e) => assert_eq!(e, TErrors::FileCreateError),
        Ok(_) => panic!("expected FileCreateError"),
    }
    let kf = KnownFile::init("./x.dat".to_string(), true).ok().unwrap();
    assert_eq!(kf.get_path(), "./x.dat");
    assert!(kf.get_contents().is_empty());
}

#[test]
fn known_file_to_bytes_exact_layout() {
    let mut kf = empty_file("./data.dat");
    kf.append_contents("ab".to_string(), "xyz".to_string());
    let expected: Vec<u8> = vec![2, 0, 0, 0, b'a', b'b', 3, 0, 0, 0, b'x', b'y', b'z'];
    assert_eq!(kf.to_bytes(), expected);
}

#[test]
fn known_file_read_file_empty_empties_memory() {
    let mut kf = empty_file("./data.dat");
    kf.append_contents("a".to_string(), "1".to_string());
    assert_eq!(kf.read_file(&[]), Err(TErrors::ContentsEmpty));
    assert!(kf.get_contents().is_empty());
}

#[test]
fn known_file_read_file_replaces_memory() {
    let mut source = empty_file("./data.dat");
    source.append_contents("lang".to_string(), "Rust".to_string());
    source.append_contents("ñandú".to_string(), "ave".to_string());
    let bytes = source.to_bytes();
    let mut kf = empty_file("./data.dat");
    kf.append_contents("old".to_string(), "gone".to_string());
    assert_eq!(kf.read_file(&bytes), Ok(()));
    assert_eq!(kf.get_contents(), [pair("lang", "Rust"), pair("ñandú", "ave")]);
}

#[test]
fn known_file_read_file_ignores_malformed_last_record() {
    let mut bytes: Vec<u8> = vec![1, 0, 0, 0, b'k', 1, 0, 0, 0, b'v'];
    bytes.extend_from_slice(&[1, 0, 0, 0, 0xff, 1, 0, 0, 0, b'w']);
    let mut kf = empty_file("./data.dat");
    assert_eq!(kf.read_file(&bytes), Ok(()));
    assert_eq!(kf.get_contents(), [pair("k", "v")]);
}

#[test]
fn known_file_read_file_malformed_middle_record_is_read_error() {
    let mut bytes: Vec<u8> = vec![1, 0, 0, 0, 0xff, 1, 0, 0, 0, b'w'];
    bytes.extend_from_slice(&[1, 0, 0, 0, b'k', 1, 0, 0, 0, b'v']);
    let mut kf = empty_file("./data.dat");
    kf.append_contents("old".to_string(), "x".to_string());
    assert_eq!(kf.read_file(&bytes), Err(TErrors::ReadBytesError));
    assert_eq!(kf.get_contents(), [pair("old", "x")]);
}

#[test]
fn known_file_read_file_lone_malformed_record_reads_nothing() {
    let mut kf = empty_file("./data.dat");
    kf.append_contents("old".to_string(), "x".to_string());
    assert_eq!(kf.read_file(&[1, 0, 0, 0, 0xff, 9, 0]), Ok(()));
    assert!(kf.get_contents().is_empty());
}

#[test]
fn known_file_read_file_ignores_truncated_tail() {
    let mut bytes: Vec<u8> = vec![1, 0, 0, 0, b'k', 1, 0, 0, 0, b'v'];
    bytes.extend_from_slice(&[5, 0, 0, 0, b'a', b'b']);
    let mut kf = empty_file("./data.dat");
    assert_eq!(kf.read_file(&bytes), Ok(()));
    assert_eq!(kf.get_contents(), [pair("k", "v")]);
}

#[test]
fn save_outcome_errors() {
    assert_eq!(SaveOutcome::Saved.create_file(), Ok(()));
    assert_eq!(SaveOutcome::TempFailed.create_file(), Err(TErrors::TempCreate));
    assert_eq!(SaveOutcome::RenameFailed.create_file(), Err(TErrors::TempReplace));
}
