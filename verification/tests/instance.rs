use lib::codec::{decode_contents, encode_contents};
use lib::file_manip::{KnownFile, LoadOutcome, SaveOutcome};
use lib::shrub::{Action, Event, Instance, Logger, TErrors};
use std::collections::HashMap;

const PATH: &str = "./default.dat";

/// A file system in memory that answers the actions of an instance.
struct Disk {
    files: HashMap<String, Vec<u8>>,
    unreadable: bool,
    fail_temp: bool,
    fail_rename: bool,
    fail_remove: bool,
}

impl Disk {
    fn new() -> Disk {
        let mut files = HashMap::new();
        files.insert(PATH.to_string(), Vec::new());
        Disk { files, unreadable: false, fail_temp: false, fail_rename: false, fail_remove: false }
    }

    fn entries(&self) -> Vec<(String, String)> {
        let (c, readable) = decode_contents(self.files.get(PATH).unwrap());
        assert!(readable);
        c
    }
}

fn drive(db: &mut Instance, disk: &mut Disk, first: Action) -> Result<(), TErrors> {
    let mut action = first;
    loop {
        let event = match action {
            Action::Finish(r) => return r,
            Action::Load(p) => Event::Loaded(if disk.unreadable {
                LoadOutcome::Unreadable
            } else {
                match disk.files.get(&p) {
                    None => LoadOutcome::Missing,
                    Some(b) => LoadOutcome::Bytes(b.clone()),
                }
            }),
            Action::Save(p, b) => Event::Stored(if disk.fail_temp {
                SaveOutcome::TempFailed
            } else if disk.fail_rename {
                SaveOutcome::RenameFailed
            } else {
                disk.files.insert(p, b);
                SaveOutcome::Saved
            }),
            Action::Remove(p) => Event::Removed(!disk.fail_remove && disk.files.remove(&p).is_some()),
        };
        assert!(db.accepts(&event));
        action = db.resume(event);
    }
}

fn fresh() -> Instance {
    Instance::new(KnownFile::init(PATH.to_string(), true).ok().unwrap())
}

fn pair(k: &str, v: &str) -> (String, String) {
    (k.to_string(), v.to_string())
}

fn write(db: &mut Instance, disk: &mut Disk) -> Result<(), TErrors> {
    let a = db.write_pair();
    drive(db, disk, a)
}

fn update(db: &mut Instance, disk: &mut Disk) -> Result<(), TErrors> {
    let a = db.update_pair();
    drive(db, disk, a)
}

fn delete(db: &mut Instance, disk: &mut Disk) -> Result<(), TErrors> {
    let a = db.delete_pair();
    drive(db, disk, a)
}

fn read(db: &mut Instance, disk: &mut Disk) -> Result<(), TErrors> {
    let a = db.read_data();
    drive(db, disk, a)
}

#[test]
fn instance_new_defaults() {
    let db = fresh();
    assert_eq!(db.get_file_path(), PATH);
    assert_eq!(db.get_key(), "");
    assert_eq!(db.get_value(), "");
    assert!(db.get_log());
    assert!(db.get_file_content().is_empty());
    assert!(db.get_logger().get_added().is_empty());
    assert!(!db.accepts(&Event::Removed(true)));
}

#[test]
fn instance_quick_start_flow() {
    let mut disk = Disk::new();
    let mut db = fresh();
    db.set_key_value("name".to_string(), "Alice".to_string());
    assert_eq!(write(&mut db, &mut disk), Ok(()));
    assert_eq!(disk.entries(), [pair("name", "Alice")]);
    db.set_key_value("name".to_string(), "Bob".to_string());
    assert_eq!(update(&mut db, &mut disk), Ok(()));
    assert_eq!(disk.entries(), [pair("name", "Bob")]);
    db.set_key("name".to_string());
    assert_eq!(delete(&mut db, &mut disk), Ok(()));
    assert!(disk.entries().is_empty());
    assert!(db.get_file_content().is_empty());
    let logger = db.get_logger();
    assert_eq!(logger.get_added(), [pair("name", "Alice")]);
    assert_eq!(logger.get_updated(), [pair("name", "Bob")]);
    assert_eq!(logger.get_deleted(), [pair("name", "Bob")]);
}

#[test]
fn instance_write_existing_key_is_noop() {
    let mut disk = Disk::new();
    let mut db = fresh();
    db.set_key_value("fruit".to_string(), "apple".to_string());
    assert_eq!(write(&mut db, &mut disk), Ok(()));
    db.set_value("banana".to_string());
    let a = db.write_pair();
    assert!(matches!(a, Action::Finish(Ok(()))));
    assert_eq!(db.get_file().get_contents()[0].1, "apple");
    assert_eq!(db.get_file_content().len(), 1);
    assert_eq!(disk.entries(), [pair("fruit", "apple")]);
    assert_eq!(db.get_logger().get_added(), [pair("fruit", "apple"), pair("fruit", "banana")]);
}

#[test]
fn instance_write_new_key_asks_to_save() {
    let mut disk = Disk::new();
    let mut db = fresh();
    assert_eq!(read(&mut db, &mut disk), Ok(()));
    db.set_key_value("k".to_string(), "v".to_string());
    match db.write_pair() {
        Action::Save(p, b) => {
            assert_eq!(p, PATH);
            assert_eq!(b, vec![1, 0, 0, 0, b'k', 1, 0, 0, 0, b'v']);
        },
        _ => panic!("expected a save"),
    }
}

#[test]
fn instance_writes_many_and_second_instance_reads_back() {
    let mut disk = Disk::new();
    let mut db = fresh();
    for (k, v) in [("username", "alice"), ("language", "Rust"), ("version", "1.0")] {
        db.set_key_value(k.to_string(), v.to_string());
        assert_eq!(write(&mut db, &mut disk), Ok(()));
    }
    let mut db2 = fresh();
    assert_eq!(read(&mut db2, &mut disk), Ok(()));
    assert_eq!(
        db2.get_file().get_contents(),
        [pair("username", "alice"), pair("language", "Rust"), pair("version", "1.0")]
    );
    assert_eq!(db2.get_file_content()[0].0, "username");
}

#[test]
fn instance_logging_disabled_records_nothing() {
    let mut disk = Disk::new();
    let mut db = fresh();
    db.set_log(false);
    assert!(!db.get_log());
    db.set_key_value("key".to_string(), "value".to_string());
    assert_eq!(write(&mut db, &mut disk), Ok(()));
    assert_eq!(update(&mut db, &mut disk), Ok(()));
    assert_eq!(delete(&mut db, &mut disk), Ok(()));
    let logger = db.get_logger();
    assert!(logger.get_added().is_empty());
    assert!(logger.get_updated().is_empty());
    assert!(logger.get_deleted().is_empty());
    assert!(logger.get_read().is_empty());
}

#[test]
fn instance_delete_logs_notes() {
    let mut disk = Disk::new();
    let mut db = fresh();
    db.set_key("x".to_string());
    assert_eq!(delete(&mut db, &mut disk), Ok(()));
    db.set_key_value("a".to_string(), "1".to_string());
    assert_eq!(write(&mut db, &mut disk), Ok(()));
    db.set_key("x".to_string());
    assert_eq!(delete(&mut db, &mut disk), Ok(()));
    assert_eq!(
        db.get_logger().get_deleted(),
        [pair("x", "DB is empty"), pair("x", "DB read. Does not contain: x")]
    );
    assert_eq!(disk.entries(), [pair("a", "1")]);
}

#[test]
fn instance_update_inserts_missing_key() {
    let mut disk = Disk::new();
    let mut db = fresh();
    db.set_key_value("score".to_string(), "10".to_string());
    assert_eq!(update(&mut db, &mut disk), Ok(()));
    db.set_key_value("other".to_string(), "1".to_string());
    assert_eq!(update(&mut db, &mut disk), Ok(()));
    db.set_key_value("score".to_string(), "99".to_string());
    assert_eq!(update(&mut db, &mut disk), Ok(()));
    assert_eq!(disk.entries(), [pair("score", "99"), pair("other", "1")]);
    assert_eq!(db.get_logger().get_updated().len(), 3);
}

#[test]
fn instance_setters_trim() {
    let mut db = fresh();
    db.set_key_value("  animal ".to_string(), "\tcat\n".to_string());
    assert_eq!(db.get_key(), "animal");
    assert_eq!(db.get_value(), "cat");
    db.set_key(" color".to_string());
    assert_eq!(db.get_key(), "color");
    db.set_value("blue  ".to_string());
    assert_eq!(db.get_value(), "blue");
}

#[test]
fn instance_read_data_is_noop_when_current() {
    let mut disk = Disk::new();
    let mut db = fresh();
    assert_eq!(read(&mut db, &mut disk), Ok(()));
    disk.unreadable = true;
    assert!(matches!(db.read_data(), Action::Finish(Ok(()))));
}

#[test]
fn instance_read_data_creates_missing_file() {
    let mut disk = Disk::new();
    disk.files.clear();
    let mut db = fresh();
    db.set_file_content(vec![pair("a", "1")]);
    assert_eq!(read(&mut db, &mut disk), Ok(()));
    assert_eq!(disk.files.get(PATH), Some(&Vec::new()));
    assert!(db.get_file_content().is_empty());
}

#[test]
fn instance_empty_file_empties_memory() {
    let mut disk = Disk::new();
    let mut db = fresh();
    db.set_file_content(vec![pair("a", "1")]);
    assert_eq!(read(&mut db, &mut disk), Ok(()));
    assert!(db.get_file_content().is_empty());
}

#[test]
fn instance_unreadable_file_is_read_error() {
    let mut disk = Disk::new();
    disk.unreadable = true;
    let mut db = fresh();
    db.set_key_value("a".to_string(), "1".to_string());
    assert_eq!(write(&mut db, &mut disk), Err(TErrors::ReadBytesError));
    assert!(db.get_logger().get_added().is_empty());
}

#[test]
fn instance_malformed_last_record_is_ignored() {
    let mut disk = Disk::new();
    disk.files.insert(
        PATH.to_string(),
        vec![1, 0, 0, 0, 0x61, 1, 0, 0, 0, 0x31, 1, 0, 0, 0, 0xff, 1, 0, 0, 0, 0x32],
    );
    let mut db = fresh();
    assert_eq!(read(&mut db, &mut disk), Ok(()));
    assert_eq!(db.get_file_content(), [pair("a", "1")]);
    let mut db2 = fresh();
    disk.files.insert(PATH.to_string(), vec![1, 0, 0, 0, 0xff, 0, 0]);
    assert_eq!(read(&mut db2, &mut disk), Ok(()));
    assert!(db2.get_file_content().is_empty());
}

#[test]
fn instance_malformed_middle_record_is_read_error() {
    let mut disk = Disk::new();
    let mut bytes: Vec<u8> = vec![1, 0, 0, 0, 0xff, 1, 0, 0, 0, 0x32];
    bytes.extend_from_slice(&encode_contents(&vec![pair("b", "2")]));
    disk.files.insert(PATH.to_string(), bytes);
    let mut db = fresh();
    db.set_file_content(vec![pair("m", "1")]);
    assert_eq!(read(&mut db, &mut disk), Err(TErrors::ReadBytesError));
    assert_eq!(db.get_file_content(), [pair("m", "1")]);
    match db.read_data() {
        Action::Load(p) => assert_eq!(p, PATH),
        _ => panic!("expected the file to be read again"),
    }
}

#[test]
fn instance_failed_temp_is_temp_create() {
    let mut disk = Disk::new();
    let mut db = fresh();
    assert_eq!(read(&mut db, &mut disk), Ok(()));
    disk.fail_temp = true;
    db.set_key_value("a".to_string(), "1".to_string());
    assert_eq!(write(&mut db, &mut disk), Err(TErrors::TempCreate));
    assert_eq!(db.get_file_content(), [pair("a", "1")]);
}

#[test]
fn instance_failed_rename_is_temp_replace() {
    let mut disk = Disk::new();
    let mut db = fresh();
    disk.fail_rename = true;
    db.set_key_value("a".to_string(), "1".to_string());
    assert_eq!(update(&mut db, &mut disk), Err(TErrors::TempReplace));
    disk.files.clear();
    let mut db2 = fresh();
    assert_eq!(read(&mut db2, &mut disk), Err(TErrors::TempReplace));
}

#[test]
fn instance_file_blank_then_reload() {
    let mut disk = Disk::new();
    let mut db = fresh();
    db.set_key_value("temp".to_string(), "data".to_string());
    assert_eq!(write(&mut db, &mut disk), Ok(()));
    let a = db.file_blank();
    assert_eq!(drive(&mut db, &mut disk, a), Ok(()));
    assert!(!disk.files.contains_key(PATH));
    assert_eq!(db.get_file_content(), [pair("temp", "data")]);
    let a = db.read_data();
    match &a {
        Action::Load(p) => assert_eq!(p, PATH),
        _ => panic!("expected a load"),
    }
    assert_eq!(drive(&mut db, &mut disk, a), Ok(()));
    assert_eq!(disk.files.get(PATH), Some(&Vec::new()));
    assert!(db.get_file_content().is_empty());
}

#[test]
fn instance_file_blank_failure_is_io_error() {
    let mut disk = Disk::new();
    disk.fail_remove = true;
    let mut db = fresh();
    let a = db.file_blank();
    assert_eq!(drive(&mut db, &mut disk, a), Err(TErrors::FileIOError));
}

#[test]
fn instance_write_file_contents_writes_all() {
    let mut disk = Disk::new();
    disk.files.insert(PATH.to_string(), encode_contents(&vec![pair("seed", "0")]));
    let mut db = fresh();
    db.set_file_content(vec![pair("username", "alice"), pair("language", "Rust")]);
    let a = db.write_file_contents();
    assert_eq!(drive(&mut db, &mut disk, a), Ok(()));
    assert_eq!(disk.entries(), [pair("seed", "0"), pair("username", "alice"), pair("language", "Rust")]);
    assert_eq!(db.get_logger().get_added(), [pair("username", "alice"), pair("language", "Rust")]);
    assert_eq!(db.get_key(), "language");
}

#[test]
fn instance_write_file_contents_with_current_memory() {
    let mut disk = Disk::new();
    let mut db = fresh();
    assert_eq!(read(&mut db, &mut disk), Ok(()));
    db.set_file_content(vec![pair("username", "alice"), pair(" language ", "Rust")]);
    db.set_key_value("extra".to_string(), "1".to_string());
    let a = db.write_file_contents();
    assert_eq!(drive(&mut db, &mut disk, a), Ok(()));
    assert_eq!(
        disk.entries(),
        [pair("username", "alice"), pair(" language ", "Rust"), pair("extra", "1"), pair("language", "Rust")]
    );
    assert_eq!(db.get_key(), "extra");
}

#[test]
fn instance_write_file_contents_over_empty_file_writes_all() {
    let mut disk = Disk::new();
    let mut db = fresh();
    db.set_file_content(vec![pair("username", "alice"), pair("language", "Rust")]);
    assert_eq!(db.get_key(), "");
    let a = db.write_file_contents();
    assert_eq!(drive(&mut db, &mut disk, a), Ok(()));
    assert_eq!(disk.entries(), [pair("username", "alice"), pair("language", "Rust")]);
    assert_eq!(db.get_logger().get_added().len(), 2);
}

#[test]
fn instance_write_file_contents_failure_is_io_error() {
    let mut disk = Disk::new();
    disk.files.insert(PATH.to_string(), encode_contents(&vec![pair("seed", "0")]));
    disk.fail_temp = true;
    let mut db = fresh();
    db.set_file_content(vec![pair("username", "alice")]);
    let a = db.write_file_contents();
    assert_eq!(drive(&mut db, &mut disk, a), Err(TErrors::FileIOError));
}

#[test]
fn instance_kv_to_contents_and_accessors() {
    let mut db = fresh();
    db.set_key_value("country".to_string(), "Spain".to_string());
    db.kv_to_contents();
    assert_eq!(db.get_file().get_contents(), [pair("country", "Spain")]);
    db.set_file_path("./other.dat".to_string());
    assert_eq!(db.get_file_path(), "./other.dat");
    db.set_file(KnownFile { path: "./third.dat".to_string(), content: vec![pair("x", "1")] });
    assert_eq!(db.get_file().get_path(), "./third.dat");
    assert_eq!(db.get_file_content(), [pair("x", "1")]);
    let mut logger = Logger::default();
    logger.add_read(pair("r", "1"));
    db.set_logger(logger);
    assert_eq!(db.get_logger().get_read(), [pair("r", "1")]);
}

#[test]
fn instance_delete_undoes_write_of_new_key() {
    let mut disk = Disk::new();
    let mut db = fresh();
    db.set_key_value("a".to_string(), "1".to_string());
    assert_eq!(write(&mut db, &mut disk), Ok(()));
    db.set_key_value("b".to_string(), "2".to_string());
    assert_eq!(write(&mut db, &mut disk), Ok(()));
    assert_eq!(disk.entries(), [pair("a", "1"), pair("b", "2")]);
    assert_eq!(delete(&mut db, &mut disk), Ok(()));
    assert_eq!(disk.entries(), [pair("a", "1")]);
    assert_eq!(db.get_file_content(), [pair("a", "1")]);
}

#[test]
fn instance_write_pair_persists_after_disk_entries() {
    let mut disk = Disk::new();
    disk.files.insert(PATH.to_string(), encode_contents(&vec![pair("x", "1"), pair("y", "2")]));
    let mut db = fresh();
    db.set_key_value("z".to_string(), "3".to_string());
    let first = db.write_pair();
    match &first {
        Action::Load(p) => assert_eq!(p, PATH),
        _ => panic!("expected a load"),
    }
    assert_eq!(drive(&mut db, &mut disk, first), Ok(()));
    assert_eq!(disk.entries(), [pair("x", "1"), pair("y", "2"), pair("z", "3")]);
    assert_eq!(db.get_file_content(), [pair("x", "1"), pair("y", "2"), pair("z", "3")]);
}
