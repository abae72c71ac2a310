use lib::shrub::{Logger, LoggerActions};

fn pair(k: &str, v: &str) -> (String, String) {
    (k.to_string(), v.to_string())
}

#[test]
fn logger_default_is_empty() {
    let logger = Logger::default();
    assert!(logger.get_read().is_empty());
    assert!(logger.get_added().is_empty());
    assert!(logger.get_deleted().is_empty());
    assert!(logger.get_updated().is_empty());
}

#[test]
fn logger_add_read_records_pair() {
    let mut logger = Logger::default();
    logger.add_read(pair("name", "Alice"));
    assert_eq!(logger.get_read(), [pair("name", "Alice")]);
    assert!(logger.get_added().is_empty());
}

#[test]
fn logger_add_add_records_pair() {
    let mut logger = Logger::default();
    logger.add_add(pair("age", "30"));
    assert_eq!(logger.get_added(), [pair("age", "30")]);
    assert!(logger.get_read().is_empty());
}

#[test]
fn logger_add_deleted_records_pair() {
    let mut logger = Logger::default();
    logger.add_deleted(pair("city", "Madrid"));
    assert_eq!(logger.get_deleted(), [pair("city", "Madrid")]);
}

#[test]
fn logger_add_updated_records_pair() {
    let mut logger = Logger::default();
    logger.add_updated(pair("score", "99"));
    assert_eq!(logger.get_updated(), [pair("score", "99")]);
}

#[test]
fn logger_run_logger_routes_each_action() {
    let mut logger = Logger::default();
    logger.run_logger(LoggerActions::Added, pair("username", "alice"));
    logger.run_logger(LoggerActions::Deleted, pair("name", "Alice"));
    logger.run_logger(LoggerActions::Read, pair("r", "1"));
    logger.run_logger(LoggerActions::Updated, pair("u", "2"));
    logger.run_logger(LoggerActions::Added, pair("second", "x"));
    assert_eq!(logger.get_added(), [pair("username", "alice"), pair("second", "x")]);
    assert_eq!(logger.get_deleted(), [pair("name", "Alice")]);
    assert_eq!(logger.get_read(), [pair("r", "1")]);
    assert_eq!(logger.get_updated(), [pair("u", "2")]);
}
