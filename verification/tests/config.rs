use darkstone::config::Configuration;
use darkstone::config::Startup;
use darkstone::util::IoErrorKind;

#[test]
fn first_run_keeps_notes_under_home() {
    let configuration = Configuration::under_home("/home/me");
    assert_eq!(configuration.notes_path, "/home/me/.darkstone/notes");
}

#[test]
fn record_is_one_key_and_the_path() {
    let configuration = Configuration { notes_path: String::from("/data/notes") };
    assert_eq!(configuration.to_record(), "notes_path: /data/notes");
}

#[test]
fn record_reads_back() {
    let configuration = Configuration { notes_path: String::from("/data/my notes") };
    let back = Configuration::from_record(&configuration.to_record());
    assert_eq!(back.map(|c| c.notes_path), Some(String::from("/data/my notes")));
}

#[test]
fn text_without_the_key_is_no_record() {
    assert!(Configuration::from_record("/data/notes").is_none());
    assert!(Configuration::from_record("notes_path:/data").is_none());
    assert!(Configuration::from_record("").is_none());
    assert_eq!(
        Configuration::from_record("notes_path: ").map(|c| c.notes_path),
        Some(String::new())
    );
}

#[test]
fn startup_uses_the_record_that_is_there() {
    let startup = Configuration::on_read(Ok(String::from("notes_path: /n")), "/home/me");
    assert!(matches!(startup, Startup::Use(c) if c.notes_path == "/n"));
}

#[test]
fn startup_initializes_when_the_record_is_missing() {
    let startup = Configuration::on_read(Err(IoErrorKind::NotFound), "/home/me");
    assert!(matches!(startup, Startup::Initialize(c) if c.notes_path == "/home/me/.darkstone/notes"));
}

#[test]
fn startup_fails_on_other_errors_and_on_garbage() {
    let startup = Configuration::on_read(Err(IoErrorKind::PermissionDenied), "/home/me");
    assert!(matches!(startup, Startup::Fail(IoErrorKind::PermissionDenied)));
    let startup = Configuration::on_read(Ok(String::from("garbage")), "/home/me");
    assert!(matches!(startup, Startup::Fail(IoErrorKind::Other)));
}
