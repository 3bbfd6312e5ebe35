use darkstone::application::Command;
use darkstone::application::Darkstone;
use darkstone::application::Message;
use darkstone::notes::Directory;
use darkstone::util::IoErrorKind;
use darkstone::util::Query;

fn notes_path(application: &Darkstone) -> Option<String> {
    match application.data() {
        Query::Loaded(data) => Some(data.config().notes_path.clone()),
        _ => None,
    }
}

#[test]
fn application_starts_by_reading_its_record() {
    let (application, command) = Darkstone::new(String::from("/home/me"));
    assert!(application.data().is_pending());
    assert!(matches!(command, Command::ReadConfig(path) if path == "/home/me/.config/darkstone/config"));
}

#[test]
fn record_starts_the_workspace() {
    let (mut application, _) = Darkstone::new(String::from("/home/me"));
    let command = application.update(Message::LoadedConfig(Ok(String::from("notes_path: /data/notes"))));
    assert!(matches!(
        command,
        Command::Notes(darkstone::notes::Command::LoadFiles(path)) if path == "/data/notes"
    ));
    assert_eq!(notes_path(&application), Some(String::from("/data/notes")));
}

#[test]
fn first_run_stores_the_default_before_it_starts() {
    let (mut application, _) = Darkstone::new(String::from("/home/me"));
    let command = application.update(Message::LoadedConfig(Err(IoErrorKind::NotFound)));
    assert!(matches!(
        command,
        Command::WriteConfig { path, record }
            if path == "/home/me/.config/darkstone/config"
                && record == "notes_path: /home/me/.darkstone/notes"
    ));
    assert!(application.data().is_pending());
    let command = application.update(Message::SavedConfig(Ok(())));
    assert!(matches!(
        command,
        Command::Notes(darkstone::notes::Command::LoadFiles(path)) if path == "/home/me/.darkstone/notes"
    ));
    assert_eq!(notes_path(&application), Some(String::from("/home/me/.darkstone/notes")));
}

#[test]
fn first_run_fails_when_the_default_cannot_be_stored() {
    let (mut application, _) = Darkstone::new(String::from("/home/me"));
    application.update(Message::LoadedConfig(Err(IoErrorKind::NotFound)));
    let command = application.update(Message::SavedConfig(Err(IoErrorKind::PermissionDenied)));
    assert!(matches!(command, Command::Nothing));
    assert!(matches!(application.data(), Query::Error(IoErrorKind::PermissionDenied)));
    application.update(Message::SavedConfig(Ok(())));
    assert!(matches!(application.data(), Query::Error(IoErrorKind::PermissionDenied)));
}

#[test]
fn unreadable_or_broken_record_fails_the_start() {
    let (mut application, _) = Darkstone::new(String::from("/home/me"));
    application.update(Message::LoadedConfig(Err(IoErrorKind::PermissionDenied)));
    assert!(matches!(application.data(), Query::Error(IoErrorKind::PermissionDenied)));
    let (mut application, _) = Darkstone::new(String::from("/home/me"));
    application.update(Message::LoadedConfig(Ok(String::from("no record"))));
    assert!(matches!(application.data(), Query::Error(IoErrorKind::Other)));
    let command = application.update(Message::LoadedConfig(Ok(String::from("notes_path: /late"))));
    assert!(matches!(command, Command::Nothing));
    assert!(matches!(application.data(), Query::Error(IoErrorKind::Other)));
}

#[test]
fn workspace_messages_wait_for_the_start() {
    let (mut application, _) = Darkstone::new(String::from("/home/me"));
    let command = application.update(Message::Notes(darkstone::notes::Message::Create));
    assert!(matches!(command, Command::Nothing));
    assert!(application.data().is_pending());
}

#[test]
fn workspace_messages_reach_the_workspace() {
    let (mut application, _) = Darkstone::new(String::from("/home/me"));
    application.update(Message::LoadedConfig(Ok(String::from("notes_path: /n"))));
    application.update(Message::Notes(darkstone::notes::Message::LoadFiles(Ok(Directory::new(
        String::from("/n"),
    )))));
    let command = application.update(Message::Notes(darkstone::notes::Message::Create));
    assert!(matches!(
        command,
        Command::Notes(darkstone::notes::Command::CreateNote(path)) if path == "/n"
    ));
    match application.data() {
        Query::Loaded(data) => assert!(data.notes().notes().is_loaded()),
        _ => panic!("the application has started"),
    }
}

#[test]
fn saving_writes_the_record_in_use_and_records_a_failure() {
    let (mut application, _) = Darkstone::new(String::from("/home/me"));
    assert!(matches!(application.update(Message::SaveConfig), Command::Nothing));
    application.update(Message::LoadedConfig(Ok(String::from("notes_path: /n"))));
    let command = application.update(Message::SaveConfig);
    assert!(matches!(
        command,
        Command::WriteConfig { path, record }
            if path == "/home/me/.config/darkstone/config" && record == "notes_path: /n"
    ));
    application.update(Message::SavedConfig(Err(IoErrorKind::PermissionDenied)));
    assert_eq!(application.failure(), Some(IoErrorKind::PermissionDenied));
    assert_eq!(notes_path(&application), Some(String::from("/n")));
    application.update(Message::SavedConfig(Ok(())));
    assert_eq!(application.failure(), None);
}

#[test]
fn reading_again_is_asked_of_the_host() {
    let (mut application, _) = Darkstone::new(String::from("/home/me"));
    let command = application.update(Message::LoadConfig);
    assert!(matches!(command, Command::ReadConfig(path) if path == "/home/me/.config/darkstone/config"));
}
