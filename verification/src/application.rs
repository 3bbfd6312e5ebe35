//! The application around the workspace: it reads the configuration, stores
//! the configuration of a first run, and then hands every message on to the
//! workspace.
//!
//! Like the workspace, the application does no filesystem work itself: it
//! answers each message with a command for its host.

use vstd::prelude::*;

use crate::config::default_path;
use crate::config::path_in;
use crate::config::record_of;
use crate::config::Configuration;
use crate::config::Startup;
use crate::notes::Notes;
use crate::notes::NotesView;
use crate::path::join;
use crate::path::joined;
use crate::util::IoErrorKind;
use crate::util::Query;

verus! {

/// What the application hears of.
#[derive(Debug)]
pub enum Message {
    /// Read the configuration record again.
    LoadConfig,
    /// The read of the configuration record has ended.
    LoadedConfig(Result<String, IoErrorKind>),
    /// Store the configuration in use.
    SaveConfig,
    /// The write of the configuration record has ended.
    SavedConfig(Result<(), IoErrorKind>),
    Notes(crate::notes::Message),
}

/// What the application asks its host to do.
pub enum Command {
    Nothing,
    /// Read the file at the path and answer with `Message::LoadedConfig`.
    ReadConfig(String),
    /// Write `record` to the file at `path` and answer with
    /// `Message::SavedConfig`.
    WriteConfig { path: String, record: String },
    /// Do what the workspace asks; its answers come back inside
    /// `Message::Notes`.
    Notes(crate::notes::Command),
}

/// What a [`Command`] is, as plain values.
pub enum CommandView {
    Nothing,
    ReadConfig(Seq<char>),
    WriteConfig { path: Seq<char>, record: Seq<char> },
    Notes(crate::notes::CommandView),
}

impl View for Command {
    type V = CommandView;

    open spec fn view(&self) -> CommandView {
        match *self {
            Command::Nothing => CommandView::Nothing,
            Command::ReadConfig(path) => CommandView::ReadConfig(path@),
            Command::WriteConfig { path, record } => CommandView::WriteConfig {
                path: path@,
                record: record@,
            },
            Command::Notes(inner) => CommandView::Notes(inner@),
        }
    }
}

/// The configuration in use and the workspace over its notes.
pub struct DarkstoneData {
    config: Configuration,
    notes: Notes,
}

/// What a [`DarkstoneData`] is, as plain values.
pub struct DataView {
    pub notes_path: Seq<char>,
    pub notes: NotesView,
}

impl View for DarkstoneData {
    type V = DataView;

    closed spec fn view(&self) -> DataView {
        DataView { notes_path: self.config.notes_path@, notes: self.notes@ }
    }
}

impl DarkstoneData {
    pub fn config(&self) -> (config: &Configuration)
        ensures
            config.notes_path@ == self@.notes_path,
    {
        &self.config
    }

    pub fn notes(&self) -> (notes: &Notes)
        ensures
            notes@ == self@.notes,
    {
        &self.notes
    }
}

/// The application: the user's home directory, the configuration of a first
/// run while it is being stored, the configuration and the workspace once
/// they are there, and the failure of the last write of the configuration.
pub struct Darkstone {
    home: String,
    fresh: Option<Configuration>,
    data: Query<DarkstoneData, IoErrorKind>,
    failure: Option<IoErrorKind>,
}

/// What a [`Darkstone`] is, as plain values.
pub struct DarkstoneView {
    pub home: Seq<char>,
    pub fresh: Option<Seq<char>>,
    pub data: Query<DataView, IoErrorKind>,
    pub failure: Option<IoErrorKind>,
}

/// Where the configuration record of the user with home directory `home`
/// is kept.
pub open spec fn config_path(home: Seq<char>) -> Seq<char> {
    joined(home, ".config/darkstone/config"@)
}

impl DarkstoneView {
    /// The workspace, if there is one, is well formed.
    pub open spec fn well_formed(self) -> bool {
        self.data matches Query::Loaded(data) ==> data.notes.well_formed()
    }

    /// The application at its start.
    pub open spec fn started(home: Seq<char>) -> DarkstoneView {
        DarkstoneView { home, fresh: None, data: Query::Pending, failure: None }
    }

    /// Whether the application waits for the configuration record.
    pub open spec fn awaits_record(self) -> bool {
        self.data is Pending && self.fresh is None
    }

    /// The application with a fresh workspace over the notes at `notes_path`.
    pub open spec fn running(self, notes_path: Seq<char>) -> DarkstoneView {
        DarkstoneView {
            fresh: None,
            data: Query::Loaded(DataView { notes_path, notes: NotesView::started() }),
            ..self
        }
    }

    /// The application after a message.
    ///
    /// The record counts only while it is awaited. A record that is missing
    /// makes this a first run: the default configuration is stored first and
    /// used once it is stored. Failures before the workspace is there end in
    /// the error state; a failed write after that is recorded.
    pub open spec fn updated(self, message: Message) -> DarkstoneView {
        match message {
            Message::LoadConfig => self,
            Message::SaveConfig => self,
            Message::LoadedConfig(outcome) => if !self.awaits_record() {
                self
            } else {
                match outcome {
                    Ok(record) => match path_in(record@) {
                        Some(notes_path) => self.running(notes_path),
                        None => DarkstoneView { data: Query::Error(IoErrorKind::Other), ..self },
                    },
                    Err(IoErrorKind::NotFound) => DarkstoneView {
                        fresh: Some(default_path(self.home)),
                        ..self
                    },
                    Err(kind) => DarkstoneView { data: Query::Error(kind), ..self },
                }
            },
            Message::SavedConfig(Ok(_)) => match self.fresh {
                Some(notes_path) => if self.data is Pending {
                    DarkstoneView { failure: None, ..self.running(notes_path) }
                } else {
                    DarkstoneView { fresh: None, failure: None, ..self }
                },
                None => DarkstoneView { failure: None, ..self },
            },
            Message::SavedConfig(Err(kind)) => if self.data is Pending {
                DarkstoneView { fresh: None, data: Query::Error(kind), ..self }
            } else {
                DarkstoneView { fresh: None, failure: Some(kind), ..self }
            },
            Message::Notes(inner) => match self.data {
                Query::Loaded(data) => DarkstoneView {
                    data: Query::Loaded(DataView { notes: data.notes.updated(inner), ..data }),
                    ..self
                },
                _ => self,
            },
        }
    }

    /// What the application asks of its host in answer to a message.
    pub open spec fn command_for(self, message: Message) -> CommandView {
        match message {
            Message::LoadConfig => CommandView::ReadConfig(config_path(self.home)),
            Message::SaveConfig => match self.data {
                Query::Loaded(data) => CommandView::WriteConfig {
                    path: config_path(self.home),
                    record: record_of(data.notes_path),
                },
                _ => CommandView::Nothing,
            },
            Message::LoadedConfig(outcome) => if !self.awaits_record() {
                CommandView::Nothing
            } else {
                match outcome {
                    Ok(record) => match path_in(record@) {
                        Some(notes_path) => CommandView::Notes(
                            crate::notes::CommandView::LoadFiles(notes_path),
                        ),
                        None => CommandView::Nothing,
                    },
                    Err(IoErrorKind::NotFound) => CommandView::WriteConfig {
                        path: config_path(self.home),
                        record: record_of(default_path(self.home)),
                    },
                    Err(_) => CommandView::Nothing,
                }
            },
            Message::SavedConfig(Ok(_)) => match self.fresh {
                Some(notes_path) => if self.data is Pending {
                    CommandView::Notes(crate::notes::CommandView::LoadFiles(notes_path))
                } else {
                    CommandView::Nothing
                },
                None => CommandView::Nothing,
            },
            Message::SavedConfig(Err(_)) => CommandView::Nothing,
            Message::Notes(inner) => match self.data {
                Query::Loaded(data) => CommandView::Notes(data.notes.command_for(inner)),
                _ => CommandView::Nothing,
            },
        }
    }
}

impl View for Darkstone {
    type V = DarkstoneView;

    closed spec fn view(&self) -> DarkstoneView {
        DarkstoneView {
            home: self.home@,
            fresh: match self.fresh {
                Some(config) => Some(config.notes_path@),
                None => None,
            },
            data: match self.data {
                Query::Pending => Query::Pending,
                Query::Loaded(data) => Query::Loaded(data@),
                Query::Error(kind) => Query::Error(kind),
            },
            failure: self.failure,
        }
    }
}

impl Darkstone {
    /// The application of the user whose home directory is `home`. It starts
    /// by asking for the configuration record.
    pub fn new(home: String) -> (started: (Self, Command))
        ensures
            started.0@ == DarkstoneView::started(home@),
            started.0@.well_formed(),
            started.1@ == CommandView::ReadConfig(config_path(home@)),
    {
        let path = join(home.as_str(), ".config/darkstone/config");
        (Darkstone { home, fresh: None, data: Query::Pending, failure: None }, Command::ReadConfig(path))
    }

    /// The configuration and the workspace: awaited, there, or failed.
    pub fn data(&self) -> (data: &Query<DarkstoneData, IoErrorKind>)
        ensures
            match *data {
                Query::Pending => self@.data is Pending,
                Query::Loaded(loaded) => self@.data == Query::<DataView, IoErrorKind>::Loaded(
                    loaded@,
                ),
                Query::Error(kind) => self@.data == Query::<DataView, IoErrorKind>::Error(kind),
            },
    {
        &self.data
    }

    /// Why the last write of the configuration failed, if it did while the
    /// workspace was there.
    pub fn failure(&self) -> (failure: Option<IoErrorKind>)
        ensures
            failure == self@.failure,
    {
        self.failure
    }

    fn config_path(&self) -> (path: String)
        ensures
            path@ == config_path(self@.home),
    {
        join(self.home.as_str(), ".config/darkstone/config")
    }

    fn run(&mut self, config: Configuration) -> (command: Command)
        ensures
            final(self)@ == old(self)@.running(config.notes_path@),
            command@ == CommandView::Notes(crate::notes::CommandView::LoadFiles(config.notes_path@)),
            old(self)@.well_formed() ==> final(self)@.well_formed(),
    {
        let (notes, command) = Notes::new(config.notes_path.clone());
        self.fresh = None;
        self.data = Query::Loaded(DarkstoneData { config, notes });
        Command::Notes(command)
    }

    /// Takes a message: the start, the end of a read or a write of the
    /// configuration, or a message for the workspace.
    pub fn update(&mut self, message: Message) -> (command: Command)
        ensures
            final(self)@ == old(self)@.updated(message),
            command@ == old(self)@.command_for(message),
            old(self)@.well_formed() && (message matches Message::Notes(inner)
                ==> crate::notes::message_well_formed(inner)) ==> final(self)@.well_formed(),
    {
        match message {
            Message::LoadConfig => Command::ReadConfig(self.config_path()),
            Message::SaveConfig => match &self.data {
                Query::Loaded(data) => Command::WriteConfig {
                    path: self.config_path(),
                    record: data.config.to_record(),
                },
                _ => Command::Nothing,
            },
            Message::LoadedConfig(outcome) => {
                if !self.data.is_pending() || self.fresh.is_some() {
                    return Command::Nothing;
                }
                match Configuration::on_read(outcome, self.home.as_str()) {
                    Startup::Use(config) => self.run(config),
                    Startup::Initialize(config) => {
                        let command = Command::WriteConfig {
                            path: self.config_path(),
                            record: config.to_record(),
                        };
                        self.fresh = Some(config);
                        command
                    },
                    Startup::Fail(kind) => {
                        self.data = Query::Error(kind);
                        Command::Nothing
                    },
                }
            },
            Message::SavedConfig(Ok(_)) => {
                self.failure = None;
                match self.fresh.take() {
                    Some(config) => if self.data.is_pending() {
                        self.run(config)
                    } else {
                        Command::Nothing
                    },
                    None => Command::Nothing,
                }
            },
            Message::SavedConfig(Err(kind)) => {
                self.fresh = None;
                if self.data.is_pending() {
                    self.data = Query::Error(kind);
                } else {
                    self.failure = Some(kind);
                }
                Command::Nothing
            },
            Message::Notes(inner) => match &mut self.data {
                Query::Loaded(data) => Command::Notes(data.notes.update(inner)),
                _ => Command::Nothing,
            },
        }
    }
}

/// Nothing reaches the workspace before the configuration is there, and
/// nothing changes the application once it has failed to start.
pub proof fn lemma_start_comes_first(application: DarkstoneView, inner: crate::notes::Message)
    requires
        !(application.data is Loaded),
    ensures
        application.updated(Message::Notes(inner)) == application,
        application.command_for(Message::Notes(inner)) == CommandView::Nothing,
{
}

/// On a first run the default configuration is stored before it is used:
/// the workspace starts when the write has ended well, and not before.
pub proof fn lemma_first_run_stores_then_starts(home: Seq<char>)
    ensures
        ({
            let waiting = DarkstoneView::started(home).updated(
                Message::LoadedConfig(Err(IoErrorKind::NotFound)),
            );
            &&& waiting.data is Pending
            &&& DarkstoneView::started(home).command_for(
                Message::LoadedConfig(Err(IoErrorKind::NotFound)),
            ) == (CommandView::WriteConfig {
                path: config_path(home),
                record: record_of(default_path(home)),
            })
            &&& waiting.updated(Message::SavedConfig(Ok(()))) == DarkstoneView::started(home).running(
                default_path(home),
            )
            &&& waiting.command_for(Message::SavedConfig(Ok(()))) == CommandView::Notes(
                crate::notes::CommandView::LoadFiles(default_path(home)),
            )
        }),
{
}

} // verus!
