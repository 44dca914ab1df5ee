//! The settings of the program: what the command line and the configuration file say.
//!
//! The library reads neither. It holds the values, says which settings a new configuration
//! changes, and decides which records a logger writes.

use crate::paper::{Notice, Request};
use crate::strings::characters;
use vstd::prelude::*;

verus! {

/// The least severity that a record must have to be written.
#[derive(Copy, Clone, Debug, PartialEq, Eq, Hash)]
pub enum Level {
    /// No record is written.
    Off,
    /// Errors are written.
    Error,
    /// Warnings and what is more severe are written.
    Warn,
    /// Information and what is more severe is written.
    Info,
    /// Records for debugging and what is more severe are written.
    Debug,
    /// Every record is written.
    Trace,
}

/// One setting of the configuration, with its value.
#[derive(Copy, Clone, Debug, PartialEq, Eq)]
pub enum Setting {
    /// If the document shall wrap long text.
    Wrap(bool),
    /// The level at which the records of the language server client shall be written.
    StarshipLog(Level),
}

/// Returns the value of the wrap setting where the configuration file gives none.
pub fn default_wrap() -> (wrap: bool)
    ensures
        !wrap,
{
    false
}

/// Returns the level of the client's records where the configuration file gives none.
pub fn default_starship_log() -> (level: Level)
    ensures
        level == Level::Off,
{
    Level::Off
}

/// What the configuration file says.
#[derive(Copy, Clone, Debug, PartialEq, Eq)]
pub struct Config {
    /// If the document shall wrap long text.
    pub wrap: bool,
    /// The level at which the records of the language server client shall be written.
    pub starship_log: Level,
}

impl Default for Config {
    fn default() -> (config: Config)
        ensures
            config == (Config { wrap: false, starship_log: Level::Off }),
    {
        Config { wrap: default_wrap(), starship_log: default_starship_log() }
    }
}

/// The settings in which `new` differs from `old`, each with its new value: the wrap setting
/// first, then the level of the client's records.
pub open spec fn changed(old_config: Config, new: Config) -> Seq<Setting> {
    (if new.wrap != old_config.wrap {
        seq![Setting::Wrap(new.wrap)]
    } else {
        Seq::empty()
    }) + (if new.starship_log != old_config.starship_log {
        seq![Setting::StarshipLog(new.starship_log)]
    } else {
        Seq::empty()
    })
}

impl Config {
    /// Creates the configuration with the given values.
    pub fn new(wrap: bool, starship_log: Level) -> (config: Config)
        ensures
            config == (Config { wrap, starship_log }),
    {
        Config { wrap, starship_log }
    }

    /// Returns the settings that change when `new` takes the place of this configuration.
    pub fn changes(&self, new: &Config) -> (settings: Vec<Setting>)
        ensures
            settings@ == changed(*self, *new),
    {
        let mut settings: Vec<Setting> = Vec::new();
        if new.wrap != self.wrap {
            settings.push(Setting::Wrap(new.wrap));
        }
        if !same_level(new.starship_log, self.starship_log) {
            settings.push(Setting::StarshipLog(new.starship_log));
        }
        proof {
            assert(settings@ =~= changed(*self, *new));
        }
        settings
    }
}

/// Tells whether `a` and `b` are the same level.
pub fn same_level(a: Level, b: Level) -> (same: bool)
    ensures
        same == (a == b),
{
    match (a, b) {
        (Level::Off, Level::Off) => true,
        (Level::Error, Level::Error) => true,
        (Level::Warn, Level::Warn) => true,
        (Level::Info, Level::Info) => true,
        (Level::Debug, Level::Debug) => true,
        (Level::Trace, Level::Trace) => true,
        _ => false,
    }
}

/// The name by which the records of the language server client are known.
pub open spec fn client_name() -> Seq<char> {
    seq!['s', 't', 'a', 'r', 's', 'h', 'i', 'p']
}

/// The level that the number `verbosity` of requests for more records asks for.
pub open spec fn level_of(verbosity: u64) -> Level {
    if verbosity == 0 {
        Level::Warn
    } else if verbosity == 1 {
        Level::Info
    } else if verbosity == 2 {
        Level::Debug
    } else {
        Level::Trace
    }
}

/// Tells whether `text` is the name of the client.
fn is_client_name(text: &Vec<char>, length: usize) -> (found: bool)
    requires
        length <= text.len(),
    ensures
        found == (text@.take(length as int) == client_name()),
{
    let found = length == 8 && text[0] == 's' && text[1] == 't' && text[2] == 'a' && text[3] == 'r'
        && text[4] == 's' && text[5] == 'h' && text[6] == 'i' && text[7] == 'p';
    proof {
        let start = text@.take(length as int);
        if found {
            assert(start =~= client_name());
        } else if length == 8 {
            assert(start[0] == text[0] && start[1] == text[1] && start[2] == text[2] && start[3]
                == text[3] && start[4] == text[4] && start[5] == text[5] && start[6] == text[6]
                && start[7] == text[7]);
            assert(client_name()[0] == 's' && client_name()[1] == 't' && client_name()[2] == 'a'
                && client_name()[3] == 'r' && client_name()[4] == 's' && client_name()[5] == 'h'
                && client_name()[6] == 'i' && client_name()[7] == 'p');
        } else {
            assert(start.len() != client_name().len());
        }
    }
    found
}

/// The configuration of the logger of the program.
#[derive(Copy, Clone, Debug, PartialEq, Eq)]
pub struct LogConfig {
    /// If the records of the language server client shall be written.
    pub is_starship_enabled: bool,
    /// The least severity of the records that shall be written.
    pub level: Level,
}

impl Default for LogConfig {
    fn default() -> (config: LogConfig)
        ensures
            config == (LogConfig { is_starship_enabled: false, level: Level::Warn }),
    {
        LogConfig { is_starship_enabled: false, level: Level::Warn }
    }
}

impl LogConfig {
    /// Creates the configuration that the command line asks for: `verbosity` is the number
    /// of times that more records were asked for, and `log` the value of the log option, if
    /// it was given. The client's records are written where that value is the client's name.
    pub fn new(verbosity: u64, log: Option<&str>) -> (config: LogConfig)
        ensures
            config.level == level_of(verbosity),
            config.is_starship_enabled == match log {
                Some(name) => name@ == client_name(),
                None => false,
            },
    {
        let level = if verbosity == 0 {
            Level::Warn
        } else if verbosity == 1 {
            Level::Info
        } else if verbosity == 2 {
            Level::Debug
        } else {
            Level::Trace
        };
        let is_starship_enabled = match log {
            Some(name) => {
                let text = characters(name);
                proof {
                    assert(text@.take(text@.len() as int) =~= text@);
                }
                is_client_name(&text, text.len())
            },
            None => false,
        };
        LogConfig { is_starship_enabled, level }
    }

    /// Tells whether a record from `target` shall be written: a record of the client, whose
    /// target starts with the client's name, only where that was asked for, and every other
    /// record always.
    pub fn enabled(&self, target: &str) -> (written: bool)
        ensures
            written == (self.is_starship_enabled || !client_name().is_prefix_of(target@)),
    {
        let text = characters(target);
        let from_client = text.len() >= 8 && is_client_name(&text, 8);
        proof {
            if text@.len() >= 8 {
                assert(text@.take(8) =~= text@.subrange(0, 8));
            }
        }
        if from_client {
            self.is_starship_enabled
        } else {
            true
        }
    }
}

/// What the command line says of the document.
#[derive(Clone, Debug, PartialEq, Eq)]
pub struct Settings {
    /// The path of the file to be viewed, if one was given.
    pub file: Option<String>,
}

impl Default for Settings {
    fn default() -> (settings: Settings)
        ensures
            settings.file is None,
    {
        Settings { file: None }
    }
}

impl Settings {
    /// Creates the settings that ask for the file at `file`, if one is given.
    pub fn new(file: Option<String>) -> (settings: Settings)
        ensures
            settings.file == file,
    {
        Settings { file }
    }

    /// Returns what the settings ask of the program before the first key is read: to load
    /// the file, if one was given.
    pub fn opening(&self) -> (notice: Option<Notice>)
        ensures
            notice.deep_view() == match self.file {
                Some(path) => Some(Request::Load(path@)),
                None => None,
            },
    {
        match &self.file {
            Some(path) => Some(Notice::Load(path.clone())),
            None => None,
        }
    }
}

} // verus!
