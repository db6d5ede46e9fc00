//! The configuration record and the places where it is kept.

use crate::paths::{join, joined};
use vstd::prelude::*;

verus! {

/// Name of the directory, below the per-user application-data directory,
/// that holds the configuration file.
pub const APP_DIR_NAME: &'static str = "manyacg-wallpaper";

/// Name of the configuration file inside the configuration directory.
pub const CONFIG_FILE_NAME: &'static str = "config.json";

/// Name of the default download directory inside the configuration directory.
pub const WALLPAPER_DIR_NAME: &'static str = "wallpapers";

/// Name of the directory, below the working directory, that stands in for
/// the application-data directory when the system names none.
pub const FALLBACK_DATA_DIR_NAME: &'static str = "appdata";

/// Minutes between two wallpaper changes in a freshly created configuration.
pub const DEFAULT_INTERVAL_MINS: u64 = 60;

/// Seconds in one minute.
pub const SECONDS_PER_MINUTE: u64 = 60;

/// The configuration record: where downloads go and how long to wait
/// between two changes.
#[derive(Debug, Clone, PartialEq, Eq)]
pub struct Config {
    /// Directory that receives the downloaded images.
    pub download_dir: String,
    /// Minutes between two wallpaper changes.
    pub change_interval_mins: u64,
}

/// What a [`Config`] holds, as mathematical values.
pub ghost struct ConfigView {
    pub download_dir: Seq<char>,
    pub change_interval_mins: nat,
}

impl ConfigView {
    /// The interval is positive and its length in seconds fits in 64 bits.
    pub open spec fn valid(self) -> bool {
        1 <= self.change_interval_mins && self.sleep_seconds() <= u64::MAX
    }

    /// Length of the wait between two change attempts, in seconds.
    pub open spec fn sleep_seconds(self) -> nat {
        self.change_interval_mins * (SECONDS_PER_MINUTE as nat)
    }
}

/// The default record for a configuration directory.
pub open spec fn default_record(config_dir: Seq<char>) -> ConfigView {
    ConfigView {
        download_dir: joined(config_dir, WALLPAPER_DIR_NAME@),
        change_interval_mins: DEFAULT_INTERVAL_MINS as nat,
    }
}

/// The record that loading settles on, given what the configuration file
/// held: that record, or the default one where there was no file.
pub open spec fn settled(config_dir: Seq<char>, stored: Option<ConfigView>) -> ConfigView {
    match stored {
        Some(found) => found,
        None => default_record(config_dir),
    }
}

impl View for Config {
    type V = ConfigView;

    open spec fn view(&self) -> ConfigView {
        ConfigView {
            download_dir: self.download_dir@,
            change_interval_mins: self.change_interval_mins as nat,
        }
    }
}

impl Config {
    /// The record that is created when no configuration file exists yet:
    /// downloads go to `wallpapers` inside the configuration directory and
    /// the wallpaper changes once an hour.
    pub fn default_in(config_dir: &str) -> (config: Config)
        ensures
            config@ == default_record(config_dir@),
    {
        Config {
            download_dir: join(config_dir, WALLPAPER_DIR_NAME),
            change_interval_mins: DEFAULT_INTERVAL_MINS,
        }
    }

    /// Tells whether the interval is positive and short enough for its
    /// length in seconds to be computed.
    pub fn is_valid(&self) -> (ok: bool)
        ensures
            ok == self@.valid(),
    {
        let longest = u64::MAX / SECONDS_PER_MINUTE;
        1 <= self.change_interval_mins && self.change_interval_mins <= longest
    }

    /// Seconds to wait between two change attempts: the configured number
    /// of minutes, times sixty.
    pub fn sleep_seconds(&self) -> (seconds: u64)
        requires
            self@.sleep_seconds() <= u64::MAX,
        ensures
            seconds == self@.sleep_seconds(),
    {
        self.change_interval_mins * SECONDS_PER_MINUTE
    }

    /// A copy of the record.
    pub fn duplicate(&self) -> (copy: Config)
        ensures
            copy@ == self@,
    {
        Config {
            download_dir: self.download_dir.clone(),
            change_interval_mins: self.change_interval_mins,
        }
    }
}

/// The directory that holds the configuration file, given the per-user
/// application-data directory.
pub fn config_dir(app_data_dir: &str) -> (dir: String)
    ensures
        dir@ == joined(app_data_dir@, APP_DIR_NAME@),
{
    join(app_data_dir, APP_DIR_NAME)
}

/// The directory that stands in for the application-data directory when
/// the system names none: `appdata` inside the working directory.
pub fn fallback_data_dir(current_dir: &str) -> (dir: String)
    ensures
        dir@ == joined(current_dir@, FALLBACK_DATA_DIR_NAME@),
{
    join(current_dir, FALLBACK_DATA_DIR_NAME)
}

/// The configuration file inside the configuration directory.
pub fn config_path(config_dir: &str) -> (path: String)
    ensures
        path@ == joined(config_dir@, CONFIG_FILE_NAME@),
{
    join(config_dir, CONFIG_FILE_NAME)
}

/// What loading found: the record to run with, and whether it still has
/// to be written to the configuration file.
pub struct Loaded {
    /// The record in force.
    pub config: Config,
    /// True when the record was just created and is not on disk yet.
    pub must_persist: bool,
}

/// Settles the configuration from what the configuration file held.
///
/// A stored record is taken as it is and never rewritten. Without one, the
/// default record is created and marked for writing.
pub fn resolve(config_dir: &str, stored: Option<Config>) -> (loaded: Loaded)
    ensures
        loaded.config@ == settled(
            config_dir@,
            match stored {
                Some(found) => Some(found@),
                None => None,
            },
        ),
        loaded.must_persist == (stored is None),
{
    match stored {
        Some(found) => Loaded { config: found, must_persist: false },
        None => Loaded { config: Config::default_in(config_dir), must_persist: true },
    }
}

/// The default record is valid, and a record that is stored and read back
/// unchanged is the record in force from then on: loading what the first
/// load created gives the same record again.
pub proof fn law_stored_record_is_kept(config_dir: Seq<char>, record: ConfigView)
    ensures
        default_record(config_dir).valid(),
        settled(config_dir, Some(record)) == record,
        settled(config_dir, Some(settled(config_dir, None))) == settled(config_dir, None),
{
}

} // verus!
