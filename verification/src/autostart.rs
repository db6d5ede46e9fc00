//! The entry that starts the program at login.

use vstd::prelude::*;

verus! {

/// Registry key, below the current user's root, whose values are run at
/// login.
pub const RUN_KEY_PATH: &'static str = "SOFTWARE\\Microsoft\\Windows\\CurrentVersion\\Run";

/// Name of the value that stands for this program under the run key.
pub const RUN_VALUE_NAME: &'static str = "ManyacgWallpaper";

/// Flag that the login entry passes to the program.
pub const STARTUP_FLAG: &'static str = "--startup";

/// The command that the login entry holds for the executable at `exe`: the
/// path in double quotes, a space, then the startup flag.
pub open spec fn command_for(exe: Seq<char>) -> Seq<char> {
    seq!['"'] + exe + seq!['"', ' '] + STARTUP_FLAG@
}

/// Builds the command to store in the login entry.
pub fn startup_command(exe_path: &str) -> (command: String)
    ensures
        command@ == command_for(exe_path@),
{
    let mut command = String::from_str("\"");
    command.append(exe_path);
    command.append("\" ");
    command.append(STARTUP_FLAG);
    proof {
        reveal_strlit("\"");
        reveal_strlit("\" ");
        assert("\""@ =~= seq!['"']);
        assert("\" "@ =~= seq!['"', ' ']);
    }
    command
}

/// How an attempt to remove the login entry ended.
#[derive(Debug, Clone, Copy, PartialEq, Eq, Structural)]
pub enum Removal {
    /// The run key was opened and the value was deleted.
    Removed,
    /// The run key was opened but the value could not be deleted, as when
    /// it is not there.
    NotRemoved,
    /// There is no run key, and so no value to delete.
    KeyMissing,
    /// The run key is there but could not be opened for writing.
    KeyUnavailable,
}

/// How an attempt ended, from what the registry answered: whether the run
/// key was opened, whether it failed to open because it does not exist,
/// and whether the value was deleted. What is said of the value counts
/// only where the key was opened, and what is said of a missing key only
/// where it was not.
pub open spec fn removal_for(key_opened: bool, key_missing: bool, value_deleted: bool) -> Removal {
    if key_opened {
        if value_deleted {
            Removal::Removed
        } else {
            Removal::NotRemoved
        }
    } else if key_missing {
        Removal::KeyMissing
    } else {
        Removal::KeyUnavailable
    }
}

/// Whether the attempt counts as a failure of the program. An entry that
/// is absent, be it the value or the whole key, or that could not be
/// deleted, is only reported; a key that is there and could not be opened
/// is an error.
pub open spec fn is_fatal(removal: Removal) -> bool {
    removal is KeyUnavailable
}

/// Tells how an attempt to remove the login entry ended.
pub fn removal_of(key_opened: bool, key_missing: bool, value_deleted: bool) -> (removal: Removal)
    ensures
        removal == removal_for(key_opened, key_missing, value_deleted),
{
    if key_opened {
        if value_deleted {
            Removal::Removed
        } else {
            Removal::NotRemoved
        }
    } else if key_missing {
        Removal::KeyMissing
    } else {
        Removal::KeyUnavailable
    }
}

impl Removal {
    /// Tells whether the program has to end in failure.
    pub fn is_fatal(&self) -> (fatal: bool)
        ensures
            fatal == is_fatal(*self),
    {
        match self {
            Removal::KeyUnavailable => true,
            _ => false,
        }
    }
}

/// Removing an entry that is not there never fails the program, whether
/// the value or the whole key is absent.
pub proof fn law_absent_entry_is_no_failure(key_opened: bool, key_missing: bool)
    requires
        key_opened || key_missing,
    ensures
        !is_fatal(removal_for(key_opened, key_missing, false)),
{
}

} // verus!
