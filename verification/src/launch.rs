//! What the program does with its command line.

use crate::autostart::STARTUP_FLAG;
use vstd::prelude::*;

verus! {

/// Flag that asks for the login entry to be removed.
pub const UNINSTALL_FLAG: &'static str = "--uninstall";

/// Process-creation flag for the detached copy: it gets no console window.
pub const CREATE_NO_WINDOW: u32 = 0x0800_0000;

/// What a run of the program is for.
#[derive(Debug, Clone, Copy, PartialEq, Eq, Structural)]
pub enum Mode {
    /// Remove the login entry, then exit.
    Uninstall,
    /// Write the login entry, start a detached copy with the startup flag,
    /// then exit.
    Startup,
    /// Change the wallpaper again and again.
    Run,
}

/// The arguments as mathematical texts.
pub open spec fn texts(args: Seq<String>) -> Seq<Seq<char>> {
    args.map_values(|a: String| a@)
}

/// The mode that a command line selects. Every argument counts, the
/// program's own name included, and the uninstall flag wins over the
/// startup flag.
pub open spec fn mode_of(args: Seq<Seq<char>>) -> Mode {
    if args.contains(UNINSTALL_FLAG@) {
        Mode::Uninstall
    } else if args.contains(STARTUP_FLAG@) {
        Mode::Startup
    } else {
        Mode::Run
    }
}

/// Tells whether one of the arguments is `flag`.
pub fn has_flag(args: &Vec<String>, flag: &str) -> (found: bool)
    ensures
        found == texts(args@).contains(flag@),
{
    let wanted = String::from_str(flag);
    let mut i: usize = 0;
    while i < args.len()
        invariant
            i <= args.len(),
            wanted@ == flag@,
            forall|k: int| 0 <= k < i ==> texts(args@)[k] != flag@,
        decreases args.len() - i,
    {
        if args[i] == wanted {
            assert(texts(args@)[i as int] == flag@);
            return true;
        }
        i = i + 1;
    }
    false
}

/// Selects the mode of a run from its command line.
pub fn mode_from_args(args: &Vec<String>) -> (mode: Mode)
    ensures
        mode == mode_of(texts(args@)),
{
    if has_flag(args, UNINSTALL_FLAG) {
        Mode::Uninstall
    } else if has_flag(args, STARTUP_FLAG) {
        Mode::Startup
    } else {
        Mode::Run
    }
}

/// The arguments that the detached copy is started with: the startup flag
/// alone.
pub fn respawn_args() -> (args: Vec<String>)
    ensures
        texts(args@) == seq![STARTUP_FLAG@],
{
    let mut args: Vec<String> = Vec::new();
    args.push(String::from_str(STARTUP_FLAG));
    assert(texts(args@) =~= seq![STARTUP_FLAG@]);
    args
}

} // verus!
