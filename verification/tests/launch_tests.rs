use manyacg_wallpaper::autostart::{
    removal_of, startup_command, Removal, RUN_KEY_PATH, RUN_VALUE_NAME, STARTUP_FLAG,
};
use manyacg_wallpaper::launch::{
    has_flag, mode_from_args, respawn_args, Mode, CREATE_NO_WINDOW, UNINSTALL_FLAG,
};

fn args(list: &[&str]) -> Vec<String> {
    list.iter().map(|s| s.to_string()).collect()
}

#[test]
fn registry_names_and_flags_are_fixed() {
    assert_eq!(RUN_KEY_PATH, "SOFTWARE\\Microsoft\\Windows\\CurrentVersion\\Run");
    assert_eq!(RUN_VALUE_NAME, "ManyacgWallpaper");
    assert_eq!(STARTUP_FLAG, "--startup");
    assert_eq!(UNINSTALL_FLAG, "--uninstall");
    assert_eq!(CREATE_NO_WINDOW, 0x0800_0000);
}

#[test]
fn startup_command_quotes_the_path() {
    assert_eq!(
        startup_command("C:\\Program Files\\Wall\\wall.exe"),
        "\"C:\\Program Files\\Wall\\wall.exe\" --startup"
    );
    assert_eq!(startup_command(""), "\"\" --startup");
}

#[test]
fn only_an_unavailable_key_is_fatal() {
    assert!(!Removal::Removed.is_fatal());
    assert!(!Removal::NotRemoved.is_fatal());
    assert!(!Removal::KeyMissing.is_fatal());
    assert!(Removal::KeyUnavailable.is_fatal());
}

#[test]
fn removal_follows_what_the_registry_answered() {
    assert_eq!(removal_of(true, false, true), Removal::Removed);
    assert_eq!(removal_of(true, false, false), Removal::NotRemoved);
    assert_eq!(removal_of(false, true, false), Removal::KeyMissing);
    assert_eq!(removal_of(false, false, false), Removal::KeyUnavailable);
}

#[test]
fn an_opened_key_decides_before_a_missing_one() {
    assert_eq!(removal_of(true, true, true), Removal::Removed);
    assert_eq!(removal_of(true, true, false), Removal::NotRemoved);
    assert_eq!(removal_of(false, true, true), Removal::KeyMissing);
    assert_eq!(removal_of(false, false, true), Removal::KeyUnavailable);
}

#[test]
fn removing_an_absent_entry_is_no_failure() {
    assert!(!removal_of(true, false, false).is_fatal());
    assert!(!removal_of(false, true, false).is_fatal());
}

#[test]
fn no_flag_means_run() {
    assert_eq!(mode_from_args(&args(&["wall.exe"])), Mode::Run);
    assert_eq!(mode_from_args(&args(&[])), Mode::Run);
    assert_eq!(mode_from_args(&args(&["wall.exe", "--verbose", "startup"])), Mode::Run);
}

#[test]
fn startup_flag_means_startup() {
    assert_eq!(mode_from_args(&args(&["wall.exe", "--startup"])), Mode::Startup);
    assert_eq!(mode_from_args(&args(&["wall.exe", "x", "--startup", "y"])), Mode::Startup);
}

#[test]
fn uninstall_flag_means_uninstall() {
    assert_eq!(mode_from_args(&args(&["wall.exe", "--uninstall"])), Mode::Uninstall);
}

#[test]
fn uninstall_wins_over_startup() {
    assert_eq!(mode_from_args(&args(&["wall.exe", "--startup", "--uninstall"])), Mode::Uninstall);
    assert_eq!(mode_from_args(&args(&["wall.exe", "--uninstall", "--startup"])), Mode::Uninstall);
}

#[test]
fn the_program_name_counts_as_an_argument() {
    assert_eq!(mode_from_args(&args(&["--startup"])), Mode::Startup);
    assert_eq!(mode_from_args(&args(&["--uninstall", "--startup"])), Mode::Uninstall);
}

#[test]
fn flags_match_whole_arguments_only() {
    assert!(has_flag(&args(&["a", "--startup"]), "--startup"));
    assert!(!has_flag(&args(&["a", "--startup=1", "--Startup", " --startup"]), "--startup"));
    assert!(!has_flag(&args(&[]), "--startup"));
}

#[test]
fn detached_copy_gets_the_startup_flag_alone() {
    assert_eq!(respawn_args(), vec!["--startup".to_string()]);
}
