use manyacg_wallpaper::config::{
    config_dir, config_path, fallback_data_dir, resolve, Config, APP_DIR_NAME, CONFIG_FILE_NAME,
    DEFAULT_INTERVAL_MINS, FALLBACK_DATA_DIR_NAME, WALLPAPER_DIR_NAME,
};
use manyacg_wallpaper::paths::{chars_of, find_last_segment, find_slash, join};

#[test]
fn join_puts_one_slash_between() {
    assert_eq!(join("a", "b"), "a/b");
    assert_eq!(join("", "b"), "/b");
    assert_eq!(join("a/", "b"), "a//b");
    assert_eq!(join("C:\\Users\\me", "x.json"), "C:\\Users\\me/x.json");
}

#[test]
fn chars_of_lists_every_character() {
    assert_eq!(chars_of(""), Vec::<char>::new());
    assert_eq!(chars_of("a/b"), vec!['a', '/', 'b']);
    assert_eq!(chars_of("é画"), vec!['é', '画']);
}

#[test]
fn find_slash_gives_the_first_slash_or_the_length() {
    let chars = chars_of("ab/cd/e");
    assert_eq!(find_slash(&chars, 0), 2);
    assert_eq!(find_slash(&chars, 2), 2);
    assert_eq!(find_slash(&chars, 3), 5);
    assert_eq!(find_slash(&chars, 6), 7);
    assert_eq!(find_slash(&chars, 7), 7);
    assert_eq!(find_slash(&chars_of(""), 0), 0);
}

#[test]
fn last_segment_begins_behind_the_last_slash() {
    let chars = chars_of("ab/cd/e");
    assert_eq!(find_last_segment(&chars, 0), 6);
    assert_eq!(find_last_segment(&chars, 6), 6);
    assert_eq!(find_last_segment(&chars, 7), 7);
    let chars = chars_of("ab/cd/");
    assert_eq!(find_last_segment(&chars, 0), 6);
    let chars = chars_of("abc");
    assert_eq!(find_last_segment(&chars, 0), 0);
    assert_eq!(find_last_segment(&chars, 1), 1);
}

#[test]
fn directory_and_file_names_are_fixed() {
    assert_eq!(APP_DIR_NAME, "manyacg-wallpaper");
    assert_eq!(CONFIG_FILE_NAME, "config.json");
    assert_eq!(WALLPAPER_DIR_NAME, "wallpapers");
    assert_eq!(FALLBACK_DATA_DIR_NAME, "appdata");
    assert_eq!(DEFAULT_INTERVAL_MINS, 60);
}

#[test]
fn config_dir_lies_below_app_data() {
    assert_eq!(
        config_dir("C:\\Users\\me\\AppData\\Roaming"),
        "C:\\Users\\me\\AppData\\Roaming/manyacg-wallpaper"
    );
}

#[test]
fn config_path_names_the_json_file() {
    assert_eq!(
        config_path("/home/me/appdata/manyacg-wallpaper"),
        "/home/me/appdata/manyacg-wallpaper/config.json"
    );
}

#[test]
fn fallback_is_appdata_in_the_working_directory() {
    assert_eq!(fallback_data_dir("/home/me/work"), "/home/me/work/appdata");
}

#[test]
fn default_config_changes_hourly() {
    let config = Config::default_in("/data/manyacg-wallpaper");
    assert_eq!(config.change_interval_mins, 60);
    assert_eq!(config.download_dir, "/data/manyacg-wallpaper/wallpapers");
    assert!(config.is_valid());
    assert_eq!(config.sleep_seconds(), 3600);
}

#[test]
fn missing_config_file_gives_the_default_record() {
    let loaded = resolve("/data/manyacg-wallpaper", None);
    assert!(loaded.must_persist);
    assert_eq!(loaded.config.change_interval_mins, 60);
    assert!(loaded.config.download_dir.ends_with("/wallpapers"));
    assert_eq!(loaded.config, Config::default_in("/data/manyacg-wallpaper"));
}

#[test]
fn stored_config_is_taken_as_it_is() {
    let stored = Config { download_dir: "D:/pictures".to_string(), change_interval_mins: 15 };
    let loaded = resolve("/data/manyacg-wallpaper", Some(stored.clone()));
    assert!(!loaded.must_persist);
    assert_eq!(loaded.config, stored);
}

#[test]
fn default_record_read_back_is_the_same_record() {
    let first = resolve("/data/manyacg-wallpaper", None);
    let again = resolve("/data/manyacg-wallpaper", Some(first.config.duplicate()));
    assert!(!again.must_persist);
    assert_eq!(again.config, first.config);
}

#[test]
fn sleep_is_minutes_times_sixty() {
    let config = Config { download_dir: "d".to_string(), change_interval_mins: 1 };
    assert_eq!(config.sleep_seconds(), 60);
    let config = Config { download_dir: "d".to_string(), change_interval_mins: 90 };
    assert_eq!(config.sleep_seconds(), 5400);
    let longest = u64::MAX / 60;
    let config = Config { download_dir: "d".to_string(), change_interval_mins: longest };
    assert!(config.is_valid());
    assert_eq!(config.sleep_seconds(), longest * 60);
}

#[test]
fn zero_and_overlong_intervals_are_invalid() {
    let zero = Config { download_dir: "d".to_string(), change_interval_mins: 0 };
    assert!(!zero.is_valid());
    let overlong =
        Config { download_dir: "d".to_string(), change_interval_mins: u64::MAX / 60 + 1 };
    assert!(!overlong.is_valid());
    let max = Config { download_dir: "d".to_string(), change_interval_mins: u64::MAX };
    assert!(!max.is_valid());
}

#[test]
fn duplicate_copies_both_fields() {
    let config = Config { download_dir: "D:/pictures".to_string(), change_interval_mins: 7 };
    assert_eq!(config.duplicate(), config);
}
