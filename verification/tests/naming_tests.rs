use manyacg_wallpaper::naming::{
    file_name_from_url, new_wallpaper_path, stamp_now, wallpaper_path, DEFAULT_FILE_NAME,
    STAMP_PATTERN,
};

#[test]
fn url_ending_in_a_name_gives_that_name() {
    assert_eq!(file_name_from_url("https://cdn.example.com/img/abc.webp"), "abc.webp");
    assert_eq!(file_name_from_url("/abc.webp"), "abc.webp");
}

#[test]
fn url_without_final_segment_gives_the_default_name() {
    assert_eq!(DEFAULT_FILE_NAME, "wallpaper.webp");
    assert_eq!(file_name_from_url("https://cdn.example.com/"), "wallpaper.webp");
    assert_eq!(file_name_from_url("https://cdn.example.com/img/"), "wallpaper.webp");
    assert_eq!(file_name_from_url(""), "wallpaper.webp");
    assert_eq!(file_name_from_url("/"), "wallpaper.webp");
}

#[test]
fn url_with_host_and_no_path_gives_the_default_name() {
    assert_eq!(file_name_from_url("https://cdn.example.com"), "wallpaper.webp");
    assert_eq!(file_name_from_url("http://localhost:8080"), "wallpaper.webp");
    assert_eq!(file_name_from_url("://host"), "wallpaper.webp");
    assert_eq!(file_name_from_url("https://"), "wallpaper.webp");
}

#[test]
fn text_without_host_is_taken_as_a_path() {
    assert_eq!(file_name_from_url("abc.webp"), "abc.webp");
    assert_eq!(file_name_from_url("img/abc.webp"), "abc.webp");
    assert_eq!(file_name_from_url("c:/img/abc.webp"), "abc.webp");
    assert_eq!(file_name_from_url("//host"), "host");
    assert_eq!(file_name_from_url("https:/abc.webp"), "abc.webp");
}

#[test]
fn only_the_first_double_slash_marks_a_host() {
    assert_eq!(
        file_name_from_url("https://web.archive.org/web/2020/http://example.com"),
        "example.com"
    );
    assert_eq!(file_name_from_url("https:///abc.webp"), "abc.webp");
    assert_eq!(file_name_from_url("https://h//"), "wallpaper.webp");
}

#[test]
fn query_and_fragment_are_no_part_of_the_name() {
    assert_eq!(file_name_from_url("https://cdn.example/img/abc.webp?sig=1"), "abc.webp");
    assert_eq!(file_name_from_url("https://h/p/a.webp?size=2"), "a.webp");
    assert_eq!(file_name_from_url("https://h/p/a.webp#top"), "a.webp");
    assert_eq!(file_name_from_url("https://h/p/a.webp?x=1#top"), "a.webp");
    assert_eq!(file_name_from_url("https://h/p/a.webp#top?x=1"), "a.webp");
    assert_eq!(file_name_from_url("img/abc.webp?sig=1"), "abc.webp");
    assert_eq!(file_name_from_url("abc.webp#x"), "abc.webp");
}

#[test]
fn slashes_in_query_and_fragment_do_not_count() {
    assert_eq!(file_name_from_url("https://h/img?next=/x/y"), "img");
    assert_eq!(file_name_from_url("https://h/a/b.webp?u=https://o/c.png"), "b.webp");
    assert_eq!(file_name_from_url("https://h/a.webp#/route/x"), "a.webp");
    assert_eq!(file_name_from_url("x?a=b://c/d"), "x");
}

#[test]
fn path_that_ends_before_a_query_without_a_name_gives_the_default_name() {
    assert_eq!(file_name_from_url("https://h/?x=1"), "wallpaper.webp");
    assert_eq!(file_name_from_url("https://h/img/#top"), "wallpaper.webp");
    assert_eq!(file_name_from_url("https://h?x=/a/b.webp"), "wallpaper.webp");
    assert_eq!(file_name_from_url("https://h#/a/b.webp"), "wallpaper.webp");
    assert_eq!(file_name_from_url("?x=1"), "wallpaper.webp");
    assert_eq!(file_name_from_url("#"), "wallpaper.webp");
}

#[test]
fn unicode_stays_in_the_name() {
    assert_eq!(file_name_from_url("https://h/壁纸/画像.webp"), "画像.webp");
    assert_eq!(file_name_from_url("https://h/壁纸/画像.webp?尺寸=2"), "画像.webp");
    assert_eq!(file_name_from_url("https://h/é/"), "wallpaper.webp");
}

#[test]
fn saved_path_is_dir_stamp_and_name() {
    assert_eq!(
        wallpaper_path("C:/walls", "20240131235959", "abc.webp"),
        "C:/walls/20240131235959_abc.webp"
    );
    assert_eq!(wallpaper_path("", "", ""), "/_");
}

#[test]
fn stamp_is_the_local_time_in_fourteen_digits() {
    let before = chrono::Local::now().format(STAMP_PATTERN).to_string();
    let stamp = stamp_now();
    let after = chrono::Local::now().format(STAMP_PATTERN).to_string();
    assert_eq!(stamp.len(), 14);
    assert!(stamp.chars().all(|c| c.is_ascii_digit()));
    assert_ne!(stamp, STAMP_PATTERN);
    if before <= after {
        assert!(before <= stamp && stamp <= after);
    }
}

#[test]
fn new_path_holds_dir_stamp_and_name_from_url() {
    let path = new_wallpaper_path("/tmp/walls", "https://cdn.example.com/x/abc.webp");
    assert!(path.starts_with("/tmp/walls/"));
    assert!(path.ends_with("_abc.webp"));
    let stamp = &path["/tmp/walls/".len()..path.len() - "_abc.webp".len()];
    assert_eq!(stamp.len(), 14);
    assert!(stamp.chars().all(|c| c.is_ascii_digit()));
}

#[test]
fn new_path_leaves_the_query_out() {
    let path = new_wallpaper_path("D:/w", "https://cdn.example/img/abc.webp?sig=1");
    assert!(path.starts_with("D:/w/"));
    assert!(path.ends_with("_abc.webp"));
    assert_eq!(path.len(), "D:/w/".len() + 14 + "_abc.webp".len());
    assert!(!path.contains('?'));
}

#[test]
fn new_path_falls_back_to_the_default_name() {
    let path = new_wallpaper_path("/tmp/walls", "https://cdn.example.com/");
    assert!(path.starts_with("/tmp/walls/"));
    assert!(path.ends_with("_wallpaper.webp"));
}
