use manyacg_wallpaper::retention::{
    attach_times, duplicate_entries, image_entries, is_image_name, plan_sweep, Entry, FileInfo,
    IMAGE_EXTENSION, KEEP_COUNT,
};

fn image(name: &str, modified: i128) -> FileInfo {
    FileInfo { name: name.to_string(), is_file: true, modified }
}

fn file(name: &str) -> Entry {
    Entry { name: name.to_string(), is_file: true }
}

fn folder(name: &str) -> Entry {
    Entry { name: name.to_string(), is_file: false }
}

fn mixed_entries() -> Vec<Entry> {
    vec![file("notes.txt"), file("a.webp"), folder("old.webp"), file("b.webp"), file(".webp")]
}

#[test]
fn listed_entry_is_image_only_if_regular_file() {
    assert!(file("a.webp").is_image());
    assert!(!file("a.txt").is_image());
    assert!(!folder("a.webp").is_image());
    assert_eq!(file("a.webp").duplicate(), file("a.webp"));
}

#[test]
fn image_entries_are_listed_in_order() {
    assert_eq!(image_entries(&mixed_entries()), vec![1, 3]);
    assert_eq!(image_entries(&Vec::new()), Vec::<usize>::new());
    assert_eq!(image_entries(&vec![folder("x.webp"), file("y")]), Vec::<usize>::new());
    assert_eq!(image_entries(&vec![file("x.webp"), file("y.webp")]), vec![0, 1]);
}

#[test]
fn entries_are_copied_one_by_one() {
    assert_eq!(duplicate_entries(&mixed_entries()), mixed_entries());
    assert_eq!(duplicate_entries(&Vec::new()), Vec::<Entry>::new());
}

#[test]
fn times_go_to_the_images_in_listing_order() {
    let files = attach_times(&mixed_entries(), &vec![70, -3]).unwrap();
    assert_eq!(
        files,
        vec![
            image("notes.txt", 0),
            image("a.webp", 70),
            FileInfo { name: "old.webp".to_string(), is_file: false, modified: 0 },
            image("b.webp", -3),
            image(".webp", 0),
        ]
    );
    assert_eq!(attach_times(&Vec::new(), &Vec::new()), Some(Vec::new()));
}

#[test]
fn times_must_be_as_many_as_the_images() {
    assert_eq!(attach_times(&mixed_entries(), &vec![70]), None);
    assert_eq!(attach_times(&mixed_entries(), &vec![70, 80, 90]), None);
    assert_eq!(attach_times(&mixed_entries(), &Vec::new()), None);
    assert_eq!(attach_times(&Vec::new(), &vec![1]), None);
    assert_eq!(attach_times(&vec![file("a.txt")], &vec![1]), None);
}

#[test]
fn extension_and_keep_count_are_fixed() {
    assert_eq!(IMAGE_EXTENSION, "webp");
    assert_eq!(KEEP_COUNT, 5);
}

#[test]
fn image_names_end_in_dot_webp() {
    assert!(is_image_name("a.webp"));
    assert!(is_image_name("20240101120000_abc.webp"));
    assert!(is_image_name("archive.tar.webp"));
    assert!(is_image_name("..webp"));
    assert!(is_image_name("画像.webp"));
}

#[test]
fn other_names_are_no_image_names() {
    assert!(!is_image_name(""));
    assert!(!is_image_name("webp"));
    assert!(!is_image_name(".webp"));
    assert!(!is_image_name("a.WEBP"));
    assert!(!is_image_name("a.webp.txt"));
    assert!(!is_image_name("a.webp "));
    assert!(!is_image_name("a.web"));
    assert!(!is_image_name("awebp"));
    assert!(!is_image_name("a.png"));
    assert!(!is_image_name("a."));
}

#[test]
fn entry_is_image_only_if_regular_file() {
    assert!(image("a.webp", 0).is_image());
    assert!(!image("a.txt", 0).is_image());
    let dir = FileInfo { name: "a.webp".to_string(), is_file: false, modified: 0 };
    assert!(!dir.is_image());
}

#[test]
fn eight_images_keep_the_five_newest() {
    let files = vec![
        image("a.webp", 30),
        image("b.webp", 80),
        image("c.webp", 10),
        image("d.webp", 60),
        image("e.webp", 20),
        image("f.webp", 70),
        image("g.webp", 50),
        image("h.webp", 40),
    ];
    // newest first: b f d g h | a e c
    assert_eq!(plan_sweep(&files, 5), vec![0, 4, 2]);
}

#[test]
fn six_images_lose_the_oldest() {
    let files = vec![
        image("1.webp", 600),
        image("2.webp", 100),
        image("3.webp", 500),
        image("4.webp", 400),
        image("5.webp", 300),
        image("6.webp", 200),
    ];
    assert_eq!(plan_sweep(&files, KEEP_COUNT), vec![1]);
}

#[test]
fn five_or_fewer_images_are_left_alone() {
    let mut files = Vec::new();
    assert_eq!(plan_sweep(&files, 5), Vec::<usize>::new());
    for i in 0..5 {
        files.push(image(&format!("w{}.webp", i), 100 - i as i128));
        assert_eq!(plan_sweep(&files, 5), Vec::<usize>::new());
    }
}

#[test]
fn only_image_files_count_and_are_removed() {
    let files = vec![
        image("notes.txt", 1),
        image("a.webp", 10),
        FileInfo { name: "old.webp".to_string(), is_file: false, modified: 0 },
        image("b.webp", 20),
        image(".webp", 2),
        image("c.webp", 30),
        image("d.WEBP", 3),
    ];
    assert_eq!(plan_sweep(&files, 3), Vec::<usize>::new());
    assert_eq!(plan_sweep(&files, 2), vec![1]);
    assert_eq!(plan_sweep(&files, 1), vec![3, 1]);
    assert_eq!(plan_sweep(&files, 0), vec![5, 3, 1]);
}

#[test]
fn equal_times_keep_the_earlier_listed() {
    let files = vec![image("a.webp", 7), image("b.webp", 7), image("c.webp", 7)];
    assert_eq!(plan_sweep(&files, 1), vec![1, 2]);
    assert_eq!(plan_sweep(&files, 2), vec![2]);
    let files =
        vec![image("a.webp", 5), image("b.webp", 9), image("c.webp", 5), image("d.webp", 9)];
    // newest first: b d a c
    assert_eq!(plan_sweep(&files, 1), vec![3, 0, 2]);
    assert_eq!(plan_sweep(&files, 3), vec![2]);
}

#[test]
fn times_before_the_epoch_and_far_ahead_are_ordered() {
    let files = vec![
        image("a.webp", -5),
        image("b.webp", i128::MIN),
        image("c.webp", i128::MAX),
        image("d.webp", 0),
    ];
    assert_eq!(plan_sweep(&files, 2), vec![0, 1]);
}

#[test]
fn removed_and_kept_partition_the_images() {
    let mut files = Vec::new();
    for i in 0..20 {
        let modified = ((i * 7919) % 101) as i128;
        files.push(image(&format!("w{}.webp", i), modified));
    }
    let doomed = plan_sweep(&files, 5);
    assert_eq!(doomed.len(), 15);
    let mut kept: Vec<usize> = (0..20).filter(|i| !doomed.contains(i)).collect();
    assert_eq!(kept.len(), 5);
    kept.sort_by_key(|&i| files[i].modified);
    let oldest_kept = files[kept[0]].modified;
    for &d in &doomed {
        assert!(files[d].modified < oldest_kept);
    }
    for pair in doomed.windows(2) {
        assert!(files[pair[0]].modified > files[pair[1]].modified);
    }
}
