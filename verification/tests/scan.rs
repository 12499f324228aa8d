use photoman::date::CalendarDate;
use photoman::error::ArrangeError;
use photoman::filesearch::{find_folders, sort_folders, FolderEntry, TargetMap, TargetType};

fn dir(name: &str, has_raw_folder: bool) -> FolderEntry {
    FolderEntry { name: name.to_string(), is_dir: true, has_raw_folder }
}

fn file(name: &str) -> FolderEntry {
    FolderEntry { name: name.to_string(), is_dir: false, has_raw_folder: false }
}

fn date(y: i32, m: u32, d: u32) -> CalendarDate {
    CalendarDate::new(y, m, d).unwrap()
}

#[test]
fn undated_directories_are_sources() {
    let folders = sort_folders("R", "raw", &vec![dir("IMGP1011", false), dir("IMGP2011", false)]);
    assert_eq!(folders.source, vec!["R/IMGP1011".to_string(), "R/IMGP2011".to_string()]);
    assert_eq!(folders.target.get(&TargetType::IMAGE(date(2020, 6, 21))), None);
}

#[test]
fn dated_directory_is_a_target_for_images() {
    let folders = sort_folders("R", "raw", &vec![dir("2022-10-02 (Pushkin)", false)]);
    assert!(folders.source.is_empty());
    assert_eq!(
        folders.target.get(&TargetType::IMAGE(date(2022, 10, 2))),
        Some("R/2022-10-02 (Pushkin)".to_string())
    );
    assert_eq!(folders.target.get(&TargetType::RAW(date(2022, 10, 2))), None);
}

#[test]
fn raw_folder_inside_dated_directory_is_a_target_for_raw() {
    let folders = sort_folders("R", "raw", &vec![dir("2020-06-21", true)]);
    assert_eq!(
        folders.target.get(&TargetType::IMAGE(date(2020, 6, 21))),
        Some("R/2020-06-21".to_string())
    );
    assert_eq!(
        folders.target.get(&TargetType::RAW(date(2020, 6, 21))),
        Some("R/2020-06-21/raw".to_string())
    );
}

#[test]
fn raw_folder_name_is_configurable() {
    let folders = sort_folders("R", "negatives", &vec![dir("2020-06-21 trip", true)]);
    assert_eq!(
        folders.target.get(&TargetType::RAW(date(2020, 6, 21))),
        Some("R/2020-06-21 trip/negatives".to_string())
    );
}

#[test]
fn plain_files_in_the_root_are_ignored() {
    let folders = sort_folders("R", "raw", &vec![file("notes.txt"), file("2020-06-21")]);
    assert!(folders.source.is_empty());
    assert_eq!(folders.target.get(&TargetType::IMAGE(date(2020, 6, 21))), None);
}

#[test]
fn later_directory_of_the_same_date_wins() {
    let folders =
        sort_folders("R", "raw", &vec![dir("2020-06-21 (a)", true), dir("2020-06-21 (b)", false)]);
    assert_eq!(
        folders.target.get(&TargetType::IMAGE(date(2020, 6, 21))),
        Some("R/2020-06-21 (b)".to_string())
    );
    assert_eq!(
        folders.target.get(&TargetType::RAW(date(2020, 6, 21))),
        Some("R/2020-06-21 (a)/raw".to_string())
    );
}

#[test]
fn directory_with_impossible_date_is_neither_source_nor_target() {
    let folders = sort_folders("R", "raw", &vec![dir("2020-13-45", false), dir("src", false)]);
    assert_eq!(folders.source, vec!["R/src".to_string()]);
}

#[test]
fn sources_keep_listing_order() {
    let folders = sort_folders(
        ".",
        "raw",
        &vec![dir("b", false), dir("2020-01-01", false), dir("a", false), file("c")],
    );
    assert_eq!(folders.source, vec!["./b".to_string(), "./a".to_string()]);
}

#[test]
fn find_folders_scans_a_listing() {
    let folders = find_folders("R", "raw", Ok(vec![dir("in", false), dir("2020-06-21", false)])).unwrap();
    assert_eq!(folders.source, vec!["R/in".to_string()]);
    assert_eq!(
        folders.target.get(&TargetType::IMAGE(date(2020, 6, 21))),
        Some("R/2020-06-21".to_string())
    );
}

#[test]
fn find_folders_fails_when_root_cannot_be_listed() {
    let failure = std::io::Error::new(std::io::ErrorKind::NotFound, "gone");
    let r = find_folders("R", "raw", Err(failure));
    assert!(matches!(r, Err(ArrangeError::WalkDirError())));
}

#[test]
fn new_target_map_is_empty() {
    let map = TargetMap::new();
    assert_eq!(map.get(&TargetType::IMAGE(date(2020, 6, 21))), None);
    assert_eq!(map.get(&TargetType::RAW(date(2020, 6, 21))), None);
}

#[test]
fn insert_binds_and_replaces() {
    let mut map = TargetMap::new();
    let key = TargetType::IMAGE(date(2020, 6, 21));
    map.insert(key, "R/a".to_string());
    assert_eq!(map.get(&key), Some("R/a".to_string()));
    map.insert(key, "R/b".to_string());
    assert_eq!(map.get(&key), Some("R/b".to_string()));
}

#[test]
fn keys_differ_by_bucket_and_by_date() {
    let mut map = TargetMap::new();
    map.insert(TargetType::IMAGE(date(2020, 6, 21)), "image".to_string());
    map.insert(TargetType::RAW(date(2020, 6, 21)), "raw".to_string());
    map.insert(TargetType::IMAGE(date(2020, 6, 22)), "next".to_string());
    map.insert(TargetType::IMAGE(date(2021, 6, 21)), "year".to_string());
    map.insert(TargetType::IMAGE(date(2020, 7, 21)), "month".to_string());
    assert_eq!(map.get(&TargetType::IMAGE(date(2020, 6, 21))), Some("image".to_string()));
    assert_eq!(map.get(&TargetType::RAW(date(2020, 6, 21))), Some("raw".to_string()));
    assert_eq!(map.get(&TargetType::IMAGE(date(2020, 6, 22))), Some("next".to_string()));
    assert_eq!(map.get(&TargetType::IMAGE(date(2021, 6, 21))), Some("year".to_string()));
    assert_eq!(map.get(&TargetType::IMAGE(date(2020, 7, 21))), Some("month".to_string()));
    assert_eq!(map.get(&TargetType::RAW(date(2020, 6, 22))), None);
}

#[test]
fn get_or_insert_binds_a_free_key() {
    let mut map = TargetMap::new();
    let key = TargetType::RAW(date(2020, 6, 21));
    assert_eq!(map.get_or_insert(key, "R/x".to_string()), ("R/x".to_string(), true));
    assert_eq!(map.get(&key), Some("R/x".to_string()));
}

#[test]
fn get_or_insert_keeps_a_bound_key() {
    let mut map = TargetMap::new();
    let key = TargetType::RAW(date(2020, 6, 21));
    map.insert(key, "R/old".to_string());
    assert_eq!(map.get_or_insert(key, "R/new".to_string()), ("R/old".to_string(), false));
    assert_eq!(map.get(&key), Some("R/old".to_string()));
}
