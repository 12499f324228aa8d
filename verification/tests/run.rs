use std::collections::{BTreeMap, BTreeSet};

use photoman::date::CalendarDate;
use photoman::destinations::Destinations;
use photoman::error::ArrangeError;
use photoman::exifreader::ExifData;
use photoman::filesearch::{find_folders, FolderEntry, TargetMap, TargetType};
use photoman::iocommands::{FileOperation, MkDir, MoveFile, RmEmptyDir};
use photoman::manager::{FileInfo, Manager, Phase, Plan, SourceEntry, SourceListing};

fn raw_set() -> Vec<String> {
    vec!["arw".to_string(), "raw".to_string()]
}

fn date(y: i32, m: u32, d: u32) -> CalendarDate {
    CalendarDate::new(y, m, d).unwrap()
}

fn taken_on(on: CalendarDate) -> Option<Result<ExifData, ArrangeError>> {
    Some(Ok(ExifData { date: on, camera: None }))
}

/// The operations of the phase after `done`.
fn phase(m: &Manager, plan: &Plan, done: Phase, failed: &Vec<String>) -> Vec<FileOperation> {
    m.next_phase(plan, done, failed).unwrap().1
}

fn entry(path: &str, on: CalendarDate, destination_exists: bool) -> SourceEntry {
    SourceEntry { path: path.to_string(), is_file: true, exif: taken_on(on), destination_exists }
}

fn mv(from: &str, to: &str) -> MoveFile {
    MoveFile { from: from.to_string(), to: to.to_string() }
}

fn mk(target: &str) -> MkDir {
    MkDir { target: target.to_string() }
}

fn rm(target: &str) -> RmEmptyDir {
    RmEmptyDir { target: target.to_string() }
}

fn moves(commands: &Vec<photoman::manager::FileProcessCommands>) -> Vec<MoveFile> {
    commands.iter().filter_map(|c| c.move_file.clone()).collect()
}

fn mkdirs(commands: &Vec<photoman::manager::FileProcessCommands>) -> Vec<MkDir> {
    commands.iter().filter_map(|c| c.possible_mk_dir.clone()).collect()
}

#[test]
fn folder_gives_one_item_per_arranged_file() {
    let m = Manager::new(raw_set()).work_dir("R");
    let mut targets = TargetMap::new();
    let on = date(2020, 6, 21);
    let entries = vec![entry("R/s/01.jpg", on, false), entry("R/s/01.raw", on, false)];
    let commands = m.prepare_commands_for_folder(&entries, &mut targets, &mut Destinations::new());
    assert_eq!(commands.len(), 2);
    assert_eq!(commands[0].possible_mk_dir, Some(mk("R/2020-06-21")));
    assert_eq!(commands[0].move_file, Some(mv("R/s/01.jpg", "R/2020-06-21/01.jpg")));
    assert_eq!(commands[1].possible_mk_dir, Some(mk("R/2020-06-21/raw")));
    assert_eq!(commands[1].move_file, Some(mv("R/s/01.raw", "R/2020-06-21/raw/01.raw")));
}

#[test]
fn folder_passes_over_what_is_not_to_be_arranged() {
    let m = Manager::new(raw_set()).work_dir("R");
    let mut targets = TargetMap::new();
    let on = date(2020, 6, 21);
    let entries = vec![
        SourceEntry { path: "R/s/sub.dir".to_string(), is_file: false, exif: taken_on(on), destination_exists: false },
        entry("R/s/README", on, false),
        SourceEntry { path: "R/s/unread.jpg".to_string(), is_file: true, exif: None, destination_exists: false },
        SourceEntry {
            path: "R/s/broken.jpg".to_string(),
            is_file: true,
            exif: Some(Err(ArrangeError::NoFieldError())),
            destination_exists: false,
        },
        SourceEntry {
            path: "R/s/locked.jpg".to_string(),
            is_file: true,
            exif: Some(Err(ArrangeError::Io(std::io::Error::new(
                std::io::ErrorKind::PermissionDenied,
                "no",
            )))),
            destination_exists: false,
        },
        entry("R/s/good.jpg", on, false),
    ];
    let commands = m.prepare_commands_for_folder(&entries, &mut targets, &mut Destinations::new());
    assert_eq!(commands.len(), 1);
    assert_eq!(commands[0].move_file, Some(mv("R/s/good.jpg", "R/2020-06-21/good.jpg")));
    assert_eq!(commands[0].possible_mk_dir, Some(mk("R/2020-06-21")));
}

#[test]
fn folder_keeps_an_empty_item_for_a_taken_destination() {
    let m = Manager::new(raw_set()).work_dir("R");
    let mut targets = TargetMap::new();
    let on = date(2020, 6, 21);
    let entries = vec![entry("R/s/a.jpg", on, true), entry("R/s/b.jpg", on, false)];
    let commands = m.prepare_commands_for_folder(&entries, &mut targets, &mut Destinations::new());
    assert_eq!(commands.len(), 2);
    assert!(commands[0].is_empty());
    assert_eq!(commands[0].possible_mk_dir, None);
    assert_eq!(commands[1].move_file, Some(mv("R/s/b.jpg", "R/2020-06-21/b.jpg")));
    assert_eq!(commands[1].possible_mk_dir, None);
}

#[test]
fn empty_folder_gives_nothing() {
    let m = Manager::new(raw_set());
    let mut targets = TargetMap::new();
    assert!(m.prepare_commands_for_folder(&Vec::new(), &mut targets, &mut Destinations::new()).is_empty());
}

#[test]
fn one_directory_per_key_whatever_the_order() {
    let on = date(2020, 6, 21);
    let names = ["a.jpg", "b.arw", "c.jpg", "d.arw", "e.jpg", "f.png"];
    for rotation in 0..names.len() {
        let m = Manager::new(raw_set()).work_dir("R");
        let mut targets = TargetMap::new();
        let entries: Vec<SourceEntry> = (0..names.len())
            .map(|i| entry(&format!("R/s/{}", names[(i + rotation) % names.len()]), on, false))
            .collect();
        let commands = m.prepare_commands_for_folder(&entries, &mut targets, &mut Destinations::new());
        let mut made: Vec<String> = mkdirs(&commands).into_iter().map(|d| d.target).collect();
        made.sort();
        assert_eq!(made, vec!["R/2020-06-21".to_string(), "R/2020-06-21/raw".to_string()]);
        for c in moves(&commands) {
            let raw = c.from.ends_with(".arw");
            let dir = if raw { "R/2020-06-21/raw/" } else { "R/2020-06-21/" };
            assert!(c.to.starts_with(dir), "{} -> {}", c.from, c.to);
        }
        assert_eq!(moves(&commands).len(), names.len());
    }
}

#[test]
fn first_file_of_a_key_brings_the_directory() {
    let m = Manager::new(raw_set()).work_dir("R");
    let mut targets = TargetMap::new();
    let entries = vec![
        entry("R/s/a.jpg", date(2020, 6, 21), false),
        entry("R/s/b.jpg", date(2020, 6, 22), false),
        entry("R/s/c.jpg", date(2020, 6, 21), false),
        entry("R/s/d.jpg", date(2020, 6, 22), false),
    ];
    let commands = m.prepare_commands_for_folder(&entries, &mut targets, &mut Destinations::new());
    let made: Vec<Option<MkDir>> = commands.iter().map(|c| c.possible_mk_dir.clone()).collect();
    assert_eq!(made, vec![Some(mk("R/2020-06-21")), Some(mk("R/2020-06-22")), None, None]);
}

#[test]
fn run_gathers_commands_by_phase() {
    let m = Manager::new(raw_set()).work_dir("R");
    let mut targets = TargetMap::new();
    targets.insert(TargetType::IMAGE(date(2022, 10, 2)), "R/2022-10-02 (Pushkin)".to_string());
    let listings = vec![
        SourceListing {
            folder: "R/IMGP1011".to_string(),
            entries: Ok(vec![
                entry("R/IMGP1011/01.jpg", date(2020, 6, 21), false),
                entry("R/IMGP1011/01.raw", date(2020, 6, 21), false),
            ]),
        },
        SourceListing {
            folder: "R/IMGP2011".to_string(),
            entries: Ok(vec![
                entry("R/IMGP2011/02.JPG", date(2022, 10, 2), true),
                entry("R/IMGP2011/03.JPG", date(2022, 10, 2), false),
            ]),
        },
    ];
    let plan = m.arrange_files(&mut targets, &listings);
    assert_eq!(plan.mkdir_commands, vec![mk("R/2020-06-21"), mk("R/2020-06-21/raw")]);
    assert_eq!(
        plan.move_commands,
        vec![
            mv("R/IMGP1011/01.jpg", "R/2020-06-21/01.jpg"),
            mv("R/IMGP1011/01.raw", "R/2020-06-21/raw/01.raw"),
            mv("R/IMGP2011/03.JPG", "R/2022-10-02 (Pushkin)/03.JPG"),
        ]
    );
    assert_eq!(plan.cleanup_commands, vec![rm("R/IMGP1011"), rm("R/IMGP2011")]);
    assert_eq!(targets.get(&TargetType::RAW(date(2020, 6, 21))), Some("R/2020-06-21/raw".to_string()));
}

#[test]
fn folder_that_cannot_be_listed_does_not_stop_the_others() {
    let m = Manager::new(raw_set()).work_dir("R");
    let mut targets = TargetMap::new();
    let listings = vec![
        SourceListing { folder: "R/locked".to_string(), entries: Err(ArrangeError::WalkDirError()) },
        SourceListing {
            folder: "R/open".to_string(),
            entries: Ok(vec![entry("R/open/a.jpg", date(2020, 6, 21), false)]),
        },
    ];
    let plan = m.arrange_files(&mut targets, &listings);
    assert_eq!(plan.mkdir_commands, vec![mk("R/2020-06-21")]);
    assert_eq!(plan.move_commands, vec![mv("R/open/a.jpg", "R/2020-06-21/a.jpg")]);
    assert_eq!(plan.cleanup_commands, vec![rm("R/locked"), rm("R/open")]);
}

#[test]
fn run_without_folders_plans_nothing() {
    let m = Manager::new(raw_set());
    let mut targets = TargetMap::new();
    let plan = m.arrange_files(&mut targets, &Vec::new());
    assert!(plan.mkdir_commands.is_empty() && plan.move_commands.is_empty());
    assert!(plan.cleanup_commands.is_empty());
}

#[test]
fn directory_is_shared_across_folders() {
    let m = Manager::new(raw_set()).work_dir("R");
    let mut targets = TargetMap::new();
    let on = date(2020, 6, 21);
    let listings = vec![
        SourceListing { folder: "R/a".to_string(), entries: Ok(vec![entry("R/a/1.jpg", on, false)]) },
        SourceListing { folder: "R/b".to_string(), entries: Ok(vec![entry("R/b/2.jpg", on, false)]) },
    ];
    let plan = m.arrange_files(&mut targets, &listings);
    assert_eq!(plan.mkdir_commands, vec![mk("R/2020-06-21")]);
    assert_eq!(plan.move_commands.len(), 2);
}

fn sample_plan() -> Plan {
    Plan {
        mkdir_commands: vec![mk("R/2020-06-21"), mk("R/2020-06-22/raw")],
        move_commands: vec![
            mv("R/s/a.jpg", "R/2020-06-21/a.jpg"),
            mv("R/s/b.arw", "R/2020-06-22/raw/b.arw"),
            mv("R/s/c.jpg", "R/2020-06-21/c.jpg"),
            mv("R/s/d.jpg", "R/2019-01-01 old/d.jpg"),
        ],
        cleanup_commands: vec![rm("R/s")],
    }
}

#[test]
fn phases_name_the_operations() {
    let m = Manager::new(raw_set()).work_dir("R");
    let plan = sample_plan();
    assert_eq!(
        phase(&m, &plan, Phase::Planned, &Vec::new()),
        vec![
            FileOperation::CreateDirAll { path: "R/2020-06-21".to_string() },
            FileOperation::CreateDirAll { path: "R/2020-06-22/raw".to_string() },
        ]
    );
    let ops = phase(&m, &plan, Phase::DirectoriesMade, &Vec::new());
    assert_eq!(ops.len(), 4);
    assert_eq!(
        ops[1],
        FileOperation::Rename { from: "R/s/b.arw".to_string(), to: "R/2020-06-22/raw/b.arw".to_string() }
    );
    assert_eq!(phase(&m, &plan, Phase::FilesMoved, &Vec::new()), vec![FileOperation::RemoveDir { path: "R/s".to_string() }]);
}

#[test]
fn moves_into_a_failed_directory_are_left_out() {
    let m = Manager::new(raw_set()).work_dir("R");
    let plan = sample_plan();
    let ops = phase(&m, &plan, Phase::DirectoriesMade, &vec!["R/2020-06-21".to_string()]);
    assert_eq!(
        ops,
        vec![
            FileOperation::Rename { from: "R/s/b.arw".to_string(), to: "R/2020-06-22/raw/b.arw".to_string() },
            FileOperation::Rename { from: "R/s/d.jpg".to_string(), to: "R/2019-01-01 old/d.jpg".to_string() },
        ]
    );
    let all_failed = vec!["R/2020-06-21".to_string(), "R/2020-06-22/raw".to_string()];
    assert_eq!(phase(&m, &plan, Phase::DirectoriesMade, &all_failed).len(), 1);
}

#[test]
fn dry_run_phases_change_nothing() {
    let m = Manager::new(raw_set()).work_dir("R").dry_run();
    let plan = sample_plan();
    let mut ops = phase(&m, &plan, Phase::Planned, &Vec::new());
    ops.extend(phase(&m, &plan, Phase::DirectoriesMade, &Vec::new()));
    ops.extend(phase(&m, &plan, Phase::FilesMoved, &Vec::new()));
    assert_eq!(ops.len(), 7);
    for op in &ops {
        assert!(matches!(op, FileOperation::Report { .. } | FileOperation::Nothing), "{:?}", op);
    }
    assert_eq!(ops[0], FileOperation::Report { line: "create new directory: R/2020-06-21".to_string() });
    assert_eq!(ops[2], FileOperation::Report { line: "R/s/a.jpg ➙ R/2020-06-21/a.jpg".to_string() });
    assert_eq!(ops[6], FileOperation::Nothing);
}

/// A working directory held in memory: its directories, and its files
/// with the capture date that their metadata gives.
#[derive(Clone, PartialEq, Eq, Debug)]
struct Disk {
    dirs: BTreeSet<String>,
    files: BTreeMap<String, Option<CalendarDate>>,
}

impl Disk {
    fn holds(&self, path: &str) -> bool {
        self.dirs.contains(path) || self.files.contains_key(path)
    }

    fn children(&self, dir: &str) -> Vec<String> {
        let prefix = format!("{}/", dir);
        let direct = |p: &&String| p.starts_with(&prefix) && !p[prefix.len()..].contains('/');
        let mut found: Vec<String> = self.dirs.iter().filter(direct).cloned().collect();
        found.extend(self.files.keys().filter(direct).cloned());
        found
    }

    fn apply(&mut self, op: &FileOperation) {
        match op {
            FileOperation::Rename { from, to } => {
                let moved = self.files.remove(from).unwrap();
                assert!(!self.holds(to), "overwrites {}", to);
                self.files.insert(to.clone(), moved);
            }
            FileOperation::CreateDirAll { path } => {
                let mut at = String::new();
                for part in path.split('/') {
                    if !at.is_empty() {
                        at.push('/');
                    }
                    at.push_str(part);
                    self.dirs.insert(at.clone());
                }
            }
            FileOperation::RemoveDir { path } => {
                if self.children(path).is_empty() {
                    self.dirs.remove(path);
                }
            }
            FileOperation::Report { .. } | FileOperation::Nothing => {}
        }
    }
}

/// The sample working directory.
fn suite(root: &str) -> Disk {
    let mut disk = Disk { dirs: BTreeSet::new(), files: BTreeMap::new() };
    for dir in ["", "/IMGP1011", "/IMGP2011", "/2022-10-02 (Pushkin)"] {
        disk.dirs.insert(format!("{}{}", root, dir));
    }
    let files = [
        ("/IMGP1011/01.jpg", Some(date(2020, 6, 21))),
        ("/IMGP1011/01.raw", Some(date(2020, 6, 21))),
        ("/IMGP2011/02.JPG", Some(date(2022, 10, 2))),
        ("/IMGP2011/03.JPG", Some(date(2022, 10, 2))),
        ("/2022-10-02 (Pushkin)/02.JPG", Some(date(2022, 10, 2))),
    ];
    for (path, on) in files {
        disk.files.insert(format!("{}{}", root, path), on);
    }
    disk
}

/// Observes the disk, lets the manager plan, and carries the plan out.
/// Returns the number of file operations that were asked for.
fn arrange(disk: &mut Disk, manager: &Manager) -> (usize, Plan) {
    let root = manager.work_dir.clone();
    let listing = disk
        .children(&root)
        .into_iter()
        .map(|path| FolderEntry {
            name: path[root.len() + 1..].to_string(),
            is_dir: disk.dirs.contains(&path),
            has_raw_folder: disk.dirs.contains(&format!("{}/{}", path, manager.raw_folder)),
        })
        .collect();
    let folders = find_folders(&root, &manager.raw_folder, Ok(listing)).unwrap();
    let mut targets = folders.target;
    let listings: Vec<SourceListing> = folders
        .source
        .iter()
        .map(|folder| {
            let entries = disk
                .children(folder)
                .into_iter()
                .map(|path| {
                    let is_file = disk.files.contains_key(&path);
                    let kind = manager.wanted_kind(&path, is_file);
                    let exif = match (kind, disk.files.get(&path)) {
                        (None, _) => None,
                        (_, Some(Some(on))) => taken_on(*on),
                        _ => Some(Err(ArrangeError::NoFieldError())),
                    };
                    let destination_exists = match (kind, &exif) {
                        (Some(f_type), Some(Ok(data))) => {
                            let info = FileInfo { path: path.clone(), exif: data.clone(), f_type };
                            manager.destination(&targets, &info).map_or(false, |d| disk.holds(&d))
                        }
                        _ => false,
                    };
                    SourceEntry { path, is_file, exif, destination_exists }
                })
                .collect();
            SourceListing { folder: folder.clone(), entries: Ok(entries) }
        })
        .collect();
    let plan = manager.arrange_files(&mut targets, &listings);
    let mut changes = 0;
    let mut done = Phase::Planned;
    while let Some((next, ops)) = manager.next_phase(&plan, done, &Vec::new()) {
        for op in &ops {
            if !matches!(op, FileOperation::Report { .. } | FileOperation::Nothing) {
                changes += 1;
            }
            disk.apply(op);
        }
        done = next;
    }
    assert_eq!(done, Phase::Cleaned);
    (changes, plan)
}

#[test]
fn standard_execution() {
    let test_dir = "standard_execution";
    let mut disk = suite(test_dir);
    let manager = Manager::new(raw_set()).work_dir(test_dir);
    arrange(&mut disk, &manager);

    let dir_2020_06_21 = format!("{}/{}", test_dir, "2020-06-21");
    let dir_2020_06_21_raw = format!("{}/{}", dir_2020_06_21, "raw");
    let dir_2022_10_02 = format!("{}/{}", test_dir, "2022-10-02 (Pushkin)");

    assert!(disk.holds(&dir_2020_06_21));
    assert!(disk.holds(&format!("{}/{}", dir_2020_06_21, "01.jpg")));
    assert!(disk.holds(&dir_2020_06_21_raw));

    assert!(disk.holds(&format!("{}/{}", dir_2022_10_02, "02.JPG")));
    assert!(disk.holds(&format!("{}/{}", dir_2022_10_02, "03.JPG")));

    assert!(!disk.holds(&format!("{}/{}", test_dir, "2022-10-02")));

    assert!(disk.holds(&format!("{}/{}/{}", test_dir, "IMGP2011", "02.JPG")));
    assert!(!disk.holds(&format!("{}/{}", test_dir, "IMGP1011")));
}

#[allow(non_snake_case)]
#[test]
fn dry_run() {
    let test_dir = "dry_run";
    let mut disk = suite(test_dir);
    let manager = Manager::new(raw_set()).work_dir(test_dir).dry_run();
    arrange(&mut disk, &manager);

    let dir_2020_06_21 = format!("{}/{}", test_dir, "2020-06-21");
    let dir_2022_10_02 = format!("{}/{}", test_dir, "2022-10-02 (Pushkin)");
    let dir_IMGP1011 = format!("{}/{}", test_dir, "IMGP1011");
    let dir_IMGP2011 = format!("{}/{}", test_dir, "IMGP2011");

    assert!(!disk.holds(&dir_2020_06_21));

    assert!(disk.holds(&dir_IMGP1011));
    assert!(disk.holds(&format!("{}/{}", dir_IMGP1011, "01.jpg")));
    assert!(disk.holds(&format!("{}/{}", dir_IMGP1011, "01.raw")));

    assert!(disk.holds(&format!("{}/{}", dir_IMGP2011, "02.JPG")));
    assert!(disk.holds(&format!("{}/{}", dir_IMGP2011, "03.JPG")));

    assert!(disk.holds(&format!("{}/{}", dir_2022_10_02, "02.JPG")));

    assert!(!disk.holds(&format!("{}/{}", test_dir, "2022-10-02")));
}

#[test]
fn dry_run_leaves_the_disk_as_it_is() {
    let mut disk = suite("R");
    let before = disk.clone();
    let manager = Manager::new(raw_set()).work_dir("R").dry_run();
    let (changes, plan) = arrange(&mut disk, &manager);
    assert_eq!(changes, 0);
    assert_eq!(disk, before);
    assert_eq!(plan.move_commands.len(), 3);
    assert_eq!(plan.mkdir_commands.len(), 2);
}

#[test]
fn standard_run_plans_the_expected_commands() {
    let mut disk = suite("R");
    let manager = Manager::new(raw_set()).work_dir("R");
    let (changes, plan) = arrange(&mut disk, &manager);
    assert_eq!(plan.mkdir_commands, vec![mk("R/2020-06-21"), mk("R/2020-06-21/raw")]);
    assert_eq!(
        plan.move_commands,
        vec![
            mv("R/IMGP1011/01.jpg", "R/2020-06-21/01.jpg"),
            mv("R/IMGP1011/01.raw", "R/2020-06-21/raw/01.raw"),
            mv("R/IMGP2011/03.JPG", "R/2022-10-02 (Pushkin)/03.JPG"),
        ]
    );
    assert_eq!(changes, 2 + 3 + 2);
    assert_eq!(disk.files.len(), 5);
}

#[test]
fn second_run_moves_nothing() {
    let mut disk = suite("R");
    let manager = Manager::new(raw_set()).work_dir("R");
    arrange(&mut disk, &manager);
    let after_first = disk.clone();
    let (_, plan) = arrange(&mut disk, &manager);
    assert!(plan.move_commands.is_empty());
    assert!(plan.mkdir_commands.is_empty());
    assert_eq!(disk, after_first);
}

#[test]
fn files_without_date_or_extension_stay() {
    let mut disk = suite("R");
    disk.files.insert("R/IMGP1011/notes".to_string(), Some(date(2020, 6, 21)));
    disk.files.insert("R/IMGP1011/scan.jpg".to_string(), None);
    let manager = Manager::new(raw_set()).work_dir("R");
    let (_, plan) = arrange(&mut disk, &manager);
    assert_eq!(plan.move_commands.len(), 3);
    assert!(disk.holds("R/IMGP1011/notes"));
    assert!(disk.holds("R/IMGP1011/scan.jpg"));
    assert!(disk.holds("R/IMGP1011"));
}

#[test]
fn phases_follow_one_another() {
    let m = Manager::new(raw_set()).work_dir("R");
    let plan = sample_plan();
    let none = Vec::new();
    let (first, dirs) = m.next_phase(&plan, Phase::Planned, &none).unwrap();
    assert_eq!(first, Phase::DirectoriesMade);
    assert!(dirs.iter().all(|op| matches!(op, FileOperation::CreateDirAll { .. })));
    let (second, moves) = m.next_phase(&plan, first, &none).unwrap();
    assert_eq!(second, Phase::FilesMoved);
    assert!(moves.iter().all(|op| matches!(op, FileOperation::Rename { .. })));
    let (third, removals) = m.next_phase(&plan, second, &none).unwrap();
    assert_eq!(third, Phase::Cleaned);
    assert!(removals.iter().all(|op| matches!(op, FileOperation::RemoveDir { .. })));
    assert!(m.next_phase(&plan, third, &none).is_none());
}

#[test]
fn two_files_of_one_name_and_date_do_not_share_a_destination() {
    let m = Manager::new(raw_set()).work_dir("R");
    let mut targets = TargetMap::new();
    let on = date(2020, 6, 21);
    let listings = vec![
        SourceListing { folder: "R/S1".to_string(), entries: Ok(vec![entry("R/S1/a.jpg", on, false)]) },
        SourceListing { folder: "R/S2".to_string(), entries: Ok(vec![entry("R/S2/a.jpg", on, false)]) },
    ];
    let plan = m.arrange_files(&mut targets, &listings);
    assert_eq!(plan.mkdir_commands, vec![mk("R/2020-06-21")]);
    assert_eq!(plan.move_commands, vec![mv("R/S1/a.jpg", "R/2020-06-21/a.jpg")]);
    assert_eq!(plan.cleanup_commands, vec![rm("R/S1"), rm("R/S2")]);
}

#[test]
fn destinations_of_a_plan_are_pairwise_different() {
    let m = Manager::new(raw_set()).work_dir("R");
    let mut targets = TargetMap::new();
    let names = ["a.jpg", "b.jpg", "a.jpg", "a.arw", "b.jpg", "a.arw", "c.png"];
    let listings: Vec<SourceListing> = (0..4)
        .map(|f| SourceListing {
            folder: format!("R/S{}", f),
            entries: Ok(names
                .iter()
                .map(|n| entry(&format!("R/S{}/{}", f, n), date(2020, 6, 21 + (f % 2)), false))
                .collect()),
        })
        .collect();
    let plan = m.arrange_files(&mut targets, &listings);
    let mut seen = BTreeSet::new();
    for c in &plan.move_commands {
        assert!(seen.insert(c.to.clone()), "two moves to {}", c.to);
    }
    assert_eq!(plan.move_commands.len(), 2 * 4);
}

#[test]
fn a_file_that_would_overwrite_stays_and_no_file_is_lost() {
    let mut disk = suite("R");
    disk.dirs.insert("R/OTHER".to_string());
    disk.files.insert("R/OTHER/01.jpg".to_string(), Some(date(2020, 6, 21)));
    let manager = Manager::new(raw_set()).work_dir("R");
    let (_, plan) = arrange(&mut disk, &manager);
    assert_eq!(plan.move_commands.len(), 3);
    assert_eq!(disk.files.len(), 6);
    assert!(disk.holds("R/2020-06-21/01.jpg"));
    let kept = ["R/IMGP1011/01.jpg", "R/OTHER/01.jpg"];
    assert_eq!(kept.iter().filter(|p| disk.holds(p)).count(), 1);
    let (_, again) = arrange(&mut disk, &manager);
    assert!(again.move_commands.is_empty());
    assert_eq!(disk.files.len(), 6);
}
