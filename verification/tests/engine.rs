use std::collections::{HashMap, HashSet};

use photo_renamer::config::RenamerConfig;
use photo_renamer::engine::{error_report, error_report_name, Action, Event, Failure, Run, Transfer};
use photo_renamer::grouping::{get_all_filenames_in_scope, StemGroup};
use photo_renamer::ledger::Ledger;
use photo_renamer::media::MediaFile;
use photo_renamer::timestamp::Timestamp;

struct World {
    exif: HashMap<String, Timestamp>,
    modified: HashMap<String, Timestamp>,
    existing: HashSet<String>,
    recorded: Vec<String>,
    asked: Vec<Action>,
}

impl World {
    fn new() -> World {
        World {
            exif: HashMap::new(),
            modified: HashMap::new(),
            existing: HashSet::new(),
            recorded: Vec::new(),
            asked: Vec::new(),
        }
    }

    fn answer(&mut self, action: Action) -> Option<Event> {
        let event = match &action {
            Action::ReadExif { path } => Event::Exif(self.exif.get(path).copied()),
            Action::ReadModified { path } => Event::Modified(self.modified.get(path).copied()),
            Action::Probe { path } => Event::Exists(self.existing.contains(path)),
            Action::Copy { source, target } => {
                assert!(self.existing.insert(target.clone()), "overwrote {}", target);
                self.recorded.push(source.clone());
                Event::Transferred
            }
            Action::Announce { .. } => Event::Transferred,
            Action::Finish => return None,
        };
        self.asked.push(action);
        Some(event)
    }

    fn drive(&mut self, run: &mut Run) {
        let mut steps = 0;
        while let Some(event) = self.answer(run.action()) {
            run.advance(event);
            steps += 1;
            assert!(steps < 100_000);
        }
        assert!(run.is_finished());
    }
}

fn at(hour: u8) -> Timestamp {
    Timestamp::new(2023, 1, 1, hour, 0, 0).unwrap()
}

fn file(path: &str) -> MediaFile {
    let name = path.rsplit('/').next().unwrap();
    MediaFile::new(path.to_string(), name.to_string())
}

fn groups(paths: &[&str]) -> Vec<StemGroup> {
    let found: Vec<MediaFile> = paths.iter().map(|p| file(p)).collect();
    get_all_filenames_in_scope(&RenamerConfig::new(), &found)
}

fn transfer(source: &str, target: &str) -> Transfer {
    Transfer { source: source.to_string(), target: target.to_string() }
}

fn run_over(paths: &[&str], ledger: Ledger, test_mode: bool) -> Run {
    Run::new(RenamerConfig::new(), groups(paths), ledger, test_mode)
}

#[test]
fn a_run_without_files_is_over_at_once() {
    let run = run_over(&[], Ledger::new(), false);
    assert!(run.is_finished());
    assert_eq!(run.action(), Action::Finish);
    assert_eq!(run.conclude(), Ok(0));
    assert_eq!(run.progress(), (0, 0));
}

#[test]
fn group_shares_the_one_exif_timestamp() {
    let mut world = World::new();
    world.exif.insert("/p/IMG_1.jpg".to_string(), at(9));
    world.modified.insert("/p/IMG_1.dng".to_string(), at(20));
    let mut run = run_over(&["/p/IMG_1.jpg", "/p/IMG_1.dng"], Ledger::new(), false);
    world.drive(&mut run);
    assert_eq!(
        run.transfers(),
        &vec![
            transfer("/p/IMG_1.jpg", "./output/20230101_090000.jpg"),
            transfer("/p/IMG_1.dng", "./output_raw/20230101_090000.dng"),
        ]
    );
    assert!(!world.asked.iter().any(|a| matches!(a, Action::ReadModified { .. })));
    assert_eq!(run.conclude(), Ok(2));
}

#[test]
fn members_of_an_ambiguous_group_go_their_own_way() {
    let mut world = World::new();
    world.exif.insert("/p/IMG_1.jpg".to_string(), at(9));
    world.exif.insert("/p/IMG_1.tiff".to_string(), at(10));
    world.modified.insert("/p/IMG_1.dng".to_string(), at(20));
    let mut run = run_over(&["/p/IMG_1.jpg", "/p/IMG_1.tiff", "/p/IMG_1.dng"], Ledger::new(), false);
    world.drive(&mut run);
    assert_eq!(
        run.transfers(),
        &vec![
            transfer("/p/IMG_1.jpg", "./output/20230101_090000.jpg"),
            transfer("/p/IMG_1.tiff", "./output/20230101_100000.tiff"),
            transfer("/p/IMG_1.dng", "./output_raw/20230101_200000.dng"),
        ]
    );
}

#[test]
fn filename_timestamp_names_the_copy() {
    let mut world = World::new();
    world.modified.insert("/p/IMG_20230115_142233.jpg".to_string(), at(20));
    let mut run = run_over(&["/p/IMG_20230115_142233.jpg"], Ledger::new(), false);
    world.drive(&mut run);
    assert_eq!(
        run.transfers(),
        &vec![transfer("/p/IMG_20230115_142233.jpg", "./output/20230115_142233.jpg")]
    );
    assert!(!world.asked.iter().any(|a| matches!(a, Action::ReadModified { .. })));
}

#[test]
fn modification_time_is_the_last_resort() {
    let mut world = World::new();
    world.modified.insert("/p/holiday.mov".to_string(), at(20));
    let mut run = run_over(&["/p/holiday.mov"], Ledger::new(), false);
    world.drive(&mut run);
    assert_eq!(run.transfers(), &vec![transfer("/p/holiday.mov", "./output/20230101_200000.mov")]);
    assert_eq!(
        world.asked,
        vec![
            Action::ReadExif { path: "/p/holiday.mov".to_string() },
            Action::ReadModified { path: "/p/holiday.mov".to_string() },
            Action::Probe { path: "./output/20230101_200000.mov".to_string() },
            Action::Copy {
                source: "/p/holiday.mov".to_string(),
                target: "./output/20230101_200000.mov".to_string()
            },
        ]
    );
}

#[test]
fn live_photo_marker_needs_no_exif() {
    let mut world = World::new();
    let mut run = run_over(&["/p/MVIMG_20230101_010101.jpg"], Ledger::new(), false);
    world.drive(&mut run);
    assert_eq!(
        run.transfers(),
        &vec![transfer("/p/MVIMG_20230101_010101.jpg", "./output/20230101_010101.mp.jpg")]
    );
    let mut world = World::new();
    world.exif.insert("/p/MVIMG_20230101_010101.jpg".to_string(), at(9));
    let mut run = run_over(&["/p/MVIMG_20230101_010101.jpg"], Ledger::new(), false);
    world.drive(&mut run);
    assert_eq!(
        run.transfers(),
        &vec![transfer("/p/MVIMG_20230101_010101.jpg", "./output/20230101_090000.mp.jpg")]
    );
}

#[test]
fn collision_counter() {
    let mut world = World::new();
    world.existing.insert("./output/20230101_120000.jpg".to_string());
    world.exif.insert("/p/a.jpg".to_string(), at(12));
    let mut run = run_over(&["/p/a.jpg"], Ledger::new(), false);
    world.drive(&mut run);
    assert_eq!(run.transfers(), &vec![transfer("/p/a.jpg", "./output/20230101_120000.1.jpg")]);
    assert!(world.existing.contains("./output/20230101_120000.jpg"));
    assert!(world.existing.contains("./output/20230101_120000.1.jpg"));
    assert_eq!(run.conclude(), Ok(1));
}

#[test]
fn files_of_one_moment_get_counters_in_turn() {
    let mut world = World::new();
    for path in ["/p/a.jpg", "/p/b.jpg", "/p/c.jpg"] {
        world.exif.insert(path.to_string(), at(12));
    }
    let mut run = run_over(&["/p/a.jpg", "/p/b.jpg", "/p/c.jpg"], Ledger::new(), false);
    world.drive(&mut run);
    assert_eq!(
        run.transfers(),
        &vec![
            transfer("/p/a.jpg", "./output/20230101_120000.jpg"),
            transfer("/p/b.jpg", "./output/20230101_120000.1.jpg"),
            transfer("/p/c.jpg", "./output/20230101_120000.2.jpg"),
        ]
    );
}

#[test]
fn a_file_without_any_timestamp_is_reported() {
    let mut world = World::new();
    world.exif.insert("/p/b.jpg".to_string(), at(12));
    let mut run = run_over(&["/p/a.jpg", "/p/b.jpg"], Ledger::new(), false);
    world.drive(&mut run);
    assert_eq!(run.transfers(), &vec![transfer("/p/b.jpg", "./output/20230101_120000.jpg")]);
    assert_eq!(run.errors(), &vec!["Unable to determine valid datetime for /p/a.jpg".to_string()]);
    assert!(!run.ledger().is_processed("/p/a.jpg"));
    assert!(run.ledger().is_processed("/p/b.jpg"));
    assert_eq!(
        run.conclude(),
        Err(Failure {
            report: "Unable to determine valid datetime for /p/a.jpg".to_string(),
            message: "1 errors found when renaming files".to_string(),
        })
    );
}

#[test]
fn a_file_without_a_free_name_is_reported() {
    let mut world = World::new();
    world.exif.insert("/p/a.jpg".to_string(), at(12));
    world.existing.insert("./output/20230101_120000.jpg".to_string());
    for counter in 1..99 {
        world.existing.insert(format!("./output/20230101_120000.{}.jpg", counter));
    }
    let mut run = run_over(&["/p/a.jpg", "/p/b.jpg"], Ledger::new(), false);
    world.drive(&mut run);
    assert_eq!(run.transfers(), &Vec::new());
    assert_eq!(
        run.errors(),
        &vec![
            "No free output name for /p/a.jpg".to_string(),
            "Unable to determine valid datetime for /p/b.jpg".to_string(),
        ]
    );
    assert_eq!(world.asked.iter().filter(|a| matches!(a, Action::Probe { .. })).count(), 99);
    assert!(world.recorded.is_empty());
    assert_eq!(
        run.conclude().unwrap_err().report,
        "No free output name for /p/a.jpg\nUnable to determine valid datetime for /p/b.jpg"
    );
    assert_eq!(run.conclude().unwrap_err().message, "2 errors found when renaming files");
}

#[test]
fn the_last_counter_is_still_tried() {
    let mut world = World::new();
    world.exif.insert("/p/a.jpg".to_string(), at(12));
    world.existing.insert("./output/20230101_120000.jpg".to_string());
    for counter in 1..98 {
        world.existing.insert(format!("./output/20230101_120000.{}.jpg", counter));
    }
    let mut run = run_over(&["/p/a.jpg"], Ledger::new(), false);
    world.drive(&mut run);
    assert_eq!(run.transfers(), &vec![transfer("/p/a.jpg", "./output/20230101_120000.98.jpg")]);
}

#[test]
fn second_run_copies_nothing() {
    let paths = ["/p/IMG_1.jpg", "/p/IMG_1.dng", "/q/IMG_20230115_142233.mp4", "/q/clip.mov"];
    let mut world = World::new();
    world.exif.insert("/p/IMG_1.jpg".to_string(), at(9));
    world.modified.insert("/q/clip.mov".to_string(), at(20));
    let mut first = run_over(&paths, Ledger::new(), false);
    world.drive(&mut first);
    assert_eq!(first.conclude(), Ok(4));
    assert_eq!(first.ledger().len(), 4);
    assert_eq!(first.ledger().entries(), &world.recorded);
    let files = world.existing.clone();

    let left = Ledger::from_entries(first.ledger().entries().clone()).unwrap();
    let mut second = run_over(&paths, left, false);
    assert!(second.is_finished());
    world.asked.clear();
    world.drive(&mut second);
    assert!(world.asked.is_empty());
    assert_eq!(second.conclude(), Ok(0));
    assert_eq!(second.ledger().entries(), first.ledger().entries());
    assert_eq!(world.existing, files);
}

#[test]
fn second_run_gives_up_what_the_first_gave_up() {
    let paths = ["/p/a.jpg", "/p/b.jpg", "/p/c.jpg", "/p/c.dng"];
    let mut world = World::new();
    world.exif.insert("/p/a.jpg".to_string(), at(12));
    world.exif.insert("/p/c.jpg".to_string(), at(13));
    world.existing.insert("./output/20230101_120000.jpg".to_string());
    for counter in 1..99 {
        world.existing.insert(format!("./output/20230101_120000.{}.jpg", counter));
    }
    let mut first = run_over(&paths, Ledger::new(), false);
    world.drive(&mut first);
    assert_eq!(
        first.transfers(),
        &vec![
            transfer("/p/c.jpg", "./output/20230101_130000.jpg"),
            transfer("/p/c.dng", "./output_raw/20230101_130000.dng"),
        ]
    );
    assert_eq!(first.errors().len(), 2);
    let files = world.existing.clone();

    let left = Ledger::from_entries(first.ledger().entries().clone()).unwrap();
    let mut second = run_over(&paths, left, false);
    world.asked.clear();
    world.drive(&mut second);
    assert_eq!(second.transfers(), &Vec::new());
    assert_eq!(second.errors(), first.errors());
    assert_eq!(second.ledger().entries(), first.ledger().entries());
    assert_eq!(world.existing, files);
    assert!(!world.asked.iter().any(|a| matches!(a, Action::Copy { .. })));
}

#[test]
fn a_run_takes_up_what_an_earlier_one_left() {
    let mut ledger = Ledger::new();
    ledger.mark_processed("/p/IMG_1.jpg").unwrap();
    let mut world = World::new();
    world.exif.insert("/p/IMG_1.jpg".to_string(), at(9));
    world.exif.insert("/p/IMG_2.jpg".to_string(), at(10));
    ledger.mark_processed("/p/IMG_2.jpg").unwrap();
    let mut run = run_over(&["/p/IMG_1.jpg", "/p/IMG_1.dng", "/p/IMG_2.jpg"], ledger, false);
    world.drive(&mut run);
    assert_eq!(run.transfers(), &vec![transfer("/p/IMG_1.dng", "./output_raw/20230101_090000.dng")]);
    assert_eq!(
        world.asked.iter().filter(|a| matches!(a, Action::ReadExif { .. })).count(),
        2
    );
    assert_eq!(run.ledger().len(), 3);
}

#[test]
fn a_copy_that_was_not_recorded_is_made_again() {
    let mut world = World::new();
    world.exif.insert("/p/a.jpg".to_string(), at(12));
    world.existing.insert("./output/20230101_120000.jpg".to_string());
    let mut run = run_over(&["/p/a.jpg"], Ledger::new(), false);
    world.drive(&mut run);
    assert_eq!(run.transfers(), &vec![transfer("/p/a.jpg", "./output/20230101_120000.1.jpg")]);
    assert_eq!(run.ledger().entries(), &vec!["/p/a.jpg".to_string()]);
}

#[test]
fn paths_are_recorded_with_forward_slashes() {
    let mut world = World::new();
    world.exif.insert("C:\\p\\a.jpg".to_string(), at(12));
    let groups = vec![StemGroup {
        stem: "a".to_string(),
        members: vec![MediaFile::new("C:\\p\\a.jpg".to_string(), "a.jpg".to_string())],
    }];
    let mut run = Run::new(RenamerConfig::new(), groups, Ledger::new(), false);
    world.drive(&mut run);
    assert_eq!(run.transfers(), &vec![transfer("C:\\p\\a.jpg", "./output/20230101_120000.jpg")]);
    assert_eq!(run.ledger().entries(), &vec!["C:/p/a.jpg".to_string()]);
    assert!(run.ledger().is_processed("C:\\p\\a.jpg"));
}

#[test]
fn files_out_of_scope_are_passed_over() {
    let mut world = World::new();
    world.exif.insert("/p/a.jpg".to_string(), at(12));
    let groups = vec![StemGroup {
        stem: "a".to_string(),
        members: vec![
            MediaFile::new("/p/a.txt".to_string(), "a.txt".to_string()),
            MediaFile::new("/p/a.jpg".to_string(), "a.jpg".to_string()),
        ],
    }];
    let mut run = Run::new(RenamerConfig::new(), groups, Ledger::new(), false);
    world.drive(&mut run);
    assert_eq!(run.transfers(), &vec![transfer("/p/a.jpg", "./output/20230101_120000.jpg")]);
    assert_eq!(run.errors(), &Vec::<String>::new());
    assert!(!run.ledger().is_processed("/p/a.txt"));
}

#[test]
fn a_file_found_twice_is_copied_once() {
    let mut world = World::new();
    world.exif.insert("/p/a.jpg".to_string(), at(12));
    let mut run = run_over(&["/p/a.jpg", "/p/a.jpg"], Ledger::new(), false);
    world.drive(&mut run);
    assert_eq!(run.transfers(), &vec![transfer("/p/a.jpg", "./output/20230101_120000.jpg")]);
    assert_eq!(run.ledger().len(), 1);
}

#[test]
fn test_mode_changes_nothing() {
    let mut world = World::new();
    world.existing.insert("./output/20230101_120000.jpg".to_string());
    world.exif.insert("/p/a.jpg".to_string(), at(12));
    world.exif.insert("/p/b.jpg".to_string(), at(12));
    let files = world.existing.clone();
    let mut ledger = Ledger::new();
    ledger.mark_processed("/p/old.jpg").unwrap();
    let mut run = run_over(&["/p/a.jpg", "/p/b.jpg", "/p/c.jpg"], ledger, true);
    assert!(run.test_mode());
    world.drive(&mut run);
    assert!(!world.asked.iter().any(|a| matches!(a, Action::Copy { .. })));
    assert_eq!(world.asked.iter().filter(|a| matches!(a, Action::Announce { .. })).count(), 2);
    assert_eq!(world.existing, files);
    assert!(world.recorded.is_empty());
    assert_eq!(run.ledger().entries(), &vec!["/p/old.jpg".to_string()]);
    assert_eq!(
        run.transfers(),
        &vec![
            transfer("/p/a.jpg", "./output/20230101_120000.1.jpg"),
            transfer("/p/b.jpg", "./output/20230101_120000.1.jpg"),
        ]
    );
    assert_eq!(run.errors(), &vec!["Unable to determine valid datetime for /p/c.jpg".to_string()]);
}

#[test]
fn an_event_that_answers_nothing_is_ignored() {
    let mut run = run_over(&["/p/a.jpg"], Ledger::new(), false);
    let pending = Action::ReadExif { path: "/p/a.jpg".to_string() };
    assert_eq!(run.action(), pending);
    run.advance(Event::Exists(true));
    run.advance(Event::Transferred);
    run.advance(Event::Modified(Some(at(1))));
    assert_eq!(run.action(), pending);
    run.advance(Event::Exif(None));
    assert_eq!(run.action(), Action::ReadModified { path: "/p/a.jpg".to_string() });
    run.advance(Event::Exif(Some(at(1))));
    assert_eq!(run.action(), Action::ReadModified { path: "/p/a.jpg".to_string() });
    run.advance(Event::Modified(Some(at(1))));
    assert_eq!(run.action(), Action::Probe { path: "./output/20230101_010000.jpg".to_string() });
    run.advance(Event::Exists(false));
    run.advance(Event::Exists(true));
    assert_eq!(
        run.action(),
        Action::Copy {
            source: "/p/a.jpg".to_string(),
            target: "./output/20230101_010000.jpg".to_string()
        }
    );
    assert!(!run.ledger().is_processed("/p/a.jpg"));
    run.advance(Event::Transferred);
    assert!(run.ledger().is_processed("/p/a.jpg"));
    assert_eq!(run.action(), Action::Finish);
    run.advance(Event::Transferred);
    assert_eq!(run.action(), Action::Finish);
    assert_eq!(run.ledger().len(), 1);
}

#[test]
fn progress_counts_groups() {
    let mut run = run_over(&["/p/a.jpg", "/p/b.jpg"], Ledger::new(), false);
    assert_eq!(run.progress(), (0, 2));
    run.advance(Event::Exif(Some(at(1))));
    run.advance(Event::Exists(false));
    run.advance(Event::Transferred);
    assert_eq!(run.progress(), (1, 2));
    run.advance(Event::Exif(Some(at(2))));
    run.advance(Event::Exists(false));
    run.advance(Event::Transferred);
    assert_eq!(run.progress(), (2, 2));
    assert!(run.is_finished());
}

#[test]
fn report_lines_are_joined_by_line_feeds() {
    assert_eq!(error_report(&Vec::new()), "");
    assert_eq!(error_report(&vec!["one".to_string()]), "one");
    assert_eq!(error_report(&vec!["one".to_string(), "".to_string(), "three".to_string()]), "one\n\nthree");
}

#[test]
fn report_is_named_by_the_time() {
    let now = Timestamp::new(2024, 2, 29, 23, 59, 58).unwrap();
    assert_eq!(error_report_name(&now), "20240229_235958_errors.log");
}
