use photo_renamer::media::MediaFile;
use photo_renamer::resolve::{resolve_member, unify};
use photo_renamer::timestamp::Timestamp;

fn at(hour: u8) -> Timestamp {
    Timestamp::new(2023, 1, 15, hour, 0, 0).unwrap()
}

fn file(name: &str) -> MediaFile {
    MediaFile::new(format!("/photos/{}", name), name.to_string())
}

#[test]
fn one_reading_is_shared() {
    assert_eq!(unify(&vec![Some(at(1)), None]), Some(at(1)));
    assert_eq!(unify(&vec![None, Some(at(1))]), Some(at(1)));
    assert_eq!(unify(&vec![Some(at(1)), Some(at(1)), None]), Some(at(1)));
    assert_eq!(unify(&vec![Some(at(1))]), Some(at(1)));
}

#[test]
fn differing_readings_are_not_shared() {
    assert_eq!(unify(&vec![Some(at(1)), Some(at(2))]), None);
    assert_eq!(unify(&vec![Some(at(1)), None, Some(at(1)), Some(at(2))]), None);
}

#[test]
fn no_reading_gives_nothing() {
    assert_eq!(unify(&vec![None, None]), None);
    assert_eq!(unify(&Vec::new()), None);
}

#[test]
fn group_timestamp_unification() {
    let found = vec![Some(at(7)), None];
    assert_eq!(resolve_member(&found, 0, &file("IMG_1.jpg")), Some(at(7)));
    assert_eq!(resolve_member(&found, 1, &file("IMG_1.dng")), Some(at(7)));
    let dated = file("IMG_20200101_000000.dng");
    assert_eq!(resolve_member(&found, 1, &dated), Some(at(7)));
}

#[test]
fn ambiguous_group() {
    let found = vec![Some(at(7)), Some(at(8)), None];
    assert_eq!(resolve_member(&found, 0, &file("IMG_1.jpg")), Some(at(7)));
    assert_eq!(resolve_member(&found, 1, &file("IMG_1.tiff")), Some(at(8)));
    assert_eq!(resolve_member(&found, 2, &file("IMG_1.dng")), None);
    assert_eq!(
        resolve_member(&found, 2, &file("IMG_20230115_142233.dng")),
        Timestamp::new(2023, 1, 15, 14, 22, 33)
    );
}

#[test]
fn a_member_without_a_reading_of_its_own() {
    let found = vec![Some(at(7)), Some(at(8))];
    assert_eq!(resolve_member(&found, 2, &file("IMG_1.dng")), None);
    assert_eq!(resolve_member(&vec![Some(at(7))], 5, &file("IMG_1.dng")), Some(at(7)));
}

#[test]
fn without_readings_the_name_decides() {
    let found = vec![None, None];
    assert_eq!(
        resolve_member(&found, 0, &file("IMG_20230115_142233.jpg")),
        Timestamp::new(2023, 1, 15, 14, 22, 33)
    );
    assert_eq!(resolve_member(&found, 1, &file("holiday.jpg")), None);
}
