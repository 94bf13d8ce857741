use photo_renamer::config::RenamerConfig;
use photo_renamer::media::MediaFile;
use photo_renamer::naming::{
    candidate_name, candidate_path, has_live_marker, is_live_photo, join_path, MAX_ATTEMPTS,
};
use photo_renamer::timestamp::Timestamp;

fn file(name: &str) -> MediaFile {
    MediaFile::new(format!("/photos/{}", name), name.to_string())
}

#[test]
fn ninety_nine_names_are_tried() {
    assert_eq!(MAX_ATTEMPTS, 99);
}

#[test]
fn live_photo_name_carries_marker() {
    assert!(is_live_photo("MVIMG_20230101_010101"));
    let stamp = Timestamp::new(2023, 1, 1, 1, 1, 1).unwrap();
    let config = RenamerConfig::new();
    let path = candidate_path(&config, &file("MVIMG_20230101_010101.jpg"), &stamp, 0);
    assert_eq!(path, "./output/20230101_010101.mp.jpg");
    assert!(path.split('.').any(|segment| segment == "mp"));
}

#[test]
fn live_photo_signals() {
    assert!(is_live_photo("mvimg_1"));
    assert!(is_live_photo("MvImg"));
    assert!(is_live_photo("PXL_20230101_010101.MP"));
    assert!(is_live_photo("PXL_20230101_010101.mp"));
    assert!(is_live_photo(".mp"));
    assert!(!is_live_photo("IMG_20230101_010101"));
    assert!(!is_live_photo("mp"));
    assert!(!is_live_photo("x.mp4"));
    assert!(!is_live_photo("mvim"));
    assert!(!is_live_photo("a_mvimg"));
    assert!(!is_live_photo(""));
}

#[test]
fn live_marker_is_read_off_lowercase() {
    assert!(has_live_marker("mvimg_1"));
    assert!(has_live_marker("pxl_1.mp"));
    assert!(!has_live_marker("MVIMG_1"));
    assert!(!has_live_marker("PXL_1.MP"));
    assert!(!has_live_marker("pxl_1.mp4"));
}

#[test]
fn extension_of_the_copy_is_in_lowercase() {
    let stamp = Timestamp::new(2023, 1, 1, 12, 0, 0).unwrap();
    let config = RenamerConfig::new();
    assert_eq!(candidate_path(&config, &file("A.JPG"), &stamp, 0), "./output/20230101_120000.jpg");
    assert_eq!(candidate_path(&config, &file("A.Mp.MOV"), &stamp, 1), "./output/20230101_120000.1.mp.mov");
}

#[test]
fn counter_tells_colliding_names_apart() {
    let stamp = Timestamp::new(2023, 1, 1, 12, 0, 0).unwrap();
    assert_eq!(candidate_name(&stamp, 0, false, "jpg"), "20230101_120000.jpg");
    assert_eq!(candidate_name(&stamp, 1, false, "jpg"), "20230101_120000.1.jpg");
    assert_eq!(candidate_name(&stamp, 10, false, "jpg"), "20230101_120000.10.jpg");
    assert_eq!(candidate_name(&stamp, 98, false, "jpg"), "20230101_120000.98.jpg");
    assert_eq!(candidate_name(&stamp, 12345, false, "jpg"), "20230101_120000.12345.jpg");
}

#[test]
fn segments_come_in_order() {
    let stamp = Timestamp::new(2023, 1, 1, 12, 0, 0).unwrap();
    assert_eq!(candidate_name(&stamp, 3, true, "mp4"), "20230101_120000.3.mp.mp4");
    assert_eq!(candidate_name(&stamp, 0, true, "Jpg"), "20230101_120000.mp.Jpg");
    assert_eq!(candidate_name(&stamp, 0, false, ""), "20230101_120000.");
}

#[test]
fn join_adds_one_separator() {
    assert_eq!(join_path("./output", "a.jpg"), "./output/a.jpg");
    assert_eq!(join_path("./output/", "a.jpg"), "./output/a.jpg");
    assert_eq!(join_path("", "a.jpg"), "a.jpg");
    assert_eq!(join_path("/", "a.jpg"), "/a.jpg");
}

#[test]
fn join_agrees_with_std_path() {
    for dir in ["./output", "./output/", "", "/", "/mnt/photos/out", "out"] {
        let joined = std::path::Path::new(dir).join("20230101_120000.jpg");
        assert_eq!(join_path(dir, "20230101_120000.jpg"), joined.to_str().unwrap());
    }
}

#[test]
fn raw_images_go_to_their_own_directory() {
    let stamp = Timestamp::new(2023, 1, 1, 12, 0, 0).unwrap();
    let config = RenamerConfig::new();
    assert_eq!(candidate_path(&config, &file("P1.RW2"), &stamp, 0), "./output_raw/20230101_120000.rw2");
    assert_eq!(candidate_path(&config, &file("P1.jpg"), &stamp, 2), "./output/20230101_120000.2.jpg");
    assert_eq!(candidate_path(&config, &file("P1.MP.mp4"), &stamp, 0), "./output/20230101_120000.mp.mp4");
    assert_eq!(candidate_path(&config, &file("P1"), &stamp, 0), "./output/20230101_120000.");
}
