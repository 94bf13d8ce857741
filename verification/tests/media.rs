use photo_renamer::media::{
    _is_hidden, _is_movie, _is_picture, _is_raw, classify, extension_category, file_extension,
    file_in_scope, file_stem, Category, MediaFile,
};

fn file(name: &str) -> MediaFile {
    MediaFile::new(format!("/photos/{}", name), name.to_string())
}

#[test]
fn pictures_are_known_by_extension() {
    assert!(_is_picture(&file("a.jpg")));
    assert!(_is_picture(&file("a.jpeg")));
    assert!(_is_picture(&file("a.tiff")));
    assert!(!_is_picture(&file("a.tif")));
    assert!(!_is_picture(&file("a.dng")));
    assert!(!_is_picture(&file("jpg")));
}

#[test]
fn raw_images_are_known_by_extension() {
    assert!(_is_raw(&file("a.dng")));
    assert!(_is_raw(&file("a.rw2")));
    assert!(_is_raw(&file("a.raw")));
    assert!(!_is_raw(&file("a.jpg")));
}

#[test]
fn movies_are_known_by_extension() {
    assert!(_is_movie(&file("a.mp4")));
    assert!(_is_movie(&file("a.avi")));
    assert!(_is_movie(&file("a.mpg")));
    assert!(_is_movie(&file("a.mov")));
    assert!(!_is_movie(&file("a.mkv")));
}

#[test]
fn extension_is_matched_in_lowercase() {
    assert!(_is_picture(&file("IMG_0001.JPG")));
    assert!(_is_raw(&file("P100.Rw2")));
    assert!(_is_movie(&file("CLIP.MOV")));
    assert_eq!(classify("IMG_0001.JPG"), Category::Image);
    assert_eq!(classify("P100.DNG"), Category::Raw);
    assert_eq!(classify("CLIP.Mp4"), Category::Movie);
}

#[test]
fn extension_lists_are_in_lowercase() {
    assert_eq!(extension_category("jpg"), Category::Image);
    assert_eq!(extension_category("rw2"), Category::Raw);
    assert_eq!(extension_category("mpg"), Category::Movie);
    assert_eq!(extension_category("JPG"), Category::Unsupported);
    assert_eq!(extension_category(""), Category::Unsupported);
    assert_eq!(extension_category("jpg "), Category::Unsupported);
}

#[test]
fn scope_is_the_three_categories() {
    assert!(file_in_scope(&file("a.jpg")));
    assert!(file_in_scope(&file("a.raw")));
    assert!(file_in_scope(&file("a.mov")));
    assert!(!file_in_scope(&file("a.txt")));
    assert!(!file_in_scope(&file("a")));
    assert!(!file_in_scope(&file(".jpg")));
    assert_eq!(file("notes.txt").category(), Category::Unsupported);
}

#[test]
fn stem_and_extension_part_at_the_last_dot() {
    assert_eq!(file_stem("a.b.c"), "a.b");
    assert_eq!(file_extension("a.b.c"), Some("c".to_string()));
    assert_eq!(file_stem("IMG_1.jpg"), "IMG_1");
    assert_eq!(file_extension("IMG_1.jpg"), Some("jpg".to_string()));
    assert_eq!(file("PXL_1.MP.jpg").stem(), "PXL_1.MP");
}

#[test]
fn names_without_extension() {
    assert_eq!(file_stem("noext"), "noext");
    assert_eq!(file_extension("noext"), None);
    assert_eq!(file_stem(".hidden"), ".hidden");
    assert_eq!(file_extension(".hidden"), None);
    assert_eq!(file_stem(".."), "..");
    assert_eq!(file_extension(".."), None);
    assert_eq!(file_stem(""), "");
    assert_eq!(file_extension(""), None);
}

#[test]
fn empty_extension_and_leading_dot() {
    assert_eq!(file_stem("a."), "a");
    assert_eq!(file_extension("a."), Some(String::new()));
    assert_eq!(file_stem(".a.b"), ".a");
    assert_eq!(file_extension(".a.b"), Some("b".to_string()));
    assert_eq!(file_stem("..."), "..");
    assert_eq!(file_extension("..."), Some(String::new()));
}

#[test]
fn stem_and_extension_agree_with_std_path() {
    for name in ["a.b.c", "noext", ".hidden", "..", "a.", ".a.b", "...", "x.JPG", "é.ü.mp4"] {
        let path = std::path::Path::new(name);
        let stem = path.file_stem().map(|s| s.to_str().unwrap().to_string());
        let extension = path.extension().map(|s| s.to_str().unwrap().to_string());
        if name != ".." {
            assert_eq!(Some(file_stem(name)), stem, "stem of {}", name);
        }
        assert_eq!(file_extension(name), extension, "extension of {}", name);
    }
}

#[test]
fn hidden_names_begin_with_a_dot() {
    assert!(_is_hidden(".git"));
    assert!(_is_hidden("."));
    assert!(!_is_hidden("a.git"));
    assert!(!_is_hidden(""));
}

#[test]
fn clone_keeps_path_and_name() {
    let f = file("a.jpg");
    assert_eq!(f.clone(), f);
}
