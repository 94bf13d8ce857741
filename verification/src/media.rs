//! Media files and their classification by extension.
//!
//! A file is known by two strings: its full path, and its name, the last
//! component of that path. Stem and extension are read off the name.

use vstd::prelude::*;
use crate::text::{chars_of, lowercase, lowercased, str_eq, string_of};

verus! {

/// What a file is taken for, judged by its extension.
#[derive(Clone, Copy, Debug, PartialEq, Eq, Structural)]
pub enum Category {
    Image,
    Raw,
    Movie,
    Unsupported,
}

/// A file found in one of the search roots.
#[derive(Debug, PartialEq, Eq)]
pub struct MediaFile {
    /// The full path of the file.
    pub path: String,
    /// The last component of the path.
    pub name: String,
}

/// What a `MediaFile` stands for.
pub struct FileModel {
    pub path: Seq<char>,
    pub name: Seq<char>,
}

impl View for MediaFile {
    type V = FileModel;

    open spec fn view(&self) -> FileModel {
        FileModel { path: self.path@, name: self.name@ }
    }
}

/// What a list of files stands for.
pub open spec fn files_view(files: Seq<MediaFile>) -> Seq<FileModel> {
    files.map_values(|f: MediaFile| f@)
}

/// The index of the last `.` of `name`, or -1 where it holds none.
pub open spec fn last_dot(name: Seq<char>) -> int
    decreases name.len(),
{
    if name.len() == 0 {
        -1
    } else if name.last() == '.' {
        name.len() - 1
    } else {
        last_dot(name.drop_last())
    }
}

/// The index of the `.` that parts stem and extension, or -1 where the name
/// has no extension: it holds no `.`, its only `.` comes first, or it is `..`.
pub open spec fn split_point(name: Seq<char>) -> int {
    if name == seq!['.', '.'] || last_dot(name) <= 0 {
        -1
    } else {
        last_dot(name)
    }
}

/// The name without its extension.
pub open spec fn stem_of(name: Seq<char>) -> Seq<char> {
    if split_point(name) < 0 {
        name
    } else {
        name.take(split_point(name))
    }
}

/// What follows the parting `.`, if the name has an extension.
pub open spec fn extension_of(name: Seq<char>) -> Option<Seq<char>> {
    if split_point(name) < 0 {
        None
    } else {
        Some(name.skip(split_point(name) + 1))
    }
}

pub open spec fn is_picture_extension(e: Seq<char>) -> bool {
    e == "jpg"@ || e == "tiff"@ || e == "jpeg"@
}

pub open spec fn is_raw_extension(e: Seq<char>) -> bool {
    e == "dng"@ || e == "rw2"@ || e == "raw"@
}

pub open spec fn is_movie_extension(e: Seq<char>) -> bool {
    e == "mp4"@ || e == "avi"@ || e == "mpg"@ || e == "mov"@
}

/// The category that an extension in lowercase stands for: it is looked up
/// in the three lists in turn.
pub open spec fn category_of_extension(e: Seq<char>) -> Category {
    if is_picture_extension(e) {
        Category::Image
    } else if is_raw_extension(e) {
        Category::Raw
    } else if is_movie_extension(e) {
        Category::Movie
    } else {
        Category::Unsupported
    }
}

/// The category of a file name: that of its extension in lowercase.
pub open spec fn category_of(name: Seq<char>) -> Category {
    match extension_of(name) {
        None => Category::Unsupported,
        Some(e) => category_of_extension(lowercased(e)),
    }
}

/// A name is hidden when it begins with a `.`.
pub open spec fn is_hidden_name(name: Seq<char>) -> bool {
    name.len() > 0 && name[0] == '.'
}

/// `last_dot` is the greatest index that holds a `.`.
pub proof fn lemma_last_dot(name: Seq<char>)
    ensures
        -1 <= last_dot(name) < name.len(),
        last_dot(name) >= 0 ==> name[last_dot(name)] == '.',
        forall|j: int| last_dot(name) < j < name.len() ==> name[j] != '.',
    decreases name.len(),
{
    if name.len() > 0 && name.last() != '.' {
        let front = name.drop_last();
        lemma_last_dot(front);
        assert forall|j: int| last_dot(name) < j < name.len() implies name[j] != '.' by {
            if j < front.len() {
                assert(front[j] == name[j]);
            }
        }
    }
}

/// An index that holds a `.` and has none behind it is `last_dot`.
pub proof fn lemma_last_dot_unique(name: Seq<char>, d: int)
    requires
        -1 <= d < name.len(),
        d >= 0 ==> name[d] == '.',
        forall|j: int| d < j < name.len() ==> name[j] != '.',
    ensures
        last_dot(name) == d,
{
    lemma_last_dot(name);
}

/// The index of the last `.`, where there is one.
fn find_last_dot(name: &Vec<char>) -> (r: Option<usize>)
    ensures
        match r {
            Some(d) => last_dot(name@) == d,
            None => last_dot(name@) == -1,
        },
{
    let mut i: usize = name.len();
    while i > 0
        invariant
            i <= name.len(),
            forall|j: int| i <= j < name.len() ==> name@[j] != '.',
        decreases i,
    {
        i -= 1;
        if name[i] == '.' {
            proof {
                lemma_last_dot_unique(name@, i as int);
            }
            return Some(i);
        }
    }
    proof {
        lemma_last_dot_unique(name@, -1);
    }
    None
}

/// The index of the parting `.`, where the name has an extension.
fn find_split_point(name: &Vec<char>) -> (r: Option<usize>)
    ensures
        match r {
            Some(d) => split_point(name@) == d && 0 < d < name.len(),
            None => split_point(name@) == -1,
        },
{
    if name.len() == 2 && name[0] == '.' && name[1] == '.' {
        proof {
            assert(name@ =~= seq!['.', '.']);
        }
        return None;
    }
    proof {
        lemma_last_dot(name@);
        if name@ == seq!['.', '.'] {
            assert(name@.len() == 2);
            assert(name@[0] == '.');
            assert(name@[1] == '.');
        }
    }
    match find_last_dot(name) {
        Some(d) => {
            if d == 0 {
                None
            } else {
                Some(d)
            }
        },
        None => None,
    }
}

/// The stem of a file name: the name without its extension.
pub fn file_stem(name: &str) -> (r: String)
    ensures
        r@ == stem_of(name@),
{
    let chars = chars_of(name);
    match find_split_point(&chars) {
        None => string_of(&chars),
        Some(d) => {
            let mut out: Vec<char> = Vec::new();
            let mut i: usize = 0;
            while i < d
                invariant
                    i <= d < chars.len(),
                    out@ == chars@.take(i as int),
                decreases d - i,
            {
                out.push(chars[i]);
                i += 1;
            }
            string_of(&out)
        },
    }
}

/// The extension of a file name, if it has one.
pub fn file_extension(name: &str) -> (r: Option<String>)
    ensures
        r is Some == extension_of(name@) is Some,
        r is Some ==> r->0@ == extension_of(name@)->0,
{
    let chars = chars_of(name);
    match find_split_point(&chars) {
        None => None,
        Some(d) => {
            let mut out: Vec<char> = Vec::new();
            let mut i: usize = d + 1;
            while i < chars.len()
                invariant
                    d < i <= chars.len(),
                    out@ == chars@.subrange(d + 1, i as int),
                decreases chars.len() - i,
            {
                out.push(chars[i]);
                i += 1;
            }
            proof {
                assert(chars@.subrange(d + 1, chars@.len() as int) =~= chars@.skip(d + 1));
            }
            Some(string_of(&out))
        },
    }
}

/// The category that an extension stands for. The extension is compared as
/// it is: the lists are in lowercase.
pub fn extension_category(extension: &str) -> (c: Category)
    ensures
        c == category_of_extension(extension@),
{
    let e = extension;
    if str_eq(e, "jpg") || str_eq(e, "tiff") || str_eq(e, "jpeg") {
        Category::Image
    } else if str_eq(e, "dng") || str_eq(e, "rw2") || str_eq(e, "raw") {
        Category::Raw
    } else if str_eq(e, "mp4") || str_eq(e, "avi") || str_eq(e, "mpg") || str_eq(e, "mov") {
        Category::Movie
    } else {
        Category::Unsupported
    }
}

/// The category of a file name.
pub fn classify(name: &str) -> (c: Category)
    ensures
        c == category_of(name@),
{
    match file_extension(name) {
        None => Category::Unsupported,
        Some(e) => {
            let lower = lowercase(e.as_str());
            extension_category(lower.as_str())
        },
    }
}

/// Whether the file is a picture that may carry EXIF data.
pub fn _is_picture(file: &MediaFile) -> (b: bool)
    ensures
        b == (category_of(file.name@) == Category::Image),
{
    classify(file.name.as_str()) == Category::Image
}

/// Whether the file is a raw image.
pub fn _is_raw(file: &MediaFile) -> (b: bool)
    ensures
        b == (category_of(file.name@) == Category::Raw),
{
    classify(file.name.as_str()) == Category::Raw
}

/// Whether the file is a movie.
pub fn _is_movie(file: &MediaFile) -> (b: bool)
    ensures
        b == (category_of(file.name@) == Category::Movie),
{
    classify(file.name.as_str()) == Category::Movie
}

/// Whether the file is of any supported category.
pub fn file_in_scope(file: &MediaFile) -> (b: bool)
    ensures
        b == (category_of(file.name@) != Category::Unsupported),
{
    _is_picture(file) || _is_raw(file) || _is_movie(file)
}

/// Whether a directory entry of this name is hidden.
pub fn _is_hidden(name: &str) -> (b: bool)
    ensures
        b == is_hidden_name(name@),
{
    let chars = chars_of(name);
    chars.len() > 0 && chars[0] == '.'
}

impl MediaFile {
    /// A file from its full path and the last component of that path.
    pub fn new(path: String, name: String) -> (f: MediaFile)
        ensures
            f.path == path,
            f.name == name,
    {
        MediaFile { path, name }
    }

    /// The category of the file.
    pub fn category(&self) -> (c: Category)
        ensures
            c == category_of(self.name@),
    {
        classify(self.name.as_str())
    }

    /// The stem of the file: its name without the extension.
    pub fn stem(&self) -> (r: String)
        ensures
            r@ == stem_of(self.name@),
    {
        file_stem(self.name.as_str())
    }
}

impl Clone for MediaFile {
    fn clone(&self) -> (r: Self)
        ensures
            r == *self,
    {
        MediaFile { path: self.path.clone(), name: self.name.clone() }
    }
}

} // verus!
