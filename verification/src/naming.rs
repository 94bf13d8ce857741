//! Output names: a timestamp, a counter that tells colliding names apart, a
//! marker for live photos, and the extension of the source.

use vstd::prelude::*;
use crate::config::{ConfigModel, RenamerConfig};
use crate::media::{
    category_of, classify, extension_of, file_extension, file_stem, stem_of, Category, FileModel,
    MediaFile,
};
use crate::text::{
    chars_of, decimal, ends_with, has_substring, lowercase, lowercased, occurs_at, push_decimal,
    push_str_chars, starts_with, string_of,
};
use crate::timestamp::{compact_text, Moment, Timestamp};

verus! {

/// The number of names that are tried for one file.
pub const MAX_ATTEMPTS: usize = 99;

/// A stem in lowercase tells of a live photo when it ends in `.mp` (so that
/// the name ends in `.mp` and the extension) or begins with `mvimg`.
pub open spec fn marks_live_photo(lower: Seq<char>) -> bool {
    ".mp"@.is_suffix_of(lower) || "mvimg"@.is_prefix_of(lower)
}

/// A stem tells of a live photo when its lowercase form does.
pub open spec fn is_live_stem(stem: Seq<char>) -> bool {
    marks_live_photo(lowercased(stem))
}

/// The segment that tells colliding names apart: nothing for the first
/// attempt, then `.1`, `.2`, and so on.
pub open spec fn counter_segment(counter: nat) -> Seq<char> {
    if counter == 0 {
        Seq::empty()
    } else {
        seq!['.'] + decimal(counter)
    }
}

/// The segment that marks a live photo.
pub open spec fn live_segment(live: bool) -> Seq<char> {
    if live {
        ".mp"@
    } else {
        Seq::empty()
    }
}

/// The name of a copy: timestamp, counter segment, live marker, and the
/// extension.
pub open spec fn candidate_text(stamp: Moment, counter: nat, live: bool, extension: Seq<char>) -> Seq<
    char,
> {
    compact_text(stamp) + counter_segment(counter) + live_segment(live) + seq!['.'] + extension
}

/// A name below a directory: the two are joined by a `/`, unless the
/// directory is empty or ends in one.
pub open spec fn joined_path(dir: Seq<char>, name: Seq<char>) -> Seq<char> {
    if dir.len() == 0 {
        name
    } else if dir.last() == '/' {
        dir + name
    } else {
        dir + seq!['/'] + name
    }
}

/// The directory for a category: raw images have one of their own.
pub open spec fn target_directory(config: ConfigModel, category: Category) -> Seq<char> {
    if category == Category::Raw {
        config.raw_output_path
    } else {
        config.output_path
    }
}

/// The extension of a file name, or nothing where it has none.
pub open spec fn extension_or_empty(name: Seq<char>) -> Seq<char> {
    match extension_of(name) {
        Some(e) => e,
        None => Seq::empty(),
    }
}

/// The path that attempt `counter` proposes for the copy of `file`: below
/// the directory of its category, under the name made of the timestamp, the
/// counter, the live marker where the stem calls for it, and the extension in
/// lowercase.
pub open spec fn candidate_for(config: ConfigModel, file: FileModel, stamp: Moment, counter: nat) -> Seq<
    char,
> {
    joined_path(
        target_directory(config, category_of(file.name)),
        candidate_text(
            stamp,
            counter,
            is_live_stem(stem_of(file.name)),
            lowercased(extension_or_empty(file.name)),
        ),
    )
}

/// Whether a stem in lowercase tells of a live photo.
pub fn has_live_marker(lower: &str) -> (b: bool)
    ensures
        b == marks_live_photo(lower@),
{
    let l = chars_of(lower);
    let mp = chars_of(".mp");
    let mvimg = chars_of("mvimg");
    ends_with(&l, &mp) || starts_with(&l, &mvimg)
}

/// Whether a stem tells of a live photo.
pub fn is_live_photo(stem: &str) -> (b: bool)
    ensures
        b == is_live_stem(stem@),
{
    let lower = lowercase(stem);
    has_live_marker(lower.as_str())
}

/// The name of a copy for attempt `counter`. The extension is taken as it
/// is.
pub fn candidate_name(stamp: &Timestamp, counter: usize, live: bool, extension: &str) -> (r: String)
    ensures
        r@ == candidate_text(stamp@, counter as nat, live, extension@),
{
    let base = stamp.compact();
    let mut out = chars_of(base.as_str());
    if counter != 0 {
        out.push('.');
        push_decimal(&mut out, counter);
    }
    if live {
        push_str_chars(&mut out, ".mp");
    }
    out.push('.');
    push_str_chars(&mut out, extension);
    proof {
        assert(out@ =~= candidate_text(stamp@, counter as nat, live, extension@));
    }
    string_of(&out)
}

/// A name made for a live photo holds the segment `mp` between two dots,
/// whatever the timestamp, the counter and the extension are.
pub proof fn lemma_live_name_holds_marker(stamp: Moment, counter: nat, extension: Seq<char>)
    ensures
        has_substring(candidate_text(stamp, counter, true, extension), ".mp."@),
{
    reveal_strlit(".mp");
    reveal_strlit(".mp.");
    let head = compact_text(stamp) + counter_segment(counter);
    let name = candidate_text(stamp, counter, true, extension);
    assert(name.subrange(head.len() as int, head.len() as int + 4) =~= ".mp."@);
    assert(occurs_at(name, ".mp."@, head.len() as int));
}

/// The path of `name` below `dir`.
pub fn join_path(dir: &str, name: &str) -> (r: String)
    ensures
        r@ == joined_path(dir@, name@),
{
    let mut out = chars_of(dir);
    if out.len() > 0 && out[out.len() - 1] != '/' {
        out.push('/');
    }
    push_str_chars(&mut out, name);
    proof {
        assert(out@ =~= joined_path(dir@, name@));
    }
    string_of(&out)
}

/// The path that attempt `counter` proposes for the copy of `file`.
pub fn candidate_path(config: &RenamerConfig, file: &MediaFile, stamp: &Timestamp, counter: usize) -> (r:
    String)
    ensures
        r@ == candidate_for(config@, file@, stamp@, counter as nat),
{
    let name = file.name.as_str();
    let stem = file_stem(name);
    let live = is_live_photo(stem.as_str());
    let lower = match file_extension(name) {
        Some(e) => lowercase(e.as_str()),
        None => {
            proof {
                reveal_strlit("");
                assert(""@ =~= Seq::<char>::empty());
            }
            lowercase("")
        },
    };
    let leaf = candidate_name(stamp, counter, live, lower.as_str());
    if classify(name) == Category::Raw {
        join_path(config.raw_output_path.as_str(), leaf.as_str())
    } else {
        join_path(config.output_path.as_str(), leaf.as_str())
    }
}

} // verus!
