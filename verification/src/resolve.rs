//! Choosing the timestamp of a file from what its group offers.
//!
//! Where the EXIF data of a group agree on one timestamp, every member takes
//! it. Otherwise each member goes by its own EXIF data, then by the digits in
//! its name, and last by the time at which it was modified.

use vstd::prelude::*;
use crate::media::{file_stem, stem_of, FileModel, MediaFile};
use crate::timestamp::{
    extract_datetime_from_filename, filename_moment, moment_of_option, Moment, Timestamp,
};

verus! {

/// What a list of readings stands for.
pub open spec fn moments_view(found: Seq<Option<Timestamp>>) -> Seq<Option<Moment>> {
    found.map_values(|t: Option<Timestamp>| moment_of_option(t))
}

/// `t` was read, and nothing else was.
pub open spec fn only_stamp(found: Seq<Option<Moment>>, t: Moment) -> bool {
    &&& found.contains(Some(t))
    &&& forall|i: int| 0 <= i < found.len() && found[i] is Some ==> found[i] == Some(t)
}

/// The timestamp that the readings of a group agree on: the one that was
/// read, where exactly one was.
pub open spec fn unified(found: Seq<Option<Moment>>) -> Option<Moment> {
    if exists|t: Moment| only_stamp(found, t) {
        Some(choose|t: Moment| only_stamp(found, t))
    } else {
        None
    }
}

/// The reading of member `member`, if there is one.
pub open spec fn reading_of(found: Seq<Option<Moment>>, member: int) -> Option<Moment> {
    if 0 <= member < found.len() {
        found[member]
    } else {
        None
    }
}

/// The timestamp of member `member` as far as it is known without asking
/// when the file was modified: the one that the group agrees on, else the
/// member's own reading, else the one written in its name.
pub open spec fn own_stamp(found: Seq<Option<Moment>>, member: int, file: FileModel) -> Option<
    Moment,
> {
    if unified(found) is Some {
        unified(found)
    } else if reading_of(found, member) is Some {
        reading_of(found, member)
    } else {
        filename_moment(stem_of(file.name))
    }
}

/// Where all readings that gave a timestamp gave `t`, and one did, the group
/// agrees on `t`: a member without a reading takes it too.
pub proof fn lemma_single_stamp_unifies(found: Seq<Option<Moment>>, t: Moment)
    requires
        only_stamp(found, t),
    ensures
        unified(found) == Some(t),
{
    let u = choose|u: Moment| only_stamp(found, u);
    let i = choose|i: int| 0 <= i < found.len() && found[i] == Some(t);
    assert(found[i] == Some(u));
}

/// Where two readings differ, the group agrees on nothing.
pub proof fn lemma_two_stamps_do_not_unify(found: Seq<Option<Moment>>, i: int, j: int)
    requires
        0 <= i < found.len(),
        0 <= j < found.len(),
        found[i] is Some,
        found[j] is Some,
        found[i] != found[j],
    ensures
        unified(found) is None,
{
    if exists|t: Moment| only_stamp(found, t) {
        let t = choose|t: Moment| only_stamp(found, t);
        assert(found[i] == Some(t));
        assert(found[j] == Some(t));
    }
}

/// In a group whose readings differ, a member with a reading goes by its
/// own, whatever the others read.
pub proof fn lemma_ambiguous_group_uses_own(
    found: Seq<Option<Moment>>,
    i: int,
    j: int,
    member: int,
    file: FileModel,
)
    requires
        0 <= i < found.len(),
        0 <= j < found.len(),
        found[i] is Some,
        found[j] is Some,
        found[i] != found[j],
        0 <= member < found.len(),
        found[member] is Some,
    ensures
        own_stamp(found, member, file) == found[member],
{
    lemma_two_stamps_do_not_unify(found, i, j);
}

/// A group of two, one with a reading `t` and one without: both members are
/// given `t`.
pub proof fn lemma_pair_shares_stamp(t: Moment, first: FileModel, second: FileModel)
    ensures
        own_stamp(seq![Some(t), None], 0, first) == Some(t),
        own_stamp(seq![Some(t), None], 1, second) == Some(t),
        own_stamp(seq![None, Some(t)], 0, first) == Some(t),
        own_stamp(seq![None, Some(t)], 1, second) == Some(t),
{
    let a = seq![Some(t), None];
    let b = seq![None, Some(t)];
    assert(a[0] == Some(t));
    assert(b[1] == Some(t));
    lemma_single_stamp_unifies(a, t);
    lemma_single_stamp_unifies(b, t);
}

/// The timestamp that the readings of a group agree on.
pub fn unify(found: &Vec<Option<Timestamp>>) -> (r: Option<Timestamp>)
    ensures
        moment_of_option(r) == unified(moments_view(found@)),
{
    let ghost all = moments_view(found@);
    let mut first: Option<Timestamp> = None;
    let mut i: usize = 0;
    while i < found.len()
        invariant
            i <= found.len(),
            all == moments_view(found@),
            first is None ==> forall|j: int| 0 <= j < i ==> all[j] is None,
            first is Some ==> exists|j: int| 0 <= j < i && all[j] == Some(first->0@),
            first is Some ==> forall|j: int| 0 <= j < i && all[j] is Some ==> all[j] == Some(first->0@),
        decreases found.len() - i,
    {
        match found[i] {
            None => {},
            Some(t) => {
                proof {
                    assert(all[i as int] == Some(t@));
                }
                match first {
                    None => {
                        first = Some(t);
                    },
                    Some(f) => {
                        if f != t {
                            proof {
                                Timestamp::lemma_view_injective(f, t);
                                let j = choose|j: int| 0 <= j < i && all[j] == Some(f@);
                                lemma_two_stamps_do_not_unify(all, j, i as int);
                            }
                            return None;
                        }
                    },
                }
            },
        }
        i += 1;
    }
    proof {
        match first {
            None => {
                assert forall|t: Moment| !only_stamp(all, t) by {
                    if all.contains(Some(t)) {
                        let j = choose|j: int| 0 <= j < all.len() && all[j] == Some(t);
                        assert(all[j] is None);
                    }
                }
            },
            Some(f) => {
                let j = choose|j: int| 0 <= j < i && all[j] == Some(f@);
                assert(all.contains(Some(f@)));
                lemma_single_stamp_unifies(all, f@);
            },
        }
    }
    first
}

/// The timestamp of member `member` of a group with the readings `found`,
/// as far as it is known without asking when the file was modified.
pub fn resolve_member(found: &Vec<Option<Timestamp>>, member: usize, file: &MediaFile) -> (r: Option<
    Timestamp,
>)
    ensures
        moment_of_option(r) == own_stamp(moments_view(found@), member as int, file@),
{
    let own = if member < found.len() {
        found[member]
    } else {
        None
    };
    match unify(found) {
        Some(t) => Some(t),
        None => match own {
            Some(t) => Some(t),
            None => {
                let stem = file_stem(file.name.as_str());
                extract_datetime_from_filename(stem.as_str())
            },
        },
    }
}

} // verus!
