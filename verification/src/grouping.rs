//! Grouping the files that were found by their stem.
//!
//! A picture, its raw image and its clip share a stem. They form one group,
//! wherever below the search roots each of them lies, so that the one with a
//! usable timestamp can lend it to the others.

use vstd::prelude::*;
use crate::config::{ConfigModel, RenamerConfig};
use crate::media::{
    category_of, file_in_scope, files_view, stem_of, Category, FileModel, MediaFile,
};
use crate::text::{chars_of, contains, has_substring, strings_view};

verus! {

/// The files that share one stem.
#[derive(Debug, PartialEq, Eq)]
pub struct StemGroup {
    /// The stem that the members share.
    pub stem: String,
    /// The files of the group, in the order in which they were found.
    pub members: Vec<MediaFile>,
}

/// What a `StemGroup` stands for.
pub struct GroupModel {
    pub stem: Seq<char>,
    pub members: Seq<FileModel>,
}

impl View for StemGroup {
    type V = GroupModel;

    open spec fn view(&self) -> GroupModel {
        GroupModel { stem: self.stem@, members: files_view(self.members@) }
    }
}

/// What a list of groups stands for.
pub open spec fn groups_view(groups: Seq<StemGroup>) -> Seq<GroupModel> {
    groups.map_values(|g: StemGroup| g@)
}

/// A path is excluded when one of the fragments stands in it.
pub open spec fn is_excluded(path: Seq<char>, exclusions: Seq<Seq<char>>) -> bool {
    exists|i: int| 0 <= i < exclusions.len() && has_substring(path, #[trigger] exclusions[i])
}

/// A file is taken up when its category is supported and its path is not
/// excluded.
pub open spec fn is_eligible(config: ConfigModel, file: FileModel) -> bool {
    category_of(file.name) != Category::Unsupported && !is_excluded(file.path, config.exclusions)
}

/// The test for the members of the group of `stem`.
pub open spec fn member_test(config: ConfigModel, stem: Seq<char>) -> spec_fn(FileModel) -> bool {
    |file: FileModel| is_eligible(config, file) && stem_of(file.name) == stem
}

/// One of the groups has this stem.
pub open spec fn has_stem(groups: Seq<GroupModel>, stem: Seq<char>) -> bool {
    exists|i: int| 0 <= i < groups.len() && (#[trigger] groups[i]).stem == stem
}

/// The stems of the files taken up, each once, in the order in which it
/// first appears.
pub open spec fn stems_in_order(config: ConfigModel, files: Seq<FileModel>) -> Seq<Seq<char>>
    decreases files.len(),
{
    if files.len() == 0 {
        Seq::empty()
    } else {
        let before = stems_in_order(config, files.drop_last());
        let stem = stem_of(files.last().name);
        if is_eligible(config, files.last()) && !before.contains(stem) {
            before.push(stem)
        } else {
            before
        }
    }
}

/// The stems of the groups, in order.
pub open spec fn group_stems(groups: Seq<GroupModel>) -> Seq<Seq<char>> {
    groups.map_values(|g: GroupModel| g.stem)
}

/// `groups` is the grouping of `files`: the groups come in the order in
/// which their stems first appear, no two groups share a stem, a group holds
/// exactly the files taken up that have its stem, in the order of `files`,
/// and at least one, and every file taken up has its group.
pub open spec fn is_grouping(config: ConfigModel, files: Seq<FileModel>, groups: Seq<GroupModel>) -> bool {
    &&& group_stems(groups) == stems_in_order(config, files)
    &&& forall|i: int, j: int|
        0 <= i < j < groups.len() ==> (#[trigger] groups[i]).stem != (#[trigger] groups[j]).stem
    &&& forall|i: int|
        0 <= i < groups.len() ==> (#[trigger] groups[i]).members.len() > 0 && groups[i].members
            == files.filter(member_test(config, groups[i].stem))
    &&& forall|k: int|
        0 <= k < files.len() && is_eligible(config, #[trigger] files[k]) ==> has_stem(
            groups,
            stem_of(files[k].name),
        )
}

proof fn lemma_stem_listed(groups: Seq<GroupModel>, stem: Seq<char>)
    ensures
        has_stem(groups, stem) == group_stems(groups).contains(stem),
{
    if has_stem(groups, stem) {
        let i = choose|i: int| 0 <= i < groups.len() && (#[trigger] groups[i]).stem == stem;
        assert(group_stems(groups)[i] == stem);
    }
    if group_stems(groups).contains(stem) {
        let i = choose|i: int| 0 <= i < group_stems(groups).len() && group_stems(groups)[i] == stem;
        assert(groups[i].stem == stem);
    }
}

proof fn lemma_skip_file(
    config: ConfigModel,
    files: Seq<FileModel>,
    groups: Seq<GroupModel>,
    file: FileModel,
)
    requires
        is_grouping(config, files, groups),
        !is_eligible(config, file),
    ensures
        is_grouping(config, files.push(file), groups),
{
    let more = files.push(file);
    assert(more.drop_last() =~= files);
    assert forall|i: int| 0 <= i < groups.len() implies (#[trigger] groups[i]).members
        == more.filter(member_test(config, groups[i].stem)) by {
        files.lemma_filter_push(file, member_test(config, groups[i].stem));
    }
    assert forall|k: int| 0 <= k < more.len() && is_eligible(config, #[trigger] more[k]) implies has_stem(
        groups,
        stem_of(more[k].name),
    ) by {
        assert(more[k] == files[k]);
    }
}

proof fn lemma_join_group(
    config: ConfigModel,
    files: Seq<FileModel>,
    groups: Seq<GroupModel>,
    file: FileModel,
    at: int,
)
    requires
        is_grouping(config, files, groups),
        is_eligible(config, file),
        0 <= at < groups.len(),
        groups[at].stem == stem_of(file.name),
    ensures
        is_grouping(
            config,
            files.push(file),
            groups.update(
                at,
                GroupModel { stem: groups[at].stem, members: groups[at].members.push(file) },
            ),
        ),
{
    let more = files.push(file);
    let after = groups.update(
        at,
        GroupModel { stem: groups[at].stem, members: groups[at].members.push(file) },
    );
    assert(more.drop_last() =~= files);
    lemma_stem_listed(groups, stem_of(file.name));
    assert(group_stems(after) =~= group_stems(groups));
    assert forall|i: int, j: int| 0 <= i < j < after.len() implies (#[trigger] after[i]).stem != (
    #[trigger] after[j]).stem by {
        assert(after[i].stem == groups[i].stem);
        assert(after[j].stem == groups[j].stem);
    }
    assert forall|i: int| 0 <= i < after.len() implies (#[trigger] after[i]).members.len() > 0
        && after[i].members == more.filter(member_test(config, after[i].stem)) by {
        files.lemma_filter_push(file, member_test(config, groups[i].stem));
        assert(after[i].stem == groups[i].stem);
        if i != at {
            if i < at {
                assert(groups[i].stem != groups[at].stem);
            } else {
                assert(groups[at].stem != groups[i].stem);
            }
            assert(after[i] == groups[i]);
        }
    }
    assert forall|k: int| 0 <= k < more.len() && is_eligible(config, #[trigger] more[k]) implies has_stem(
        after,
        stem_of(more[k].name),
    ) by {
        if k < files.len() {
            assert(more[k] == files[k]);
            let i = choose|i: int|
                0 <= i < groups.len() && (#[trigger] groups[i]).stem == stem_of(files[k].name);
            assert(after[i].stem == groups[i].stem);
        } else {
            assert(after[at].stem == stem_of(file.name));
        }
    }
}

proof fn lemma_open_group(
    config: ConfigModel,
    files: Seq<FileModel>,
    groups: Seq<GroupModel>,
    file: FileModel,
)
    requires
        is_grouping(config, files, groups),
        is_eligible(config, file),
        !has_stem(groups, stem_of(file.name)),
    ensures
        is_grouping(
            config,
            files.push(file),
            groups.push(GroupModel { stem: stem_of(file.name), members: seq![file] }),
        ),
{
    let stem = stem_of(file.name);
    let more = files.push(file);
    let after = groups.push(GroupModel { stem, members: seq![file] });
    let test = member_test(config, stem);
    assert(more.drop_last() =~= files);
    lemma_stem_listed(groups, stem);
    assert(group_stems(after) =~= group_stems(groups).push(stem));
    assert(files.all(|x: FileModel| !test(x))) by {
        assert forall|k: int| 0 <= k < files.len() implies !test(#[trigger] files[k]) by {
            if is_eligible(config, files[k]) {
                assert(has_stem(groups, stem_of(files[k].name)));
            }
        }
    }
    files.lemma_all_neg_filter_empty(test);
    files.lemma_filter_push(file, test);
    assert(more.filter(test) =~= seq![file]);
    assert forall|i: int, j: int| 0 <= i < j < after.len() implies (#[trigger] after[i]).stem != (
    #[trigger] after[j]).stem by {
        assert(after[i] == groups[i]);
        if j < groups.len() {
            assert(after[j] == groups[j]);
        }
    }
    assert forall|i: int| 0 <= i < after.len() implies (#[trigger] after[i]).members.len() > 0
        && after[i].members == more.filter(member_test(config, after[i].stem)) by {
        if i < groups.len() {
            assert(after[i] == groups[i]);
            files.lemma_filter_push(file, member_test(config, groups[i].stem));
        }
    }
    assert forall|k: int| 0 <= k < more.len() && is_eligible(config, #[trigger] more[k]) implies has_stem(
        after,
        stem_of(more[k].name),
    ) by {
        if k < files.len() {
            assert(more[k] == files[k]);
            let i = choose|i: int|
                0 <= i < groups.len() && (#[trigger] groups[i]).stem == stem_of(files[k].name);
            assert(after[i] == groups[i]);
        } else {
            assert(after[groups.len() as int].stem == stem);
        }
    }
}

/// Whether one of the fragments stands in the path.
pub fn is_excluded_path(path: &str, exclusions: &Vec<String>) -> (b: bool)
    ensures
        b == is_excluded(path@, strings_view(exclusions@)),
{
    let hay = chars_of(path);
    let ghost all = strings_view(exclusions@);
    let mut i: usize = 0;
    while i < exclusions.len()
        invariant
            i <= exclusions.len(),
            hay@ == path@,
            all == strings_view(exclusions@),
            forall|j: int| 0 <= j < i ==> !has_substring(path@, #[trigger] all[j]),
        decreases exclusions.len() - i,
    {
        let needle = chars_of(exclusions[i].as_str());
        if contains(&hay, &needle) {
            proof {
                assert(has_substring(path@, all[i as int]));
            }
            return true;
        }
        i += 1;
    }
    false
}

/// The index of the group with this stem, if there is one.
fn find_group(groups: &Vec<StemGroup>, stem: &String) -> (r: Option<usize>)
    ensures
        match r {
            Some(i) => i < groups.len() && groups@[i as int].stem@ == stem@,
            None => !has_stem(groups_view(groups@), stem@),
        },
{
    let mut i: usize = 0;
    while i < groups.len()
        invariant
            i <= groups.len(),
            forall|j: int| 0 <= j < i ==> (#[trigger] groups_view(groups@)[j]).stem != stem@,
        decreases groups.len() - i,
    {
        if groups[i].stem == *stem {
            return Some(i);
        }
        proof {
            assert(groups_view(groups@)[i as int].stem == groups@[i as int].stem@);
        }
        i += 1;
    }
    None
}

/// Groups the files that were found below the search roots by their stem.
/// Files of no supported category and files whose path holds an excluded
/// fragment are left out.
pub fn get_all_filenames_in_scope(config: &RenamerConfig, found: &Vec<MediaFile>) -> (groups: Vec<
    StemGroup,
>)
    ensures
        is_grouping(config@, files_view(found@), groups_view(groups@)),
{
    let mut groups: Vec<StemGroup> = Vec::new();
    let ghost all = files_view(found@);
    proof {
        assert(group_stems(groups_view(groups@)) =~= stems_in_order(config@, all.take(0)));
    }
    let mut k: usize = 0;
    while k < found.len()
        invariant
            k <= found.len(),
            all == files_view(found@),
            is_grouping(config@, all.take(k as int), groups_view(groups@)),
        decreases found.len() - k,
    {
        let file = &found[k];
        let ghost before = groups_view(groups@);
        proof {
            assert(all.take(k + 1) =~= all.take(k as int).push(file@));
        }
        if file_in_scope(file) && !is_excluded_path(file.path.as_str(), &config.exclusions) {
            let stem = file.stem();
            match find_group(&groups, &stem) {
                Some(i) => {
                    let mut group = groups.remove(i);
                    group.members.push(file.clone());
                    proof {
                        assert(group@.members =~= before[i as int].members.push(file@));
                    }
                    groups.insert(i, group);
                    proof {
                        lemma_join_group(config@, all.take(k as int), before, file@, i as int);
                        assert(groups_view(groups@) =~= before.update(
                            i as int,
                            GroupModel {
                                stem: before[i as int].stem,
                                members: before[i as int].members.push(file@),
                            },
                        ));
                    }
                },
                None => {
                    let mut members: Vec<MediaFile> = Vec::new();
                    members.push(file.clone());
                    let group = StemGroup { stem, members };
                    proof {
                        assert(group@.members =~= seq![file@]);
                    }
                    groups.push(group);
                    proof {
                        lemma_open_group(config@, all.take(k as int), before, file@);
                        assert(groups_view(groups@) =~= before.push(
                            GroupModel { stem: stem_of(file@.name), members: seq![file@] },
                        ));
                    }
                },
            }
        } else {
            proof {
                lemma_skip_file(config@, all.take(k as int), before, file@);
            }
        }
        k += 1;
    }
    proof {
        assert(all.take(found@.len() as int) =~= all);
    }
    groups
}

} // verus!
