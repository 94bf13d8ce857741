//! A run in a world that keeps its answers.
//!
//! The world gives every file its EXIF reading and its modification time,
//! and knows which paths exist; a copy adds its target to them. A run driven
//! by such a world ends with every file either recorded or given up for a
//! reason that still holds. So a second run over the same files, begun on
//! the ledger that the first one left, copies nothing and records nothing:
//! it gives up again what was given up before.

use vstd::prelude::*;
use crate::config::ConfigModel;
use crate::engine::{
    exhausted_message, first_open_group, first_open_member, group_done, lemma_first_open_group,
    lemma_first_open_member, lemma_start_well_formed, lemma_step_well_formed, needs_work,
    unresolved_message, ActionModel, Event, RunModel, Stage, TransferModel,
};
use crate::rerun::lemma_test_mode_is_pure;
use crate::grouping::GroupModel;
use crate::ledger::{lemma_push_keeps_entries, normalized};
use crate::media::FileModel;
use crate::naming::{candidate_for, MAX_ATTEMPTS};
use crate::resolve::own_stamp;
use crate::timestamp::{moment_of_option, Moment, Timestamp};

verus! {

/// What the file system answers.
pub struct World {
    /// The EXIF reading of each path.
    pub exif: spec_fn(Seq<char>) -> Option<Timestamp>,
    /// The modification time of each path.
    pub modified: spec_fn(Seq<char>) -> Option<Timestamp>,
    /// The paths that exist.
    pub existing: Set<Seq<char>>,
}

impl World {
    /// The answer to an action.
    pub open spec fn answer(self, action: ActionModel) -> Event {
        match action {
            ActionModel::ReadExif { path } => Event::Exif((self.exif)(path)),
            ActionModel::ReadModified { path } => Event::Modified((self.modified)(path)),
            ActionModel::Probe { path } => Event::Exists(self.existing.contains(path)),
            _ => Event::Transferred,
        }
    }

    /// The world after an action was carried out: a copy makes its target
    /// exist, and nothing else changes anything.
    pub open spec fn after(self, action: ActionModel) -> World {
        match action {
            ActionModel::Copy { source, target } => World {
                existing: self.existing.insert(target),
                ..self
            },
            _ => self,
        }
    }
}

/// The run and the world after `steps` actions were carried out and
/// answered.
pub open spec fn drive(run: RunModel, world: World, steps: nat) -> (RunModel, World)
    decreases steps,
{
    if steps == 0 {
        (run, world)
    } else {
        drive(
            run.step(world.answer(run.pending())),
            world.after(run.pending()),
            (steps - 1) as nat,
        )
    }
}

/// The EXIF readings of the members of a group.
pub open spec fn readings(world: World, members: Seq<FileModel>) -> Seq<Option<Moment>> {
    Seq::new(members.len(), |i: int| moment_of_option((world.exif)(members[i].path)))
}

/// The timestamp that a run settles on for member `m`, if any source gives
/// one.
pub open spec fn stamp_in(world: World, members: Seq<FileModel>, m: int) -> Option<Moment> {
    match own_stamp(readings(world, members), m, members[m]) {
        Some(t) => Some(t),
        None => moment_of_option((world.modified)(members[m].path)),
    }
}

/// The path that attempt `counter` proposes.
pub open spec fn nth_candidate(config: ConfigModel, file: FileModel, stamp: Moment, counter: int) -> Seq<
    char,
> {
    candidate_for(config, file, stamp, counter as nat)
}

/// An attempt on member `m` ends in giving it up: no source gives it a
/// timestamp, or every name that would be tried exists.
pub open spec fn attempt_fails(config: ConfigModel, world: World, members: Seq<FileModel>, m: int) -> bool {
    match stamp_in(world, members, m) {
        None => true,
        Some(t) => forall|c: int|
            0 <= c < MAX_ATTEMPTS ==> world.existing.contains(
                #[trigger] nth_candidate(config, members[m], t, c),
            ),
    }
}

/// Of the first `upto` members, each that is still to be copied would be
/// given up.
pub open spec fn harvested_upto(
    config: ConfigModel,
    ledger: Seq<Seq<char>>,
    world: World,
    members: Seq<FileModel>,
    upto: int,
) -> bool {
    forall|m: int|
        0 <= m < upto && needs_work(ledger, #[trigger] members[m]) ==> attempt_fails(
            config,
            world,
            members,
            m,
        )
}

/// Every file of every group that is still to be copied would be given up.
pub open spec fn all_harvested(
    config: ConfigModel,
    groups: Seq<GroupModel>,
    ledger: Seq<Seq<char>>,
    world: World,
) -> bool {
    forall|g: int|
        0 <= g < groups.len() ==> harvested_upto(
            config,
            ledger,
            world,
            (#[trigger] groups[g]).members,
            groups[g].members.len() as int,
        )
}

/// The run holds what the world answered: the readings gathered so far are
/// those of the world, the timestamp of the current member is the one that
/// the world gives it, and every name passed over exists.
pub open spec fn follows(run: RunModel, world: World) -> bool {
    match run.stage {
        Stage::Done => true,
        Stage::Exif => run.found == readings(world, run.members()).take(run.member),
        Stage::Modified => {
            &&& run.found == readings(world, run.members())
            &&& own_stamp(run.found, run.member, run.current()) is None
        },
        Stage::Probe | Stage::Transfer => {
            &&& run.found == readings(world, run.members())
            &&& run.stamp == stamp_in(world, run.members(), run.member)
            &&& forall|c: int|
                0 <= c < run.counter ==> world.existing.contains(
                    #[trigger] nth_candidate(run.config, run.current(), run.stamp->0, c),
                )
        },
    }
}

/// Whatever lies before the position and is still to be copied would be
/// given up.
pub open spec fn harvested(run: RunModel, world: World) -> bool {
    &&& 0 <= run.group <= run.groups.len()
    &&& forall|g: int|
        0 <= g < run.group ==> harvested_upto(
            run.config,
            run.ledger,
            world,
            (#[trigger] run.groups[g]).members,
            run.groups[g].members.len() as int,
        )
    &&& (run.stage == Stage::Modified || run.stage == Stage::Probe || run.stage == Stage::Transfer)
        ==> harvested_upto(run.config, run.ledger, world, run.members(), run.member)
}

/// What would be given up stays so when an entry is recorded and a path
/// comes to exist.
proof fn lemma_harvest_stays(
    config: ConfigModel,
    ledger: Seq<Seq<char>>,
    world: World,
    members: Seq<FileModel>,
    upto: int,
    entry: Seq<char>,
    target: Seq<char>,
)
    requires
        harvested_upto(config, ledger, world, members, upto),
    ensures
        harvested_upto(
            config,
            ledger.push(entry),
            World { existing: world.existing.insert(target), ..world },
            members,
            upto,
        ),
{
    let later = World { existing: world.existing.insert(target), ..world };
    assert(readings(later, members) =~= readings(world, members));
    assert forall|m: int|
        0 <= m < upto && needs_work(ledger.push(entry), #[trigger] members[m]) implies attempt_fails(
        config,
        later,
        members,
        m,
    ) by {
        lemma_push_keeps_entries(ledger, entry, normalized(members[m].path));
        assert(attempt_fails(config, world, members, m));
        assert(stamp_in(later, members, m) == stamp_in(world, members, m));
        if stamp_in(world, members, m) is Some {
            let t = stamp_in(world, members, m)->0;
            assert forall|c: int| 0 <= c < MAX_ATTEMPTS implies later.existing.contains(
                #[trigger] nth_candidate(config, members[m], t, c),
            ) by {
                assert(world.existing.contains(nth_candidate(config, members[m], t, c)));
            }
        }
    }
}

/// A group that is done has nothing that is still to be copied.
proof fn lemma_done_is_harvested(
    config: ConfigModel,
    ledger: Seq<Seq<char>>,
    world: World,
    group: GroupModel,
)
    requires
        group_done(ledger, group),
    ensures
        harvested_upto(config, ledger, world, group.members, group.members.len() as int),
{
}

proof fn lemma_enter_group_follows(run: RunModel, world: World, from: int)
    requires
        0 <= from <= run.groups.len(),
        forall|g: int|
            0 <= g < from ==> harvested_upto(
                run.config,
                run.ledger,
                world,
                (#[trigger] run.groups[g]).members,
                run.groups[g].members.len() as int,
            ),
    ensures
        follows(run.enter_group(from), world),
        harvested(run.enter_group(from), world),
{
    lemma_first_open_group(run.groups, run.ledger, from);
    let open = first_open_group(run.groups, run.ledger, from);
    let next = run.enter_group(from);
    assert forall|g: int| 0 <= g < open implies harvested_upto(
        run.config,
        run.ledger,
        world,
        (#[trigger] run.groups[g]).members,
        run.groups[g].members.len() as int,
    ) by {
        if g >= from {
            lemma_done_is_harvested(run.config, run.ledger, world, run.groups[g]);
        }
    }
    if open < run.groups.len() {
        assert(next.found =~= readings(world, next.members()).take(0));
    }
}

proof fn lemma_enter_member_follows(run: RunModel, world: World, from: int)
    requires
        0 <= run.group < run.groups.len(),
        0 <= from <= run.members().len(),
        run.found == readings(world, run.members()),
        forall|g: int|
            0 <= g < run.group ==> harvested_upto(
                run.config,
                run.ledger,
                world,
                (#[trigger] run.groups[g]).members,
                run.groups[g].members.len() as int,
            ),
        harvested_upto(run.config, run.ledger, world, run.members(), from),
    ensures
        follows(run.enter_member(from), world),
        harvested(run.enter_member(from), world),
{
    lemma_first_open_member(run.members(), run.ledger, from);
    let open = first_open_member(run.members(), run.ledger, from);
    if open >= run.members().len() {
        assert(harvested_upto(
            run.config,
            run.ledger,
            world,
            run.groups[run.group].members,
            run.groups[run.group].members.len() as int,
        ));
        lemma_enter_group_follows(run, world, run.group + 1);
    } else {
        let next = run.enter_member(from);
        assert(next.members() == run.members());
        assert(harvested_upto(run.config, run.ledger, world, run.members(), open));
    }
}

/// A step of a run outside test mode, answered by the world, keeps the run
/// in line with the world, and keeps whatever lies before the position
/// recorded or sure to be given up.
pub proof fn lemma_driven_step(run: RunModel, world: World)
    requires
        run.well_formed(),
        !run.test_mode,
        follows(run, world),
        harvested(run, world),
    ensures
        follows(run.step(world.answer(run.pending())), world.after(run.pending())),
        harvested(run.step(world.answer(run.pending())), world.after(run.pending())),
{
    let event = world.answer(run.pending());
    let next = run.step(event);
    let later = world.after(run.pending());
    match run.stage {
        Stage::Done => {},
        Stage::Exif => {
            let reading = moment_of_option((world.exif)(run.current().path));
            let found = run.found.push(reading);
            assert(found =~= readings(world, run.members()).take(run.member + 1));
            if run.member + 1 >= run.members().len() {
                let gathered = RunModel { found, ..run };
                assert(found =~= readings(world, run.members()));
                lemma_enter_member_follows(gathered, world, 0);
            }
        },
        Stage::Modified => {
            let modified = moment_of_option((world.modified)(run.current().path));
            if modified is None {
                let reported = RunModel {
                    errors: run.errors.push(unresolved_message(run.current().path)),
                    ..run
                };
                assert(attempt_fails(run.config, world, run.members(), run.member));
                lemma_enter_member_follows(reported, world, run.member + 1);
            }
        },
        Stage::Probe => {
            let taken = world.existing.contains(run.candidate());
            assert(run.candidate() == nth_candidate(
                run.config,
                run.current(),
                run.stamp->0,
                run.counter,
            ));
            if taken && run.counter + 1 >= MAX_ATTEMPTS {
                let reported = RunModel {
                    errors: run.errors.push(exhausted_message(run.current().path)),
                    ..run
                };
                assert(attempt_fails(run.config, world, run.members(), run.member));
                lemma_enter_member_follows(reported, world, run.member + 1);
            }
        },
        Stage::Transfer => {
            let entry = normalized(run.current().path);
            let target = run.candidate();
            let copied = RunModel {
                ledger: run.ledger.push(entry),
                transfers: run.transfers.push(TransferModel { source: run.current().path, target }),
                ..run
            };
            assert(later == World { existing: world.existing.insert(target), ..world });
            assert(readings(later, run.members()) =~= readings(world, run.members()));
            assert forall|g: int| 0 <= g < copied.group implies harvested_upto(
                copied.config,
                copied.ledger,
                later,
                (#[trigger] copied.groups[g]).members,
                copied.groups[g].members.len() as int,
            ) by {
                lemma_harvest_stays(
                    run.config,
                    run.ledger,
                    world,
                    run.groups[g].members,
                    run.groups[g].members.len() as int,
                    entry,
                    target,
                );
            }
            lemma_harvest_stays(
                run.config,
                run.ledger,
                world,
                run.members(),
                run.member,
                entry,
                target,
            );
            lemma_push_keeps_entries(run.ledger, entry, entry);
            assert(harvested_upto(
                copied.config,
                copied.ledger,
                later,
                copied.members(),
                run.member + 1,
            ));
            lemma_enter_member_follows(copied, later, run.member + 1);
        },
    }
}

/// Where every file that is still to be copied would be given up, a step
/// answered by the world makes no copy: the run never comes to wait for one,
/// and ledger, list of copies and world stay as they are.
pub proof fn lemma_barren_step(run: RunModel, world: World)
    requires
        run.well_formed(),
        follows(run, world),
        all_harvested(run.config, run.groups, run.ledger, world),
        run.stage != Stage::Transfer,
    ensures
        run.step(world.answer(run.pending())).stage != Stage::Transfer,
        run.step(world.answer(run.pending())).ledger == run.ledger,
        run.step(world.answer(run.pending())).transfers == run.transfers,
        world.after(run.pending()) == world,
        follows(run.step(world.answer(run.pending())), world),
{
    let event = world.answer(run.pending());
    let next = run.step(event);
    assert forall|g: int| 0 <= g < run.groups.len() implies harvested_upto(
        run.config,
        run.ledger,
        world,
        (#[trigger] run.groups[g]).members,
        run.groups[g].members.len() as int,
    ) by {}
    match run.stage {
        Stage::Done => {},
        Stage::Exif => {
            let reading = moment_of_option((world.exif)(run.current().path));
            let found = run.found.push(reading);
            assert(found =~= readings(world, run.members()).take(run.member + 1));
            if run.member + 1 >= run.members().len() {
                let gathered = RunModel { found, ..run };
                assert(found =~= readings(world, run.members()));
                assert(harvested_upto(
                    run.config,
                    run.ledger,
                    world,
                    run.groups[run.group].members,
                    run.groups[run.group].members.len() as int,
                ));
                lemma_enter_member_follows(gathered, world, 0);
                lemma_enter_member_rests(gathered, 0);
            }
        },
        Stage::Modified => {
            let modified = moment_of_option((world.modified)(run.current().path));
            if modified is None {
                let reported = RunModel {
                    errors: run.errors.push(unresolved_message(run.current().path)),
                    ..run
                };
                assert(harvested_upto(
                    run.config,
                    run.ledger,
                    world,
                    run.groups[run.group].members,
                    run.groups[run.group].members.len() as int,
                ));
                lemma_enter_member_follows(reported, world, run.member + 1);
                lemma_enter_member_rests(reported, run.member + 1);
            }
        },
        Stage::Probe => {
            assert(harvested_upto(
                run.config,
                run.ledger,
                world,
                run.groups[run.group].members,
                run.groups[run.group].members.len() as int,
            ));
            assert(attempt_fails(run.config, world, run.members(), run.member));
            assert(run.candidate() == nth_candidate(
                run.config,
                run.current(),
                run.stamp->0,
                run.counter,
            ));
            assert(world.existing.contains(run.candidate()));
            if run.counter + 1 >= MAX_ATTEMPTS {
                let reported = RunModel {
                    errors: run.errors.push(exhausted_message(run.current().path)),
                    ..run
                };
                lemma_enter_member_follows(reported, world, run.member + 1);
                lemma_enter_member_rests(reported, run.member + 1);
            }
        },
        Stage::Transfer => {},
    }
}

/// Entering a member or a group changes neither the ledger nor the list of
/// copies, and does not lead to waiting for a copy.
proof fn lemma_enter_member_rests(run: RunModel, from: int)
    ensures
        run.enter_member(from).stage != Stage::Transfer,
        run.enter_member(from).ledger == run.ledger,
        run.enter_member(from).transfers == run.transfers,
        run.enter_member(from).config == run.config,
        run.enter_member(from).groups == run.groups,
{
}

/// A driven run stays in a position that it can be in, with its settings
/// and groups; outside test mode it stays in line with the world, with
/// whatever lies before the position recorded or sure to be given up.
proof fn lemma_drive_harvests(run: RunModel, world: World, steps: nat)
    requires
        run.well_formed(),
        !run.test_mode,
        follows(run, world),
        harvested(run, world),
    ensures
        drive(run, world, steps).0.well_formed(),
        !drive(run, world, steps).0.test_mode,
        drive(run, world, steps).0.config == run.config,
        drive(run, world, steps).0.groups == run.groups,
        follows(drive(run, world, steps).0, drive(run, world, steps).1),
        harvested(drive(run, world, steps).0, drive(run, world, steps).1),
    decreases steps,
{
    if steps > 0 {
        let event = world.answer(run.pending());
        lemma_step_well_formed(run, event);
        lemma_driven_step(run, world);
        lemma_drive_harvests(run.step(event), world.after(run.pending()), (steps - 1) as nat);
    }
}

/// A run driven where every file that is still to be copied would be given
/// up makes no copy and records nothing, and leaves the world as it is.
proof fn lemma_drive_is_barren(run: RunModel, world: World, steps: nat)
    requires
        run.well_formed(),
        follows(run, world),
        all_harvested(run.config, run.groups, run.ledger, world),
        run.stage != Stage::Transfer,
    ensures
        drive(run, world, steps).0.ledger == run.ledger,
        drive(run, world, steps).0.transfers == run.transfers,
        drive(run, world, steps).1 == world,
    decreases steps,
{
    if steps > 0 {
        let event = world.answer(run.pending());
        lemma_step_well_formed(run, event);
        lemma_barren_step(run, world);
        lemma_drive_is_barren(run.step(event), world, (steps - 1) as nat);
    }
}

/// A run in test mode changes nothing: however long it is driven, the
/// ledger and the world stay as they are.
pub proof fn lemma_test_drive_changes_nothing(run: RunModel, world: World, steps: nat)
    requires
        run.test_mode,
    ensures
        drive(run, world, steps).0.ledger == run.ledger,
        drive(run, world, steps).1 == world,
    decreases steps,
{
    if steps > 0 {
        let event = world.answer(run.pending());
        lemma_test_mode_is_pure(run, event);
        lemma_test_drive_changes_nothing(run.step(event), world, (steps - 1) as nat);
    }
}

/// Running twice copies each file once. Let a run outside test mode be
/// driven by a world until it is over. Then a second run over the same
/// groups, begun on the ledger and in the world that the first one left,
/// makes no copy, records nothing, and leaves the world as it is, however
/// long it is driven and whether or not in test mode.
pub proof fn lemma_rerun_copies_nothing(
    config: ConfigModel,
    groups: Seq<GroupModel>,
    ledger: Seq<Seq<char>>,
    world: World,
    first: nat,
    test_mode: bool,
    second: nat,
)
    requires
        ledger.no_duplicates(),
        drive(RunModel::start(config, false, groups, ledger), world, first).0.stage == Stage::Done,
    ensures
        ({
            let left = drive(RunModel::start(config, false, groups, ledger), world, first);
            let again = drive(
                RunModel::start(config, test_mode, groups, left.0.ledger),
                left.1,
                second,
            );
            &&& again.0.ledger == left.0.ledger
            &&& again.0.transfers.len() == 0
            &&& again.1 == left.1
        }),
{
    let begin = RunModel::start(config, false, groups, ledger);
    lemma_start_well_formed(config, false, groups, ledger);
    lemma_start_follows(config, false, groups, ledger, world);
    lemma_drive_harvests(begin, world, first);
    let left = drive(begin, world, first);
    assert(all_harvested(config, groups, left.0.ledger, left.1)) by {
        assert forall|g: int| 0 <= g < groups.len() implies harvested_upto(
            config,
            left.0.ledger,
            left.1,
            (#[trigger] groups[g]).members,
            groups[g].members.len() as int,
        ) by {
            assert(left.0.groups[g] == groups[g]);
        }
    }
    let rebegin = RunModel::start(config, test_mode, groups, left.0.ledger);
    lemma_start_well_formed(config, test_mode, groups, left.0.ledger);
    lemma_start_follows(config, test_mode, groups, left.0.ledger, left.1);
    lemma_drive_is_barren(rebegin, left.1, second);
}

/// A run begins in line with any world, with nothing before its position
/// that is still to be copied.
proof fn lemma_start_follows(
    config: ConfigModel,
    test_mode: bool,
    groups: Seq<GroupModel>,
    ledger: Seq<Seq<char>>,
    world: World,
)
    ensures
        follows(RunModel::start(config, test_mode, groups, ledger), world),
        harvested(RunModel::start(config, test_mode, groups, ledger), world),
        RunModel::start(config, test_mode, groups, ledger).stage != Stage::Transfer,
        RunModel::start(config, test_mode, groups, ledger).config == config,
        RunModel::start(config, test_mode, groups, ledger).groups == groups,
        RunModel::start(config, test_mode, groups, ledger).ledger == ledger,
        RunModel::start(config, test_mode, groups, ledger).transfers.len() == 0,
{
    let origin = RunModel {
        config,
        test_mode,
        groups,
        ledger,
        group: 0,
        member: 0,
        stage: Stage::Done,
        found: Seq::empty(),
        stamp: None,
        counter: 0,
        errors: Seq::empty(),
        transfers: Seq::empty(),
    };
    lemma_enter_group_follows(origin, world, 0);
}

} // verus!
