//! What a run leaves behind, and what a second run finds, whatever the
//! answers are.
//!
//! A run outside test mode that gives up no file has recorded every file of
//! a supported category when it ends. A run that starts where every such file
//! is recorded copies nothing and records nothing, whatever the file system
//! answers. In test mode a run never asks for a copy and leaves the ledger
//! alone.

use vstd::prelude::*;
use crate::config::ConfigModel;
use crate::engine::{
    first_open_group, first_open_member, group_done, lemma_first_open_group,
    lemma_first_open_member, lemma_start_well_formed, lemma_step_well_formed, needs_work, Event,
    RunModel, Stage, TransferModel,
};
use crate::grouping::GroupModel;
use crate::ledger::{lemma_push_keeps_entries, normalized};
use crate::timestamp::moment_of_option;

verus! {

/// The state of `run` after the events `events`, taken in order.
pub open spec fn run_after(run: RunModel, events: Seq<Event>) -> RunModel
    decreases events.len(),
{
    if events.len() == 0 {
        run
    } else {
        run_after(run, events.drop_last()).step(events.last())
    }
}

/// No member of the group is still to be copied.
pub open spec fn group_recorded(ledger: Seq<Seq<char>>, group: GroupModel) -> bool {
    forall|i: int| 0 <= i < group.members.len() ==> !needs_work(ledger, #[trigger] group.members[i])
}

/// No file of any group is still to be copied.
pub open spec fn all_recorded(groups: Seq<GroupModel>, ledger: Seq<Seq<char>>) -> bool {
    forall|g: int| 0 <= g < groups.len() ==> group_recorded(ledger, #[trigger] groups[g])
}

/// The run is waiting for an EXIF reading, or is over.
pub open spec fn is_idle(run: RunModel) -> bool {
    run.stage == Stage::Exif || run.stage == Stage::Done
}

/// Nothing before the current position is still to be copied: no member of
/// an earlier group and, once the readings of the current group are
/// gathered, no earlier member of it.
pub open spec fn settled(run: RunModel) -> bool {
    &&& 0 <= run.group <= run.groups.len()
    &&& forall|g: int| 0 <= g < run.group ==> group_recorded(run.ledger, #[trigger] run.groups[g])
    &&& (run.stage == Stage::Modified || run.stage == Stage::Probe || run.stage == Stage::Transfer)
        ==> forall|m: int|
        0 <= m < run.member ==> !needs_work(run.ledger, #[trigger] run.members()[m])
}

/// In test mode a step leaves the ledger as it is, and no copy is asked for.
pub proof fn lemma_test_mode_is_pure(run: RunModel, event: Event)
    requires
        run.test_mode,
    ensures
        run.step(event).test_mode,
        run.step(event).ledger == run.ledger,
        !(run.pending() is Copy),
        !(run.step(event).pending() is Copy),
{
}

/// In test mode no sequence of events changes the ledger.
pub proof fn lemma_test_run_keeps_ledger(run: RunModel, events: Seq<Event>)
    requires
        run.test_mode,
    ensures
        run_after(run, events).test_mode,
        run_after(run, events).ledger == run.ledger,
        !(run_after(run, events).pending() is Copy),
    decreases events.len(),
{
    if events.len() > 0 {
        lemma_test_run_keeps_ledger(run, events.drop_last());
        lemma_test_mode_is_pure(run_after(run, events.drop_last()), events.last());
    }
}

/// A copy is only asked for a file that is not recorded, and outside test
/// mode the step that follows the copy records it.
pub proof fn lemma_copy_records_source(run: RunModel)
    requires
        run.well_formed(),
        run.pending() is Copy,
    ensures
        !run.ledger.contains(normalized(run.pending()->Copy_source)),
        run.step(Event::Transferred).ledger == run.ledger.push(
            normalized(run.pending()->Copy_source),
        ),
{
}

/// A step leaves the settings and the groups as they are, and takes no line
/// out of the report.
pub proof fn lemma_step_keeps_inputs(run: RunModel, event: Event)
    ensures
        run.step(event).config == run.config,
        run.step(event).test_mode == run.test_mode,
        run.step(event).groups == run.groups,
        run.step(event).errors.len() >= run.errors.len(),
{
}

/// A group that is done has no member that is still to be copied.
proof fn lemma_done_is_recorded(ledger: Seq<Seq<char>>, group: GroupModel)
    requires
        group_done(ledger, group),
    ensures
        group_recorded(ledger, group),
{
}

/// A new entry takes no file off the ledger.
proof fn lemma_recorded_stays(ledger: Seq<Seq<char>>, entry: Seq<char>, group: GroupModel)
    requires
        group_recorded(ledger, group),
    ensures
        group_recorded(ledger.push(entry), group),
{
    assert forall|i: int| 0 <= i < group.members.len() implies !needs_work(
        ledger.push(entry),
        #[trigger] group.members[i],
    ) by {
        lemma_push_keeps_entries(ledger, entry, normalized(group.members[i].path));
    }
}

proof fn lemma_enter_group_settles(run: RunModel, from: int)
    requires
        0 <= from <= run.groups.len(),
        forall|g: int| 0 <= g < from ==> group_recorded(run.ledger, #[trigger] run.groups[g]),
    ensures
        settled(run.enter_group(from)),
{
    lemma_first_open_group(run.groups, run.ledger, from);
    let open = first_open_group(run.groups, run.ledger, from);
    assert forall|g: int| 0 <= g < open implies group_recorded(
        run.ledger,
        #[trigger] run.groups[g],
    ) by {
        if g >= from {
            lemma_done_is_recorded(run.ledger, run.groups[g]);
        }
    }
}

proof fn lemma_enter_member_settles(run: RunModel, from: int)
    requires
        0 <= run.group < run.groups.len(),
        0 <= from <= run.members().len(),
        forall|g: int| 0 <= g < run.group ==> group_recorded(run.ledger, #[trigger] run.groups[g]),
        forall|m: int| 0 <= m < from ==> !needs_work(run.ledger, #[trigger] run.members()[m]),
    ensures
        settled(run.enter_member(from)),
{
    lemma_first_open_member(run.members(), run.ledger, from);
    let open = first_open_member(run.members(), run.ledger, from);
    if open >= run.members().len() {
        assert(group_recorded(run.ledger, run.groups[run.group]));
        lemma_enter_group_settles(run, run.group + 1);
    }
}

/// Outside test mode, a step of a run that has given up no file keeps
/// everything before the position recorded.
pub proof fn lemma_step_settles(run: RunModel, event: Event)
    requires
        run.well_formed(),
        !run.test_mode,
        settled(run),
    ensures
        run.step(event).errors.len() == 0 ==> settled(run.step(event)),
{
    match (run.stage, event) {
        (Stage::Exif, Event::Exif(reading)) => {
            if run.member + 1 >= run.members().len() {
                let found = run.found.push(moment_of_option(reading));
                lemma_enter_member_settles(RunModel { found, ..run }, 0);
            }
        },
        (Stage::Modified, Event::Modified(modified)) => {},
        (Stage::Probe, Event::Exists(exists)) => {},
        (Stage::Transfer, Event::Transferred) => {
            let entry = normalized(run.current().path);
            let next = RunModel {
                ledger: run.ledger.push(entry),
                transfers: run.transfers.push(
                    TransferModel {
                        source: run.current().path,
                        target: run.candidate(),
                    },
                ),
                ..run
            };
            assert forall|g: int| 0 <= g < next.group implies group_recorded(
                next.ledger,
                #[trigger] next.groups[g],
            ) by {
                lemma_recorded_stays(run.ledger, entry, run.groups[g]);
            }
            assert forall|m: int| 0 <= m < run.member + 1 implies !needs_work(
                next.ledger,
                #[trigger] next.members()[m],
            ) by {
                lemma_push_keeps_entries(run.ledger, entry, normalized(run.members()[m].path));
            }
            lemma_enter_member_settles(next, run.member + 1);
        },
        _ => {},
    }
}

/// A run outside test mode that is over and has given up no file has
/// recorded every file of a supported category.
pub proof fn lemma_clean_run_records_all(
    config: ConfigModel,
    groups: Seq<GroupModel>,
    ledger: Seq<Seq<char>>,
    events: Seq<Event>,
)
    requires
        ledger.no_duplicates(),
    ensures
        ({
            let end = run_after(RunModel::start(config, false, groups, ledger), events);
            end.stage == Stage::Done && end.errors.len() == 0 ==> all_recorded(groups, end.ledger)
        }),
{
    let begin = RunModel::start(config, false, groups, ledger);
    lemma_start_well_formed(config, false, groups, ledger);
    lemma_run_settles(begin, events);
    let end = run_after(begin, events);
    lemma_run_keeps_inputs(begin, events);
    if end.stage == Stage::Done && end.errors.len() == 0 {
        assert forall|g: int| 0 <= g < groups.len() implies group_recorded(
            end.ledger,
            #[trigger] groups[g],
        ) by {
            assert(group_recorded(end.ledger, end.groups[g]));
        }
    }
}

proof fn lemma_run_keeps_inputs(run: RunModel, events: Seq<Event>)
    requires
        run.well_formed(),
    ensures
        run_after(run, events).well_formed(),
        run_after(run, events).config == run.config,
        run_after(run, events).test_mode == run.test_mode,
        run_after(run, events).groups == run.groups,
        run_after(run, events).errors.len() >= run.errors.len(),
    decreases events.len(),
{
    if events.len() > 0 {
        lemma_run_keeps_inputs(run, events.drop_last());
        lemma_step_well_formed(run_after(run, events.drop_last()), events.last());
        lemma_step_keeps_inputs(run_after(run, events.drop_last()), events.last());
    }
}

proof fn lemma_run_settles(run: RunModel, events: Seq<Event>)
    requires
        run == RunModel::start(run.config, false, run.groups, run.ledger),
        run.ledger.no_duplicates(),
    ensures
        run_after(run, events).errors.len() == 0 ==> settled(run_after(run, events)),
    decreases events.len(),
{
    lemma_start_well_formed(run.config, false, run.groups, run.ledger);
    lemma_first_open_group(run.groups, run.ledger, 0);
    if events.len() == 0 {
        lemma_enter_group_settles(run, 0);
        assert(run.enter_group(0) == run);
    } else {
        let before = run_after(run, events.drop_last());
        lemma_run_settles(run, events.drop_last());
        lemma_run_keeps_inputs(run, events.drop_last());
        lemma_step_keeps_inputs(before, events.last());
        if before.step(events.last()).errors.len() == 0 {
            lemma_step_settles(before, events.last());
        }
    }
}

/// Where no file is still to be copied, a step of an idle run leaves it
/// idle, and changes neither the ledger nor the lists of copies and of files
/// given up.
pub proof fn lemma_idle_step(run: RunModel, event: Event)
    requires
        run.well_formed(),
        all_recorded(run.groups, run.ledger),
        is_idle(run),
    ensures
        is_idle(run.step(event)),
        run.step(event).ledger == run.ledger,
        run.step(event).transfers == run.transfers,
        run.step(event).errors == run.errors,
{
    match (run.stage, event) {
        (Stage::Exif, Event::Exif(reading)) => {
            if run.member + 1 >= run.members().len() {
                lemma_first_open_member(run.members(), run.ledger, 0);
                assert(group_recorded(run.ledger, run.groups[run.group]));
            }
        },
        _ => {},
    }
}

/// A run that starts where no file is still to be copied copies nothing,
/// records nothing and gives up nothing, whatever the answers are.
pub proof fn lemma_recorded_run_is_idle(
    config: ConfigModel,
    test_mode: bool,
    groups: Seq<GroupModel>,
    ledger: Seq<Seq<char>>,
    events: Seq<Event>,
)
    requires
        ledger.no_duplicates(),
        all_recorded(groups, ledger),
    ensures
        ({
            let end = run_after(RunModel::start(config, test_mode, groups, ledger), events);
            &&& is_idle(end)
            &&& end.ledger == ledger
            &&& end.transfers.len() == 0
            &&& end.errors.len() == 0
        }),
    decreases events.len(),
{
    let begin = RunModel::start(config, test_mode, groups, ledger);
    lemma_start_well_formed(config, test_mode, groups, ledger);
    if events.len() > 0 {
        lemma_recorded_run_is_idle(config, test_mode, groups, ledger, events.drop_last());
        let before = run_after(begin, events.drop_last());
        lemma_run_keeps_inputs(begin, events.drop_last());
        lemma_idle_step(before, events.last());
    }
}

/// Running twice copies each file once: after a run outside test mode that
/// gave up no file, a second run over the same groups, begun on the ledger
/// that the first one left, copies nothing and records nothing, whatever the
/// answers are.
pub proof fn lemma_second_run_is_idle(
    config: ConfigModel,
    groups: Seq<GroupModel>,
    ledger: Seq<Seq<char>>,
    first: Seq<Event>,
    test_mode: bool,
    second: Seq<Event>,
)
    requires
        ledger.no_duplicates(),
        run_after(RunModel::start(config, false, groups, ledger), first).stage == Stage::Done,
        run_after(RunModel::start(config, false, groups, ledger), first).errors.len() == 0,
    ensures
        ({
            let left = run_after(RunModel::start(config, false, groups, ledger), first).ledger;
            let end = run_after(RunModel::start(config, test_mode, groups, left), second);
            &&& end.ledger == left
            &&& end.transfers.len() == 0
            &&& end.errors.len() == 0
        }),
{
    let begin = RunModel::start(config, false, groups, ledger);
    lemma_start_well_formed(config, false, groups, ledger);
    lemma_clean_run_records_all(config, groups, ledger, first);
    lemma_run_keeps_inputs(begin, first);
    let left = run_after(begin, first).ledger;
    lemma_recorded_run_is_idle(config, test_mode, groups, left, second);
}

} // verus!
