//! The rename run, as a machine that decides and never touches a file.
//!
//! The run goes through the groups one by one. Whatever needs the file
//! system is asked of the caller as an `Action`; the caller carries it out and
//! hands the answer back as an `Event`. Between two actions the run takes
//! every decision itself: which groups and members are skipped, which
//! timestamp a member gets, which name is tried next, and what is recorded.

use vstd::prelude::*;
use crate::config::{ConfigModel, RenamerConfig};
use crate::grouping::{groups_view, GroupModel, StemGroup};
use crate::ledger::{normalized, Ledger};
use crate::media::{category_of, file_in_scope, files_view, Category, FileModel};
use crate::naming::{candidate_for, candidate_path, MAX_ATTEMPTS};
use crate::resolve::{moments_view, own_stamp, resolve_member};
use crate::text::{chars_of, decimal, push_decimal, push_str_chars, string_of, strings_view};
use crate::timestamp::{compact_text, moment_of_option, Moment, Timestamp};

verus! {

/// What the run is waiting for.
#[derive(Clone, Copy, Debug, PartialEq, Eq, Structural)]
pub enum Stage {
    /// The EXIF reading of the current member, while the readings of the
    /// current group are gathered.
    Exif,
    /// The time at which the current member was modified: nothing else gave
    /// it a timestamp.
    Modified,
    /// Whether the name proposed for the current member is taken.
    Probe,
    /// The copy of the current member, or in test mode its announcement.
    Transfer,
    /// Nothing: every group was gone through.
    Done,
}

/// The answer to an action.
#[derive(Clone, Copy, Debug)]
pub enum Event {
    /// The timestamp in the EXIF data of the file, if it holds one.
    Exif(Option<Timestamp>),
    /// The time at which the file was modified, if it can be had.
    Modified(Option<Timestamp>),
    /// Whether the path exists.
    Exists(bool),
    /// The copy was made and recorded, or in test mode announced.
    Transferred,
}

/// What the caller is to do next.
#[derive(Debug, PartialEq, Eq)]
pub enum Action {
    /// Read the EXIF timestamp of the file; answer with `Event::Exif`.
    ReadExif { path: String },
    /// Read when the file was modified; answer with `Event::Modified`.
    ReadModified { path: String },
    /// Tell whether the path exists; answer with `Event::Exists`.
    Probe { path: String },
    /// Copy `source` to `target`, creating the directory of `target` where
    /// it is missing, and record `source`; answer with `Event::Transferred`.
    Copy { source: String, target: String },
    /// Say that `source` would be copied to `target`, and change nothing;
    /// answer with `Event::Transferred`.
    Announce { source: String, target: String },
    /// The run is over.
    Finish,
}

/// What an `Action` stands for.
pub enum ActionModel {
    ReadExif { path: Seq<char> },
    ReadModified { path: Seq<char> },
    Probe { path: Seq<char> },
    Copy { source: Seq<char>, target: Seq<char> },
    Announce { source: Seq<char>, target: Seq<char> },
    Finish,
}

impl View for Action {
    type V = ActionModel;

    open spec fn view(&self) -> ActionModel {
        match self {
            Action::ReadExif { path } => ActionModel::ReadExif { path: path@ },
            Action::ReadModified { path } => ActionModel::ReadModified { path: path@ },
            Action::Probe { path } => ActionModel::Probe { path: path@ },
            Action::Copy { source, target } => ActionModel::Copy {
                source: source@,
                target: target@,
            },
            Action::Announce { source, target } => ActionModel::Announce {
                source: source@,
                target: target@,
            },
            Action::Finish => ActionModel::Finish,
        }
    }
}

/// A copy that was made, or in test mode announced.
#[derive(Debug, PartialEq, Eq)]
pub struct Transfer {
    pub source: String,
    pub target: String,
}

/// What a `Transfer` stands for.
pub struct TransferModel {
    pub source: Seq<char>,
    pub target: Seq<char>,
}

impl View for Transfer {
    type V = TransferModel;

    open spec fn view(&self) -> TransferModel {
        TransferModel { source: self.source@, target: self.target@ }
    }
}

/// What a list of transfers stands for.
pub open spec fn transfers_view(transfers: Seq<Transfer>) -> Seq<TransferModel> {
    transfers.map_values(|t: Transfer| t@)
}

/// The line of the report for a file that no source gave a timestamp.
pub open spec fn unresolved_message(path: Seq<char>) -> Seq<char> {
    "Unable to determine valid datetime for "@ + path
}

/// The line of the report for a file for which every name tried was taken.
pub open spec fn exhausted_message(path: Seq<char>) -> Seq<char> {
    "No free output name for "@ + path
}

/// A file is still to be copied when its category is supported and its path
/// is not recorded.
pub open spec fn needs_work(ledger: Seq<Seq<char>>, file: FileModel) -> bool {
    category_of(file.name) != Category::Unsupported && !ledger.contains(normalized(file.path))
}

/// Every member of the group is recorded.
pub open spec fn group_done(ledger: Seq<Seq<char>>, group: GroupModel) -> bool {
    forall|i: int|
        0 <= i < group.members.len() ==> ledger.contains(
            normalized((#[trigger] group.members[i]).path),
        )
}

/// The first group from `from` on that is not done, or the number of groups
/// where all of them are.
pub open spec fn first_open_group(groups: Seq<GroupModel>, ledger: Seq<Seq<char>>, from: int) -> int
    decreases groups.len() - from,
{
    if from < 0 || from >= groups.len() {
        groups.len() as int
    } else if !group_done(ledger, groups[from]) {
        from
    } else {
        first_open_group(groups, ledger, from + 1)
    }
}

/// The first member from `from` on that is still to be copied, or the number
/// of members where none is.
pub open spec fn first_open_member(members: Seq<FileModel>, ledger: Seq<Seq<char>>, from: int) -> int
    decreases members.len() - from,
{
    if from < 0 || from >= members.len() {
        members.len() as int
    } else if needs_work(ledger, members[from]) {
        from
    } else {
        first_open_member(members, ledger, from + 1)
    }
}

/// What a `Run` stands for.
pub struct RunModel {
    pub config: ConfigModel,
    pub test_mode: bool,
    pub groups: Seq<GroupModel>,
    pub ledger: Seq<Seq<char>>,
    /// The current group.
    pub group: int,
    /// The current member of the current group.
    pub member: int,
    pub stage: Stage,
    /// The EXIF readings of the current group, as far as they were made.
    pub found: Seq<Option<Moment>>,
    /// The timestamp of the current member, once it is known.
    pub stamp: Option<Moment>,
    /// The number of names of the current member that were found taken.
    pub counter: int,
    /// The report: one line for each file that was given up.
    pub errors: Seq<Seq<char>>,
    /// The copies made, or in test mode announced.
    pub transfers: Seq<TransferModel>,
}

impl RunModel {
    /// The members of the current group.
    pub open spec fn members(self) -> Seq<FileModel> {
        self.groups[self.group].members
    }

    /// The current member.
    pub open spec fn current(self) -> FileModel {
        self.groups[self.group].members[self.member]
    }

    /// The name proposed for the current member.
    pub open spec fn candidate(self) -> Seq<char> {
        candidate_for(self.config, self.current(), self.stamp->0, self.counter as nat)
    }

    /// The state of a run that has gone through every group.
    pub open spec fn finished(self) -> RunModel {
        RunModel {
            group: self.groups.len() as int,
            member: 0,
            stage: Stage::Done,
            found: Seq::empty(),
            stamp: None,
            counter: 0,
            ..self
        }
    }

    /// Moves on to the first group from `from` on that is not done, and
    /// begins to gather its EXIF readings.
    pub open spec fn enter_group(self, from: int) -> RunModel {
        let g = first_open_group(self.groups, self.ledger, from);
        if g >= self.groups.len() {
            self.finished()
        } else {
            RunModel {
                group: g,
                member: 0,
                stage: Stage::Exif,
                found: Seq::empty(),
                stamp: None,
                counter: 0,
                ..self
            }
        }
    }

    /// Moves on to the first member from `from` on that is still to be
    /// copied, and to the next group where there is none. A member whose
    /// timestamp is known has its first name proposed; for any other the
    /// time of its modification is asked.
    pub open spec fn enter_member(self, from: int) -> RunModel {
        let m = first_open_member(self.members(), self.ledger, from);
        if m >= self.members().len() {
            self.enter_group(self.group + 1)
        } else {
            match own_stamp(self.found, m, self.members()[m]) {
                Some(t) => RunModel {
                    member: m,
                    stage: Stage::Probe,
                    stamp: Some(t),
                    counter: 0,
                    ..self
                },
                None => RunModel {
                    member: m,
                    stage: Stage::Modified,
                    stamp: None,
                    counter: 0,
                    ..self
                },
            }
        }
    }

    /// The state in which a run begins.
    pub open spec fn start(
        config: ConfigModel,
        test_mode: bool,
        groups: Seq<GroupModel>,
        ledger: Seq<Seq<char>>,
    ) -> RunModel {
        RunModel {
            config,
            test_mode,
            groups,
            ledger,
            group: 0,
            member: 0,
            stage: Stage::Done,
            found: Seq::empty(),
            stamp: None,
            counter: 0,
            errors: Seq::empty(),
            transfers: Seq::empty(),
        }.enter_group(0)
    }

    /// The state after the EXIF reading `reading` of the current member.
    pub open spec fn after_exif(self, reading: Option<Moment>) -> RunModel {
        let found = self.found.push(reading);
        if self.member + 1 < self.members().len() {
            RunModel { member: self.member + 1, found, ..self }
        } else {
            RunModel { found, ..self }.enter_member(0)
        }
    }

    /// The state after the answer `modified` to when the current member was
    /// modified: with a time its first name is proposed, without one the
    /// file is given up and reported.
    pub open spec fn after_modified(self, modified: Option<Moment>) -> RunModel {
        match modified {
            Some(t) => RunModel { stage: Stage::Probe, stamp: Some(t), counter: 0, ..self },
            None => RunModel {
                errors: self.errors.push(unresolved_message(self.current().path)),
                ..self
            }.enter_member(self.member + 1),
        }
    }

    /// The state after the answer `exists` to whether the proposed name is
    /// taken: a free name is settled on; after a taken one the next is
    /// proposed, and after the last the file is given up and reported.
    pub open spec fn after_probe(self, exists: bool) -> RunModel {
        if !exists {
            RunModel { stage: Stage::Transfer, ..self }
        } else if self.counter + 1 < MAX_ATTEMPTS {
            RunModel { counter: self.counter + 1, ..self }
        } else {
            RunModel {
                errors: self.errors.push(exhausted_message(self.current().path)),
                ..self
            }.enter_member(self.member + 1)
        }
    }

    /// The state after the copy of the current member: the copy is listed,
    /// and outside test mode the source is recorded.
    pub open spec fn after_transfer(self) -> RunModel {
        RunModel {
            ledger: if self.test_mode {
                self.ledger
            } else {
                self.ledger.push(normalized(self.current().path))
            },
            transfers: self.transfers.push(
                TransferModel { source: self.current().path, target: self.candidate() },
            ),
            ..self
        }.enter_member(self.member + 1)
    }

    /// The state after `event`. An event that does not answer the pending
    /// action changes nothing.
    pub open spec fn step(self, event: Event) -> RunModel {
        match (self.stage, event) {
            (Stage::Exif, Event::Exif(reading)) => self.after_exif(moment_of_option(reading)),
            (Stage::Modified, Event::Modified(modified)) => self.after_modified(
                moment_of_option(modified),
            ),
            (Stage::Probe, Event::Exists(exists)) => self.after_probe(exists),
            (Stage::Transfer, Event::Transferred) => self.after_transfer(),
            _ => self,
        }
    }

    /// The action that the run is waiting for.
    pub open spec fn pending(self) -> ActionModel {
        match self.stage {
            Stage::Exif => ActionModel::ReadExif { path: self.current().path },
            Stage::Modified => ActionModel::ReadModified { path: self.current().path },
            Stage::Probe => ActionModel::Probe { path: self.candidate() },
            Stage::Transfer => if self.test_mode {
                ActionModel::Announce { source: self.current().path, target: self.candidate() }
            } else {
                ActionModel::Copy { source: self.current().path, target: self.candidate() }
            },
            Stage::Done => ActionModel::Finish,
        }
    }

    /// The position is one that the run can be in: no path is recorded
    /// twice; while readings are gathered there is one for each member before
    /// the current one; later there is one for each member, and the current
    /// member is still to be copied; while names are tried the timestamp is
    /// known and the counter below its bound.
    pub open spec fn well_formed(self) -> bool {
        &&& self.ledger.no_duplicates()
        &&& match self.stage {
            Stage::Done => {
                &&& self.group == self.groups.len()
                &&& self.member == 0
                &&& self.found.len() == 0
                &&& self.stamp is None
                &&& self.counter == 0
            },
            Stage::Exif => {
                &&& 0 <= self.group < self.groups.len()
                &&& 0 <= self.member < self.members().len()
                &&& self.found.len() == self.member
                &&& self.stamp is None
                &&& self.counter == 0
            },
            Stage::Modified => {
                &&& 0 <= self.group < self.groups.len()
                &&& 0 <= self.member < self.members().len()
                &&& self.found.len() == self.members().len()
                &&& needs_work(self.ledger, self.current())
                &&& self.stamp is None
                &&& self.counter == 0
            },
            Stage::Probe | Stage::Transfer => {
                &&& 0 <= self.group < self.groups.len()
                &&& 0 <= self.member < self.members().len()
                &&& self.found.len() == self.members().len()
                &&& needs_work(self.ledger, self.current())
                &&& self.stamp is Some
                &&& 0 <= self.counter < MAX_ATTEMPTS
            },
        }
    }
}

/// `first_open_group` passes only groups that are done, and stops at one
/// that is not.
pub proof fn lemma_first_open_group(groups: Seq<GroupModel>, ledger: Seq<Seq<char>>, from: int)
    requires
        0 <= from <= groups.len(),
    ensures
        from <= first_open_group(groups, ledger, from) <= groups.len(),
        first_open_group(groups, ledger, from) < groups.len() ==> !group_done(
            ledger,
            groups[first_open_group(groups, ledger, from)],
        ),
        forall|g: int|
            from <= g < first_open_group(groups, ledger, from) ==> group_done(
                ledger,
                #[trigger] groups[g],
            ),
    decreases groups.len() - from,
{
    if from < groups.len() && group_done(ledger, groups[from]) {
        lemma_first_open_group(groups, ledger, from + 1);
    }
}

/// `first_open_member` passes only members that need no work, and stops at
/// one that does.
pub proof fn lemma_first_open_member(members: Seq<FileModel>, ledger: Seq<Seq<char>>, from: int)
    requires
        0 <= from <= members.len(),
    ensures
        from <= first_open_member(members, ledger, from) <= members.len(),
        first_open_member(members, ledger, from) < members.len() ==> needs_work(
            ledger,
            members[first_open_member(members, ledger, from)],
        ),
        forall|m: int|
            from <= m < first_open_member(members, ledger, from) ==> !needs_work(
                ledger,
                #[trigger] members[m],
            ),
    decreases members.len() - from,
{
    if from < members.len() && !needs_work(ledger, members[from]) {
        lemma_first_open_member(members, ledger, from + 1);
    }
}

/// Entering a group leads to a position that the run can be in.
pub proof fn lemma_enter_group_well_formed(run: RunModel, from: int)
    requires
        run.ledger.no_duplicates(),
        0 <= from <= run.groups.len(),
    ensures
        run.enter_group(from).well_formed(),
{
    lemma_first_open_group(run.groups, run.ledger, from);
}

/// A run begins in a position that it can be in.
pub proof fn lemma_start_well_formed(
    config: ConfigModel,
    test_mode: bool,
    groups: Seq<GroupModel>,
    ledger: Seq<Seq<char>>,
)
    requires
        ledger.no_duplicates(),
    ensures
        RunModel::start(config, test_mode, groups, ledger).well_formed(),
{
    lemma_first_open_group(groups, ledger, 0);
}

/// Entering a member leads to a position that the run can be in.
pub proof fn lemma_enter_member_well_formed(run: RunModel, from: int)
    requires
        run.ledger.no_duplicates(),
        0 <= run.group < run.groups.len(),
        run.found.len() == run.members().len(),
        0 <= from <= run.members().len(),
    ensures
        run.enter_member(from).well_formed(),
{
    lemma_first_open_member(run.members(), run.ledger, from);
    lemma_enter_group_well_formed(run, run.group + 1);
}

/// Every step leads from a position that the run can be in to another.
pub proof fn lemma_step_well_formed(run: RunModel, event: Event)
    requires
        run.well_formed(),
    ensures
        run.step(event).well_formed(),
{
    match (run.stage, event) {
        (Stage::Exif, Event::Exif(reading)) => {
            let found = run.found.push(moment_of_option(reading));
            if run.member + 1 >= run.members().len() {
                lemma_enter_member_well_formed(RunModel { found, ..run }, 0);
            }
        },
        (Stage::Modified, Event::Modified(modified)) => {
            if modified is None {
                lemma_enter_member_well_formed(
                    RunModel {
                        errors: run.errors.push(unresolved_message(run.current().path)),
                        ..run
                    },
                    run.member + 1,
                );
            }
        },
        (Stage::Probe, Event::Exists(exists)) => {
            if exists && run.counter + 1 >= MAX_ATTEMPTS {
                lemma_enter_member_well_formed(
                    RunModel {
                        errors: run.errors.push(exhausted_message(run.current().path)),
                        ..run
                    },
                    run.member + 1,
                );
            }
        },
        (Stage::Transfer, Event::Transferred) => {
            let ledger = if run.test_mode {
                run.ledger
            } else {
                run.ledger.push(normalized(run.current().path))
            };
            lemma_enter_member_well_formed(
                RunModel {
                    ledger,
                    transfers: run.transfers.push(
                        TransferModel { source: run.current().path, target: run.candidate() },
                    ),
                    ..run
                },
                run.member + 1,
            );
        },
        _ => {},
    }
}

/// A name that is taken is passed over, and a free one is the one written
/// to: after the answer that the proposed name is free, the copy that is
/// asked for (in test mode, announced) goes to that very name; after the
/// answer that it is taken, no copy follows, and while attempts are left the
/// next name of the same file is proposed.
pub proof fn lemma_taken_name_is_passed(run: RunModel)
    requires
        run.well_formed(),
        run.stage == Stage::Probe,
    ensures
        run.test_mode ==> run.step(Event::Exists(false)).pending() == (ActionModel::Announce {
            source: run.current().path,
            target: run.candidate(),
        }),
        !run.test_mode ==> run.step(Event::Exists(false)).pending() == (ActionModel::Copy {
            source: run.current().path,
            target: run.candidate(),
        }),
        !(run.step(Event::Exists(true)).pending() is Copy),
        !(run.step(Event::Exists(true)).pending() is Announce),
        run.counter + 1 < MAX_ATTEMPTS ==> run.step(Event::Exists(true)).pending()
            == (ActionModel::Probe {
            path: candidate_for(
                run.config,
                run.current(),
                run.stamp->0,
                (run.counter + 1) as nat,
            ),
        }),
{
    if run.counter + 1 >= MAX_ATTEMPTS {
        lemma_enter_member_well_formed(
            RunModel { errors: run.errors.push(exhausted_message(run.current().path)), ..run },
            run.member + 1,
        );
    }
}

/// The lines of a report, each but the last followed by a line feed.
pub open spec fn joined_lines(lines: Seq<Seq<char>>) -> Seq<char>
    decreases lines.len(),
{
    if lines.len() == 0 {
        Seq::empty()
    } else if lines.len() == 1 {
        lines[0]
    } else {
        joined_lines(lines.drop_last()) + seq!['\n'] + lines.last()
    }
}

/// The message of a run that gave up `count` files.
pub open spec fn failure_text(count: nat) -> Seq<char> {
    decimal(count) + " errors found when renaming files"@
}

/// The name of the report of a run that ended at `now`.
pub open spec fn report_name(now: Moment) -> Seq<char> {
    compact_text(now) + "_errors.log"@
}

/// How a run that gave up files ended.
#[derive(Debug, PartialEq, Eq)]
pub struct Failure {
    /// The report: one line for each file that was given up.
    pub report: String,
    /// The message of the failure.
    pub message: String,
}

/// A rename run.
#[derive(Debug)]
pub struct Run {
    config: RenamerConfig,
    test_mode: bool,
    groups: Vec<StemGroup>,
    ledger: Ledger,
    group: usize,
    member: usize,
    stage: Stage,
    found: Vec<Option<Timestamp>>,
    stamp: Option<Timestamp>,
    counter: usize,
    errors: Vec<String>,
    transfers: Vec<Transfer>,
}

impl View for Run {
    type V = RunModel;

    closed spec fn view(&self) -> RunModel {
        RunModel {
            config: self.config@,
            test_mode: self.test_mode,
            groups: groups_view(self.groups@),
            ledger: self.ledger@,
            group: self.group as int,
            member: self.member as int,
            stage: self.stage,
            found: moments_view(self.found@),
            stamp: moment_of_option(self.stamp),
            counter: self.counter as int,
            errors: strings_view(self.errors@),
            transfers: transfers_view(self.transfers@),
        }
    }
}

/// `head` followed by `tail`.
fn concat(head: &str, tail: &str) -> (r: String)
    ensures
        r@ == head@ + tail@,
{
    let mut out = chars_of(head);
    push_str_chars(&mut out, tail);
    string_of(&out)
}

/// The name of the report of a run that ended at `now`.
pub fn error_report_name(now: &Timestamp) -> (r: String)
    ensures
        r@ == report_name(now@),
{
    let stamp = now.compact();
    concat(stamp.as_str(), "_errors.log")
}

/// The lines of a report as one text.
pub fn error_report(errors: &Vec<String>) -> (r: String)
    ensures
        r@ == joined_lines(strings_view(errors@)),
{
    let ghost lines = strings_view(errors@);
    let mut out: Vec<char> = Vec::new();
    let mut i: usize = 0;
    while i < errors.len()
        invariant
            i <= errors.len(),
            lines == strings_view(errors@),
            out@ == joined_lines(lines.take(i as int)),
        decreases errors.len() - i,
    {
        if i > 0 {
            out.push('\n');
        }
        push_str_chars(&mut out, errors[i].as_str());
        i += 1;
        proof {
            assert(lines.take(i as int).drop_last() =~= lines.take(i - 1));
            assert(lines.take(i as int).last() == errors@[i - 1]@);
            assert(out@ =~= joined_lines(lines.take(i as int)));
        }
    }
    proof {
        assert(lines.take(errors@.len() as int) =~= lines);
    }
    string_of(&out)
}

impl Run {
    /// The position is one that the run can be in.
    pub open spec fn wf(&self) -> bool {
        self@.well_formed()
    }

    /// A run over `groups` that records in `ledger`. In test mode nothing is
    /// copied and nothing recorded.
    pub fn new(config: RenamerConfig, groups: Vec<StemGroup>, ledger: Ledger, test_mode: bool) -> (run:
        Run)
        requires
            ledger.wf(),
        ensures
            run.wf(),
            run@ == RunModel::start(config@, test_mode, groups_view(groups@), ledger@),
    {
        let mut run = Run {
            config,
            test_mode,
            groups,
            ledger,
            group: 0,
            member: 0,
            stage: Stage::Done,
            found: Vec::new(),
            stamp: None,
            counter: 0,
            errors: Vec::new(),
            transfers: Vec::new(),
        };
        proof {
            assert(run@.found =~= Seq::empty());
            assert(run@.errors =~= Seq::empty());
            assert(run@.transfers =~= Seq::empty());
            lemma_enter_group_well_formed(run@, 0);
        }
        run.enter_group(0);
        run
    }

    /// The members of the current group are what its files stand for.
    proof fn lemma_members(&self)
        requires
            self.group < self.groups.len(),
        ensures
            self@.members() == files_view(self.groups@[self.group as int].members@),
            self@.members().len() == self.groups@[self.group as int].members@.len(),
            self@.groups.len() == self.groups@.len(),
    {
        assert(self@.groups[self.group as int] == self.groups@[self.group as int]@);
    }

    /// Whether every member of group `g` is recorded.
    fn group_is_done(&self, g: usize) -> (b: bool)
        requires
            g < self.groups.len(),
        ensures
            b == group_done(self@.ledger, self@.groups[g as int]),
    {
        let members = &self.groups[g].members;
        let ghost model = self@.groups[g as int].members;
        proof {
            assert(self@.groups[g as int] == self.groups@[g as int]@);
        }
        let mut i: usize = 0;
        while i < members.len()
            invariant
                i <= members.len(),
                g < self.groups.len(),
                model == files_view(members@),
                model == self@.groups[g as int].members,
                forall|j: int|
                    0 <= j < i ==> self.ledger@.contains(normalized((#[trigger] model[j]).path)),
            decreases members.len() - i,
        {
            proof {
                assert(model[i as int].path == members@[i as int].path@);
            }
            if !self.ledger.is_processed(members[i].path.as_str()) {
                return false;
            }
            i += 1;
        }
        true
    }

    /// The first group from `from` on that is not done.
    fn find_open_group(&self, from: usize) -> (g: usize)
        requires
            from <= self.groups.len(),
        ensures
            g == first_open_group(self@.groups, self@.ledger, from as int),
            from <= g <= self.groups.len(),
    {
        let mut g = from;
        while g < self.groups.len()
            invariant
                from <= g <= self.groups.len(),
                first_open_group(self@.groups, self@.ledger, from as int) == first_open_group(
                    self@.groups,
                    self@.ledger,
                    g as int,
                ),
            decreases self.groups.len() - g,
        {
            if !self.group_is_done(g) {
                return g;
            }
            g += 1;
        }
        g
    }

    /// The first member of the current group from `from` on that is still to
    /// be copied.
    fn find_open_member(&self, from: usize) -> (m: usize)
        requires
            self.group < self.groups.len(),
            from <= self.groups[self.group as int].members.len(),
        ensures
            m == first_open_member(self@.members(), self@.ledger, from as int),
            from <= m <= self.groups[self.group as int].members.len(),
    {
        let members = &self.groups[self.group].members;
        let ghost model = self@.members();
        proof {
            self.lemma_members();
        }
        let mut m = from;
        while m < members.len()
            invariant
                from <= m <= members.len(),
                self.group < self.groups.len(),
                members@ == self.groups@[self.group as int].members@,
                model == self@.members(),
                model == files_view(members@),
                first_open_member(model, self@.ledger, from as int) == first_open_member(
                    model,
                    self@.ledger,
                    m as int,
                ),
            decreases members.len() - m,
        {
            proof {
                assert(model[m as int] == members@[m as int]@);
            }
            if file_in_scope(&members[m]) && !self.ledger.is_processed(members[m].path.as_str()) {
                return m;
            }
            m += 1;
        }
        m
    }

    fn enter_group(&mut self, from: usize)
        requires
            from <= old(self).groups.len(),
        ensures
            final(self)@ == old(self)@.enter_group(from as int),
    {
        let g = self.find_open_group(from);
        self.group = g;
        self.member = 0;
        self.found = Vec::new();
        self.stamp = None;
        self.counter = 0;
        if g >= self.groups.len() {
            self.stage = Stage::Done;
        } else {
            self.stage = Stage::Exif;
        }
        proof {
            assert(self@.found =~= Seq::empty());
        }
    }

    fn enter_member(&mut self, from: usize)
        requires
            old(self).group < old(self).groups.len(),
            from <= old(self).groups[old(self).group as int].members.len(),
            old(self).found.len() == old(self).groups[old(self).group as int].members.len(),
        ensures
            final(self)@ == old(self)@.enter_member(from as int),
    {
        proof {
            self.lemma_members();
        }
        let m = self.find_open_member(from);
        if m >= self.groups[self.group].members.len() {
            self.enter_group(self.group + 1);
        } else {
            proof {
                assert(self@.members()[m as int] == self.groups@[self.group as int].members@[m as int]@);
            }
            let stamp = resolve_member(&self.found, m, &self.groups[self.group].members[m]);
            self.member = m;
            self.counter = 0;
            self.stamp = stamp;
            match stamp {
                Some(_) => {
                    self.stage = Stage::Probe;
                },
                None => {
                    self.stage = Stage::Modified;
                },
            }
        }
    }

    /// The path of the current member.
    fn current_path(&self) -> (r: String)
        requires
            self.group < self.groups.len(),
            self.member < self.groups[self.group as int].members.len(),
        ensures
            r@ == self@.current().path,
    {
        proof {
            assert(self@.current() == self.groups@[self.group as int].members@[self.member as int]@);
        }
        self.groups[self.group].members[self.member].path.clone()
    }

    /// The name proposed for the current member.
    fn current_candidate(&self) -> (r: String)
        requires
            self.group < self.groups.len(),
            self.member < self.groups[self.group as int].members.len(),
            self.stamp is Some,
        ensures
            r@ == self@.candidate(),
    {
        proof {
            assert(self@.current() == self.groups@[self.group as int].members@[self.member as int]@);
        }
        let stamp = self.stamp.unwrap();
        candidate_path(
            &self.config,
            &self.groups[self.group].members[self.member],
            &stamp,
            self.counter,
        )
    }

    /// The action that the run is waiting for.
    pub fn action(&self) -> (a: Action)
        requires
            self.wf(),
        ensures
            a@ == self@.pending(),
    {
        proof {
            if self.stage != Stage::Done {
                self.lemma_members();
            }
        }
        match self.stage {
            Stage::Exif => Action::ReadExif { path: self.current_path() },
            Stage::Modified => Action::ReadModified { path: self.current_path() },
            Stage::Probe => Action::Probe { path: self.current_candidate() },
            Stage::Transfer => {
                let source = self.current_path();
                let target = self.current_candidate();
                if self.test_mode {
                    Action::Announce { source, target }
                } else {
                    Action::Copy { source, target }
                }
            },
            Stage::Done => Action::Finish,
        }
    }

    /// Takes the answer to the pending action and moves on to the next
    /// action. An event that does not answer the pending action is ignored.
    pub fn advance(&mut self, event: Event)
        requires
            old(self).wf(),
        ensures
            final(self).wf(),
            final(self)@ == old(self)@.step(event),
    {
        proof {
            lemma_step_well_formed(self@, event);
            if self.stage != Stage::Done {
                self.lemma_members();
                assert(self.member < self.groups[self.group as int].members.len());
            }
        }
        match (self.stage, event) {
            (Stage::Exif, Event::Exif(reading)) => {
                self.found.push(reading);
                proof {
                    assert(self@.found =~= old(self)@.found.push(moment_of_option(reading)));
                }
                if self.member + 1 < self.groups[self.group].members.len() {
                    self.member = self.member + 1;
                } else {
                    self.enter_member(0);
                }
            },
            (Stage::Modified, Event::Modified(modified)) => {
                match modified {
                    Some(t) => {
                        self.stamp = Some(t);
                        self.counter = 0;
                        self.stage = Stage::Probe;
                    },
                    None => {
                        let path = self.current_path();
                        let line = concat("Unable to determine valid datetime for ", path.as_str());
                        self.errors.push(line);
                        proof {
                            assert(self@.errors =~= old(self)@.errors.push(
                                unresolved_message(old(self)@.current().path),
                            ));
                        }
                        self.enter_member(self.member + 1);
                    },
                }
            },
            (Stage::Probe, Event::Exists(exists)) => {
                if !exists {
                    self.stage = Stage::Transfer;
                } else if self.counter + 1 < MAX_ATTEMPTS {
                    self.counter = self.counter + 1;
                } else {
                    let path = self.current_path();
                    let line = concat("No free output name for ", path.as_str());
                    self.errors.push(line);
                    proof {
                        assert(self@.errors =~= old(self)@.errors.push(
                            exhausted_message(old(self)@.current().path),
                        ));
                    }
                    self.enter_member(self.member + 1);
                }
            },
            (Stage::Transfer, Event::Transferred) => {
                let source = self.current_path();
                let target = self.current_candidate();
                if !self.test_mode {
                    let _ = self.ledger.mark_processed(source.as_str());
                }
                self.transfers.push(Transfer { source, target });
                proof {
                    assert(self@.transfers =~= old(self)@.transfers.push(
                        TransferModel {
                            source: old(self)@.current().path,
                            target: old(self)@.candidate(),
                        },
                    ));
                }
                self.enter_member(self.member + 1);
            },
            _ => {},
        }
    }

    /// Whether the run is over.
    pub fn is_finished(&self) -> (b: bool)
        ensures
            b == (self@.stage == Stage::Done),
    {
        self.stage == Stage::Done
    }

    /// The index of the current group and the number of groups.
    pub fn progress(&self) -> (r: (usize, usize))
        ensures
            r.0 == self@.group,
            r.1 == self@.groups.len(),
    {
        (self.group, self.groups.len())
    }

    /// Whether the run is in test mode.
    pub fn test_mode(&self) -> (b: bool)
        ensures
            b == self@.test_mode,
    {
        self.test_mode
    }

    /// The ledger as the run has left it so far.
    pub fn ledger(&self) -> (l: &Ledger)
        ensures
            l@ == self@.ledger,
            self.wf() ==> l.wf(),
    {
        &self.ledger
    }

    /// The report so far: one line for each file that was given up.
    pub fn errors(&self) -> (r: &Vec<String>)
        ensures
            strings_view(r@) == self@.errors,
    {
        &self.errors
    }

    /// The copies made so far, or in test mode announced.
    pub fn transfers(&self) -> (r: &Vec<Transfer>)
        ensures
            transfers_view(r@) == self@.transfers,
    {
        &self.transfers
    }

    /// How the run ended: the number of copies, or where files were given up
    /// the report and the message of the failure.
    pub fn conclude(&self) -> (r: Result<usize, Failure>)
        ensures
            match r {
                Ok(n) => self@.errors.len() == 0 && n == self@.transfers.len(),
                Err(f) => {
                    &&& self@.errors.len() > 0
                    &&& f.report@ == joined_lines(self@.errors)
                    &&& f.message@ == failure_text(self@.errors.len())
                },
            },
    {
        if self.errors.len() == 0 {
            Ok(self.transfers.len())
        } else {
            let mut message: Vec<char> = Vec::new();
            push_decimal(&mut message, self.errors.len());
            push_str_chars(&mut message, " errors found when renaming files");
            Err(Failure { report: error_report(&self.errors), message: string_of(&message) })
        }
    }
}

} // verus!
