//! When a cache entry may still be trusted.
//!
//! An entry is valid evidence that the command need not run again only
//! while the entry file exists, every dependency that it lists exists and
//! was last modified no later than the entry file itself, and the result
//! that it names still exists. Whatever is missing, damaged or inconclusive
//! makes the entry invalid.
//!
//! The check has to ask the file system about one path after another, and
//! stops asking at the first answer that settles it. `CacheCheck` is that
//! check as a state machine: the caller hands in what it observed and is
//! told what to look at next. `check_cache` runs the machine to its end
//! against a `FileTable`.

use vstd::prelude::*;
use crate::bytes::{copy_range, find_nul};
use crate::entry::{
    encoding_of, entry_in, first_empty, first_nonempty, lemma_first_empty, lemma_first_nonempty,
    lemma_records_step, lemma_round_trip, records_of, storable, EntryView,
};
use crate::files::{lookup, FileTable, Timestamp};

verus! {

/// An entry file as it was read: its bytes and its own modification time.
#[derive(Clone, Debug, PartialEq, Eq)]
pub struct EntryFile {
    pub contents: Vec<u8>,
    pub modified: Timestamp,
}

/// An entry file, by the view of its bytes.
pub ghost struct EntryFileView {
    pub contents: Seq<u8>,
    pub modified: Timestamp,
}

impl View for EntryFile {
    type V = EntryFileView;

    open spec fn view(&self) -> EntryFileView {
        EntryFileView { contents: self.contents@, modified: self.modified }
    }
}

/// The views of an entry file that may be missing.
pub open spec fn entry_file_view(file: Option<EntryFile>) -> Option<EntryFileView> {
    match file {
        Some(f) => Some(f@),
        None => None,
    }
}

/// `path` exists and was last modified no later than `cache_time`.
pub open spec fn up_to_date(
    files: Map<Seq<u8>, Timestamp>,
    path: Seq<u8>,
    cache_time: Timestamp,
) -> bool {
    files.dom().contains(path) && files[path] <= cache_time
}

/// Every dependency of `entry` is up to date, and its result exists.
pub open spec fn entry_valid(
    entry: EntryView,
    cache_time: Timestamp,
    files: Map<Seq<u8>, Timestamp>,
) -> bool {
    &&& forall|i: int|
        0 <= i < entry.dependencies.len() ==> up_to_date(
            files,
            #[trigger] entry.dependencies[i],
            cache_time,
        )
    &&& files.dom().contains(entry.result)
}

/// The records hold an entry, and it is valid.
pub open spec fn records_valid(
    records: Seq<Seq<u8>>,
    cache_time: Timestamp,
    files: Map<Seq<u8>, Timestamp>,
) -> bool {
    match entry_in(records) {
        Some(entry) => entry_valid(entry, cache_time, files),
        None => false,
    }
}

/// The entry file exists, holds an entry, and that entry is valid with
/// respect to the modification time of the file.
pub open spec fn cache_valid(file: Option<EntryFileView>, files: Map<Seq<u8>, Timestamp>) -> bool {
    match file {
        Some(f) => records_valid(records_of(f.contents), f.modified, files),
        None => false,
    }
}

/// What the caller observed.
#[derive(Clone, Debug, PartialEq, Eq)]
pub enum Event {
    /// The entry file was read, or is missing.
    Entry(Option<EntryFile>),
    /// The modification time of the dependency asked about, or `None` if it
    /// does not exist.
    DependencyStat(Option<Timestamp>),
    /// Whether the result asked about exists.
    ResultExists(bool),
}

/// An event, by the views of what it carries.
pub ghost enum EventView {
    Entry(Option<EntryFileView>),
    DependencyStat(Option<Timestamp>),
    ResultExists(bool),
}

impl View for Event {
    type V = EventView;

    open spec fn view(&self) -> EventView {
        match *self {
            Event::Entry(file) => EventView::Entry(entry_file_view(file)),
            Event::DependencyStat(modified) => EventView::DependencyStat(modified),
            Event::ResultExists(found) => EventView::ResultExists(found),
        }
    }
}

/// What the caller has to do next.
#[derive(Clone, Debug, PartialEq, Eq)]
pub enum Action {
    /// Look up the modification time of this dependency.
    StatDependency(Vec<u8>),
    /// Look whether this result exists.
    ProbeResult(Vec<u8>),
    /// Nothing: the check has ended, with this verdict.
    Finish(bool),
}

/// An action, by the views of what it carries.
pub ghost enum ActionView {
    StatDependency(Seq<u8>),
    ProbeResult(Seq<u8>),
    Finish(bool),
}

impl View for Action {
    type V = ActionView;

    open spec fn view(&self) -> ActionView {
        match *self {
            Action::StatDependency(path) => ActionView::StatDependency(path@),
            Action::ProbeResult(path) => ActionView::ProbeResult(path@),
            Action::Finish(verdict) => ActionView::Finish(verdict),
        }
    }
}

/// Where a check stands.
pub ghost enum PhaseView {
    /// Nothing was read yet: the entry file is awaited.
    Ready,
    /// The modification time of this dependency is awaited.
    AwaitingDependency(Seq<u8>),
    /// The existence of this result is awaited.
    AwaitingResult(Seq<u8>),
    /// The check has ended, with this verdict.
    Finished(bool),
}

/// The state of a check.
pub ghost struct CheckView {
    /// The modification time of the entry file.
    pub cache_time: Timestamp,
    /// The records of the entry that were not looked at yet.
    pub pending: Seq<Seq<u8>>,
    /// Whether an empty record was passed.
    pub after_sentinel: bool,
    pub phase: PhaseView,
}

/// The state before anything was read.
pub open spec fn initial() -> CheckView {
    CheckView {
        cache_time: 0,
        pending: Seq::empty(),
        after_sentinel: false,
        phase: PhaseView::Ready,
    }
}

/// The state of a check that ended with `verdict`.
pub open spec fn finished(verdict: bool) -> CheckView {
    CheckView {
        cache_time: 0,
        pending: Seq::empty(),
        after_sentinel: false,
        phase: PhaseView::Finished(verdict),
    }
}

/// The action that a state stands for: what is awaited in it.
pub open spec fn awaited(s: CheckView) -> ActionView {
    match s.phase {
        PhaseView::Ready => ActionView::Finish(false),
        PhaseView::AwaitingDependency(path) => ActionView::StatDependency(path),
        PhaseView::AwaitingResult(path) => ActionView::ProbeResult(path),
        PhaseView::Finished(verdict) => ActionView::Finish(verdict),
    }
}

/// Moves to the next record that is not empty. Before the sentinel it is a
/// dependency, after it the result; if there is none, the entry is damaged
/// and the check ends.
pub open spec fn advance(s: CheckView) -> CheckView {
    let skipped = first_nonempty(s.pending) as int;
    if skipped >= s.pending.len() {
        finished(false)
    } else if s.after_sentinel || skipped > 0 {
        CheckView {
            cache_time: s.cache_time,
            pending: s.pending.skip(skipped + 1),
            after_sentinel: true,
            phase: PhaseView::AwaitingResult(s.pending[skipped]),
        }
    } else {
        CheckView {
            cache_time: s.cache_time,
            pending: s.pending.skip(skipped + 1),
            after_sentinel: false,
            phase: PhaseView::AwaitingDependency(s.pending[skipped]),
        }
    }
}

/// The state that follows `s` when `event` is observed.
///
/// A missing entry file, a missing dependency, one that is newer than the
/// entry file, and any event other than the one awaited end the check with
/// the verdict `false`. The existence of the result is the verdict.
pub open spec fn next_state(s: CheckView, event: EventView) -> CheckView {
    match (s.phase, event) {
        (PhaseView::Finished(_), _) => s,
        (PhaseView::Ready, EventView::Entry(Some(file))) => advance(
            CheckView {
                cache_time: file.modified,
                pending: records_of(file.contents),
                after_sentinel: false,
                phase: PhaseView::Ready,
            },
        ),
        (PhaseView::AwaitingDependency(_), EventView::DependencyStat(Some(modified))) => {
            if modified <= s.cache_time {
                advance(s)
            } else {
                finished(false)
            }
        },
        (PhaseView::AwaitingResult(_), EventView::ResultExists(found)) => finished(found),
        _ => finished(false),
    }
}

/// The observation that answers what is awaited in `s`, in a world where
/// the entry file is `file` and the other files are `files`.
pub open spec fn answer(
    s: CheckView,
    file: Option<EntryFileView>,
    files: Map<Seq<u8>, Timestamp>,
) -> EventView {
    match s.phase {
        PhaseView::Ready => EventView::Entry(file),
        PhaseView::AwaitingDependency(path) => EventView::DependencyStat(lookup(files, path)),
        PhaseView::AwaitingResult(path) => EventView::ResultExists(files.dom().contains(path)),
        PhaseView::Finished(verdict) => EventView::ResultExists(verdict),
    }
}

/// How far a state is from the end of its check.
pub open spec fn distance(s: CheckView) -> nat {
    match s.phase {
        PhaseView::Ready => 0,
        PhaseView::AwaitingDependency(_) => s.pending.len() + 1,
        PhaseView::AwaitingResult(_) => s.pending.len() + 1,
        PhaseView::Finished(_) => 0,
    }
}

/// The verdict that the check reaches from `s` when every question is
/// answered truthfully.
pub open spec fn outcome(
    s: CheckView,
    file: Option<EntryFileView>,
    files: Map<Seq<u8>, Timestamp>,
) -> bool
    decreases (if s.phase is Ready { 1nat } else { 0nat }), distance(s),
    via outcome_ends
{
    match s.phase {
        PhaseView::Finished(verdict) => verdict,
        _ => outcome(next_state(s, answer(s, file, files)), file, files),
    }
}

/// Every answer leads closer to the end of the check.
#[via_fn]
proof fn outcome_ends(s: CheckView, file: Option<EntryFileView>, files: Map<Seq<u8>, Timestamp>) {
    lemma_step_progress(s, answer(s, file, files));
}

/// `advance` never leads back to the start, and leaves fewer records than
/// it found.
pub proof fn lemma_advance(s: CheckView)
    ensures
        !(advance(s).phase is Ready),
        distance(advance(s)) <= s.pending.len(),
{
    lemma_first_nonempty(s.pending);
}

/// A first record that is not empty is a dependency: the records are valid
/// if and only if it is up to date and the other records are valid.
proof fn lemma_records_valid_dependency(
    records: Seq<Seq<u8>>,
    cache_time: Timestamp,
    files: Map<Seq<u8>, Timestamp>,
)
    requires
        records.len() > 0,
        records[0].len() > 0,
    ensures
        records_valid(records, cache_time, files) == (up_to_date(files, records[0], cache_time)
            && records_valid(records.skip(1), cache_time, files)),
{
    let rest = records.skip(1);
    let s = first_empty(records) as int;
    let s1 = first_empty(rest) as int;
    lemma_first_empty(rest);
    if s1 < rest.len() {
        assert(records.skip(s + 1) =~= rest.skip(s1 + 1));
    }
    if s1 < rest.len() && first_nonempty(rest.skip(s1 + 1)) < rest.skip(s1 + 1).len() {
        let entry = entry_in(records)->0;
        let entry1 = entry_in(rest)->0;
        assert(entry.dependencies =~= seq![records[0]] + entry1.dependencies);
        if entry_valid(entry, cache_time, files) {
            assert(entry.dependencies[0] == records[0]);
            assert forall|i: int| 0 <= i < entry1.dependencies.len() implies up_to_date(
                files,
                #[trigger] entry1.dependencies[i],
                cache_time,
            ) by {
                assert(entry.dependencies[i + 1] == entry1.dependencies[i]);
            }
        }
        if up_to_date(files, records[0], cache_time) && entry_valid(entry1, cache_time, files) {
            assert forall|i: int| 0 <= i < entry.dependencies.len() implies up_to_date(
                files,
                #[trigger] entry.dependencies[i],
                cache_time,
            ) by {
                if i > 0 {
                    assert(entry.dependencies[i] == entry1.dependencies[i - 1]);
                }
            }
        }
    }
}

/// From a state that awaits the existence of the result, the verdict is
/// that existence.
proof fn lemma_outcome_result(
    s: CheckView,
    file: Option<EntryFileView>,
    files: Map<Seq<u8>, Timestamp>,
)
    requires
        s.phase is AwaitingResult,
    ensures
        outcome(s, file, files) == files.dom().contains(s.phase->AwaitingResult_0),
{
    let next = next_state(s, answer(s, file, files));
    assert(outcome(next, file, files) == files.dom().contains(s.phase->AwaitingResult_0));
}

/// Before the sentinel, moving on from records that were not looked at yet
/// leads to the verdict that they are valid.
proof fn lemma_outcome_advance(
    s: CheckView,
    file: Option<EntryFileView>,
    files: Map<Seq<u8>, Timestamp>,
)
    requires
        !s.after_sentinel,
    ensures
        outcome(advance(s), file, files) == records_valid(s.pending, s.cache_time, files),
    decreases s.pending.len(),
{
    let records = s.pending;
    let skipped = first_nonempty(records) as int;
    let next = advance(s);
    lemma_first_nonempty(records);
    lemma_first_empty(records);
    if skipped >= records.len() {
        // Every record is empty: no result follows the sentinel.
        if records.len() > 0 {
            lemma_first_nonempty(records.skip(1));
        }
    } else if skipped > 0 {
        // The sentinel comes first: the next record is the result.
        lemma_outcome_result(next, file, files);
    } else {
        // A dependency comes first.
        lemma_records_valid_dependency(records, s.cache_time, files);
        if up_to_date(files, records[0], s.cache_time) {
            lemma_advance(next);
            lemma_outcome_advance(next, file, files);
        } else {
            assert(!outcome(next_state(next, answer(next, file, files)), file, files));
        }
    }
}

/// The check, run from its start with truthful answers, ends with the
/// verdict `true` exactly if the entry file exists and holds a valid entry.
pub proof fn lemma_outcome(file: Option<EntryFileView>, files: Map<Seq<u8>, Timestamp>)
    ensures
        outcome(initial(), file, files) == cache_valid(file, files),
{
    match file {
        Some(f) => {
            let loaded = CheckView {
                cache_time: f.modified,
                pending: records_of(f.contents),
                after_sentinel: false,
                phase: PhaseView::Ready,
            };
            lemma_advance(loaded);
            lemma_outcome_advance(loaded, file, files);
        },
        None => {
            assert(!outcome(finished(false), file, files));
        },
    }
}

/// An entry file that was written for `entry` is valid exactly if every
/// dependency of `entry` is up to date and its result exists. So it is
/// valid while nothing has changed since it was written, it is not once a
/// dependency was modified after it or has gone, and it is not once the
/// result has gone.
pub proof fn lemma_stored_entry_valid(
    entry: EntryView,
    modified: Timestamp,
    files: Map<Seq<u8>, Timestamp>,
)
    requires
        storable(entry),
    ensures
        cache_valid(Some(EntryFileView { contents: encoding_of(entry), modified }), files)
            == entry_valid(entry, modified, files),
{
    lemma_round_trip(entry);
}

/// Once a dependency is missing or newer than the entry file, nothing more
/// is asked: the check has ended with the verdict `false`.
pub proof fn lemma_stale_dependency_ends_check(s: CheckView, modified: Option<Timestamp>)
    requires
        s.phase is AwaitingDependency,
        modified is None || modified->0 > s.cache_time,
    ensures
        next_state(s, EventView::DependencyStat(modified)) == finished(false),
{
}

/// Every step leads away from the start, and a step from a state that
/// awaits an answer leads closer to the end.
pub proof fn lemma_step_progress(s: CheckView, event: EventView)
    ensures
        !(next_state(s, event).phase is Ready),
        s.phase is AwaitingDependency || s.phase is AwaitingResult ==> distance(
            next_state(s, event),
        ) < distance(s),
{
    lemma_advance(s);
    if let EventView::Entry(Some(file)) = event {
        lemma_advance(
            CheckView {
                cache_time: file.modified,
                pending: records_of(file.contents),
                after_sentinel: false,
                phase: PhaseView::Ready,
            },
        );
    }
}

/// Where a check stands.
enum Phase {
    Ready,
    AwaitingDependency,
    AwaitingResult,
    Finished(bool),
}

/// A running check of one cache entry.
///
/// It starts out awaiting the entry file, then names one path after the
/// other to be looked at, and ends with a verdict. `step` takes what was
/// observed and returns the state that follows, with what to do next.
pub struct CacheCheck {
    entry: Vec<u8>,
    cache_time: Timestamp,
    /// Where the next record starts.
    cursor: usize,
    /// Whether the last record was passed.
    exhausted: bool,
    after_sentinel: bool,
    phase: Phase,
    /// The stretch of the entry that holds the path asked about.
    asked_start: usize,
    asked_end: usize,
}

/// The records from `cursor` on, or none after the last one was passed.
spec fn pending_of(entry: Seq<u8>, cursor: int, exhausted: bool) -> Seq<Seq<u8>> {
    if exhausted {
        Seq::empty()
    } else {
        records_of(entry.skip(cursor))
    }
}

/// What a scan for the next record that is not empty found.
struct Scan {
    found: bool,
    start: usize,
    end: usize,
    cursor: usize,
    exhausted: bool,
    after_sentinel: bool,
}

/// Looks for the next record that is not empty.
fn scan(entry: &Vec<u8>, cursor: usize, exhausted: bool, after_sentinel: bool) -> (r: Scan)
    requires
        cursor <= entry.len(),
    ensures
        ({
            let pending = pending_of(entry@, cursor as int, exhausted);
            let skipped = first_nonempty(pending) as int;
            &&& r.found == (skipped < pending.len())
            &&& r.found ==> {
                &&& r.start <= r.end <= entry.len()
                &&& r.cursor <= entry.len()
                &&& entry@.subrange(r.start as int, r.end as int) == pending[skipped]
                &&& r.after_sentinel == (after_sentinel || skipped > 0)
                &&& pending_of(entry@, r.cursor as int, r.exhausted) == pending.skip(skipped + 1)
            }
        }),
{
    let ghost pending = pending_of(entry@, cursor as int, exhausted);
    let ghost mut skipped: int = 0;
    let mut pos: usize = cursor;
    let mut done: bool = exhausted;
    let mut after: bool = after_sentinel;
    while !done
        invariant
            pending == pending_of(entry@, cursor as int, exhausted),
            pos <= entry.len(),
            0 <= skipped <= pending.len(),
            pending_of(entry@, pos as int, done) == pending.skip(skipped),
            first_nonempty(pending) == skipped + first_nonempty(pending.skip(skipped)),
            after == (after_sentinel || skipped > 0),
        decreases entry.len() - pos + (if done { 0int } else { 1int }),
    {
        let start: usize = pos;
        let end = find_nul(entry.as_slice(), start);
        let ghost rest = pending.skip(skipped);
        proof {
            lemma_records_step(entry@, start as int);
        }
        if end == entry.len() {
            done = true;
        } else {
            pos = end + 1;
        }
        assert(rest.skip(1) =~= pending.skip(skipped + 1));
        if end > start {
            return Scan {
                found: true,
                start,
                end,
                cursor: pos,
                exhausted: done,
                after_sentinel: after,
            };
        }
        after = true;
        proof {
            skipped = skipped + 1;
        }
    }
    Scan { found: false, start: 0, end: 0, cursor: pos, exhausted: done, after_sentinel: after }
}

impl View for CacheCheck {
    type V = CheckView;

    closed spec fn view(&self) -> CheckView {
        let asked = self.entry@.subrange(self.asked_start as int, self.asked_end as int);
        let pending = pending_of(self.entry@, self.cursor as int, self.exhausted);
        match self.phase {
            Phase::Ready => initial(),
            Phase::Finished(verdict) => finished(verdict),
            Phase::AwaitingDependency => CheckView {
                cache_time: self.cache_time,
                pending,
                after_sentinel: self.after_sentinel,
                phase: PhaseView::AwaitingDependency(asked),
            },
            Phase::AwaitingResult => CheckView {
                cache_time: self.cache_time,
                pending,
                after_sentinel: self.after_sentinel,
                phase: PhaseView::AwaitingResult(asked),
            },
        }
    }
}

impl CacheCheck {
    /// The cursor and the stretch asked about lie inside the entry.
    #[verifier::type_invariant]
    spec fn well_formed(self) -> bool {
        &&& self.cursor <= self.entry@.len()
        &&& self.asked_start <= self.asked_end <= self.entry@.len()
    }

    /// A check that has not begun: it awaits the entry file.
    pub fn new() -> (check: CacheCheck)
        ensures
            check@ == initial(),
    {
        CacheCheck {
            entry: Vec::new(),
            cache_time: 0,
            cursor: 0,
            exhausted: false,
            after_sentinel: false,
            phase: Phase::Ready,
            asked_start: 0,
            asked_end: 0,
        }
    }

    /// A check that ended with `verdict`.
    fn finish(verdict: bool) -> (r: (CacheCheck, Action))
        ensures
            r.0@ == finished(verdict),
            r.1@ == ActionView::Finish(verdict),
    {
        let check = CacheCheck {
            entry: Vec::new(),
            cache_time: 0,
            cursor: 0,
            exhausted: true,
            after_sentinel: false,
            phase: Phase::Finished(verdict),
            asked_start: 0,
            asked_end: 0,
        };
        (check, Action::Finish(verdict))
    }

    /// Moves on to the next record that is not empty, and asks about it.
    fn advance(
        entry: Vec<u8>,
        cache_time: Timestamp,
        cursor: usize,
        exhausted: bool,
        after_sentinel: bool,
    ) -> (r: (CacheCheck, Action))
        requires
            cursor <= entry.len(),
        ensures
            r.0@ == advance(
                CheckView {
                    cache_time,
                    pending: pending_of(entry@, cursor as int, exhausted),
                    after_sentinel,
                    phase: PhaseView::Ready,
                },
            ),
            r.1@ == awaited(r.0@),
    {
        let found = scan(&entry, cursor, exhausted, after_sentinel);
        if !found.found {
            return CacheCheck::finish(false);
        }
        let path = copy_range(entry.as_slice(), found.start, found.end);
        if found.after_sentinel {
            let check = CacheCheck {
                entry,
                cache_time,
                cursor: found.cursor,
                exhausted: found.exhausted,
                after_sentinel: true,
                phase: Phase::AwaitingResult,
                asked_start: found.start,
                asked_end: found.end,
            };
            (check, Action::ProbeResult(path))
        } else {
            let check = CacheCheck {
                entry,
                cache_time,
                cursor: found.cursor,
                exhausted: found.exhausted,
                after_sentinel: false,
                phase: Phase::AwaitingDependency,
                asked_start: found.start,
                asked_end: found.end,
            };
            (check, Action::StatDependency(path))
        }
    }

    /// Takes what was observed and returns the state that follows, with
    /// what the caller has to do in it.
    ///
    /// The first event has to be the entry file. After that the action
    /// names the path to look at, and the next event has to be the answer.
    /// An event of another kind ends the check with the verdict `false`.
    pub fn step(self, event: Event) -> (r: (CacheCheck, Action))
        ensures
            r.0@ == next_state(self@, event@),
            r.1@ == awaited(r.0@),
    {
        proof {
            use_type_invariant(&self);
        }
        match self.phase {
            Phase::Finished(verdict) => CacheCheck::finish(verdict),
            Phase::Ready => match event {
                Event::Entry(Some(file)) => {
                    assert(file.contents@.skip(0) =~= file.contents@);
                    CacheCheck::advance(file.contents, file.modified, 0, false, false)
                },
                _ => CacheCheck::finish(false),
            },
            Phase::AwaitingDependency => match event {
                Event::DependencyStat(Some(modified)) => {
                    if modified <= self.cache_time {
                        CacheCheck::advance(
                            self.entry,
                            self.cache_time,
                            self.cursor,
                            self.exhausted,
                            self.after_sentinel,
                        )
                    } else {
                        CacheCheck::finish(false)
                    }
                },
                _ => CacheCheck::finish(false),
            },
            Phase::AwaitingResult => match event {
                Event::ResultExists(found) => CacheCheck::finish(found),
                _ => CacheCheck::finish(false),
            },
        }
    }
}

/// Whether the entry in `file` is still valid, given the files that exist:
/// `file` is the entry file as it was read, or `None` if it is missing.
///
/// The entry is valid exactly if the file exists and holds an entry, every
/// dependency of the entry exists and was last modified no later than the
/// entry file, and the result of the entry exists.
pub fn check_cache(file: Option<EntryFile>, files: &FileTable) -> (valid: bool)
    ensures
        valid == cache_valid(entry_file_view(file), files@),
{
    let ghost world = entry_file_view(file);
    let first = CacheCheck::new().step(Event::Entry(file));
    let mut check = first.0;
    let mut action = first.1;
    proof {
        lemma_outcome(world, files@);
        lemma_step_progress(initial(), EventView::Entry(world));
    }
    loop
        invariant
            world == entry_file_view(file),
            action@ == awaited(check@),
            !(check@.phase is Ready),
            outcome(check@, world, files@) == cache_valid(world, files@),
        decreases distance(check@),
    {
        let ghost before = check@;
        proof {
            lemma_step_progress(before, answer(before, world, files@));
        }
        match action {
            Action::Finish(verdict) => {
                return verdict;
            },
            Action::StatDependency(path) => {
                let modified = files.modified(path.as_slice());
                let next = check.step(Event::DependencyStat(modified));
                check = next.0;
                action = next.1;
            },
            Action::ProbeResult(path) => {
                let found = files.contains(path.as_slice());
                let next = check.step(Event::ResultExists(found));
                check = next.0;
                action = next.1;
            },
        }
    }
}

} // verus!
