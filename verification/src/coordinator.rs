//! The coordinator: one invocation, from its arguments to its exit.
//!
//! ```text
//! tool RESULTFILE COMMAND [ARGS...]
//! ```
//!
//! The coordinator runs `COMMAND` only if it has to. It first looks whether
//! `RESULTFILE` exists and whether the cache entry of the command is still
//! valid. If both hold, nothing runs. Otherwise the command runs with the
//! interception layer attached, and if it succeeds its report becomes the
//! new cache entry. The coordinator ends as the command ended.
//!
//! An invocation is a single pass through these stages, none of them twice:
//!
//! ```text
//! Start -> ComputeKey -> CheckEntry -> Done                     (hit)
//!                 \            \
//!                  +------------+-> SpawnChild -> WaitChild -> PersistEntry -> Done
//! ```
//!
//! `Coordinator` is that pass as a state machine. It decides; the caller
//! looks at the file system, runs the command, and says what came of it.

use vstd::prelude::*;
use crate::bytes::{is_path, owned_view, NUL};
use crate::channel::{descriptor_value, format_descriptor};
use crate::entry::{
    encoding_of, entry_of, entry_trailer, lemma_round_trip, report_of, EntryView,
};
use crate::files::Timestamp;
use crate::key::{cache_key, get_cache_key, texts, utf8_of};
use crate::location::{cache_dir, cache_location, entry_location, entry_path};
use crate::recorder::is_dependency_set;
use crate::validity::{cache_valid, lemma_stored_entry_valid, up_to_date, EntryFileView};

verus! {

/// Where an invocation stands.
#[derive(Clone, Copy, Debug, PartialEq, Eq, Structural)]
pub enum Stage {
    /// Nothing is known yet: the arguments are awaited.
    Start,
    /// The key is computed; whether the result file exists is awaited.
    ComputeKey,
    /// The verdict on the cache entry is awaited.
    CheckEntry,
    /// The command has to run; the file for its report is awaited.
    SpawnChild,
    /// The command runs; its exit is awaited.
    WaitChild,
    /// The new entry is being moved into place.
    PersistEntry,
    /// The invocation is over.
    Done,
}

/// What the caller observed.
#[derive(Clone, Debug, PartialEq, Eq)]
pub enum Event {
    /// The process was started with these arguments, the first of them its
    /// own name, in this working directory, with these values of
    /// `XDG_CACHE_HOME` and `HOME`. The interception layer lies at `layer`.
    Started {
        args: Vec<String>,
        cwd: Vec<u8>,
        xdg_cache_home: Option<Vec<u8>>,
        home: Option<Vec<u8>>,
        layer: Vec<u8>,
    },
    /// Whether the result file exists.
    ResultFile(bool),
    /// The verdict of the check of the cache entry.
    EntryChecked(bool),
    /// The file for the report was created in the cache directory, and
    /// stays open in a child: its descriptor.
    Prepared(i32),
    /// The command has ended: its exit code, or `None` if a signal ended
    /// it, and the resolved path of the result file, or `None` if it could
    /// not be resolved.
    ChildExited { code: Option<i32>, result: Option<Vec<u8>> },
    /// The attempt to move the new entry into place is over.
    Persisted,
}

/// An event, by the views of what it carries.
pub ghost enum EventView {
    Started {
        args: Seq<Seq<char>>,
        cwd: Seq<u8>,
        xdg_cache_home: Option<Seq<u8>>,
        home: Option<Seq<u8>>,
        layer: Seq<u8>,
    },
    ResultFile(bool),
    EntryChecked(bool),
    Prepared(i32),
    ChildExited { code: Option<i32>, result: Option<Seq<u8>> },
    Persisted,
}

impl View for Event {
    type V = EventView;

    open spec fn view(&self) -> EventView {
        match *self {
            Event::Started { args, cwd, xdg_cache_home, home, layer } => EventView::Started {
                args: texts(args@),
                cwd: cwd@,
                xdg_cache_home: owned_view(xdg_cache_home),
                home: owned_view(home),
                layer: layer@,
            },
            Event::ResultFile(found) => EventView::ResultFile(found),
            Event::EntryChecked(valid) => EventView::EntryChecked(valid),
            Event::Prepared(fd) => EventView::Prepared(fd),
            Event::ChildExited { code, result } => EventView::ChildExited {
                code,
                result: owned_view(result),
            },
            Event::Persisted => EventView::Persisted,
        }
    }
}

/// What the caller has to do next.
#[derive(Clone, Debug, PartialEq, Eq)]
pub enum Action {
    /// Print how the tool is used, and exit with code 1. `program` is the
    /// name under which the tool was started, if it is known.
    Usage { program: Option<String> },
    /// Look whether this file, the result file, exists.
    ProbeResultFile(String),
    /// Check the cache entry at this path.
    CheckEntry(Vec<u8>),
    /// Nothing has to run: say so, and exit with code 0.
    Skip,
    /// Create this directory, and in it a private file for the report that
    /// stays open in a child.
    Prepare(Vec<u8>),
    /// Run `command` and wait for its end, then resolve `result_file`. In
    /// the environment of the command the variable `PRELOAD_VARIABLE` is
    /// set to `preload` and the variable `REPORT_FD_VARIABLE` to
    /// `report_fd`.
    Spawn { command: Vec<String>, preload: Vec<u8>, report_fd: Vec<u8>, result_file: String },
    /// Append `trailer` to the report file and move it to `entry`.
    Persist { trailer: Vec<u8>, entry: Vec<u8> },
    /// Exit with this code, that of the command.
    Exit(i32),
    /// The command was ended by a signal: end accordingly.
    Signaled,
    /// An event arrived that was not awaited: stop.
    Abort,
}

/// An action, by the views of what it carries.
pub ghost enum ActionView {
    Usage { program: Option<Seq<char>> },
    ProbeResultFile(Seq<char>),
    CheckEntry(Seq<u8>),
    Skip,
    Prepare(Seq<u8>),
    Spawn {
        command: Seq<Seq<char>>,
        preload: Seq<u8>,
        report_fd: Seq<u8>,
        result_file: Seq<char>,
    },
    Persist { trailer: Seq<u8>, entry: Seq<u8> },
    Exit(i32),
    Signaled,
    Abort,
}

impl View for Action {
    type V = ActionView;

    open spec fn view(&self) -> ActionView {
        match *self {
            Action::Usage { program } => ActionView::Usage {
                program: match program {
                    Some(name) => Some(name@),
                    None => None,
                },
            },
            Action::ProbeResultFile(path) => ActionView::ProbeResultFile(path@),
            Action::CheckEntry(path) => ActionView::CheckEntry(path@),
            Action::Skip => ActionView::Skip,
            Action::Prepare(dir) => ActionView::Prepare(dir@),
            Action::Spawn { command, preload, report_fd, result_file } => ActionView::Spawn {
                command: texts(command@),
                preload: preload@,
                report_fd: report_fd@,
                result_file: result_file@,
            },
            Action::Persist { trailer, entry } => ActionView::Persist {
                trailer: trailer@,
                entry: entry@,
            },
            Action::Exit(code) => ActionView::Exit(code),
            Action::Signaled => ActionView::Signaled,
            Action::Abort => ActionView::Abort,
        }
    }
}

impl Action {
    /// The exit code with which the action ends the invocation, if it ends
    /// it with one.
    pub fn exit_code(&self) -> (code: Option<i32>)
        ensures
            code == exit_code_of(self@),
    {
        match self {
            Action::Usage { .. } => Some(EXIT_FAILURE),
            Action::Skip => Some(0),
            Action::Exit(code) => Some(*code),
            Action::Abort => Some(EXIT_FAILURE),
            _ => None,
        }
    }
}

/// The state of an invocation.
pub ghost struct CoordinatorView {
    pub stage: Stage,
    /// The result file, as it was named on the command line.
    pub result_file: Seq<char>,
    /// The command and its arguments.
    pub command: Seq<Seq<char>>,
    /// The path of the interception layer.
    pub layer: Seq<u8>,
    /// The directory of the cache.
    pub cache_dir: Seq<u8>,
    /// The path of the cache entry of the command.
    pub entry: Seq<u8>,
    /// The exit code of the command, once it has ended with one.
    pub code: Option<i32>,
}

/// The state in `stage` when nothing else is known.
pub open spec fn blank(stage: Stage) -> CoordinatorView {
    CoordinatorView {
        stage,
        result_file: Seq::empty(),
        command: Seq::empty(),
        layer: Seq::empty(),
        cache_dir: Seq::empty(),
        entry: Seq::empty(),
        code: None,
    }
}

/// The fewest arguments of an invocation: the name of the tool, the result
/// file and the command.
pub const MIN_ARGS: usize = 3;

/// The name of the variable through which the dynamic loader is told to
/// load the interception layer into the command.
pub const PRELOAD_VARIABLE: &'static str = "LD_PRELOAD";

/// The exit code of an invocation that was not understood or went wrong.
pub const EXIT_FAILURE: i32 = 1;

/// The exit code with which `action` ends the invocation: 1 after the
/// usage was printed, 0 when nothing had to run, the code of the command
/// when it has run. It is `None` for an action that does not end the
/// invocation, and for the end of a command by a signal, for which no code
/// is laid down.
pub open spec fn exit_code_of(action: ActionView) -> Option<i32> {
    match action {
        ActionView::Usage { .. } => Some(EXIT_FAILURE),
        ActionView::Skip => Some(0i32),
        ActionView::Exit(code) => Some(code),
        ActionView::Abort => Some(EXIT_FAILURE),
        _ => None,
    }
}

/// The state at the start.
pub open spec fn initial() -> CoordinatorView {
    blank(Stage::Start)
}

/// How the invocation ends after the command ended with `code`.
pub open spec fn exit_action(code: Option<i32>) -> ActionView {
    match code {
        Some(c) => ActionView::Exit(c),
        None => ActionView::Signaled,
    }
}

/// The state and the action that follow the start of the process.
pub open spec fn started(
    args: Seq<Seq<char>>,
    cwd: Seq<u8>,
    xdg_cache_home: Option<Seq<u8>>,
    home: Option<Seq<u8>>,
    layer: Seq<u8>,
) -> (CoordinatorView, ActionView) {
    if args.len() < MIN_ARGS {
        (
            blank(Stage::Done),
            ActionView::Usage {
                program: if args.len() > 0 {
                    Some(args[0])
                } else {
                    None
                },
            },
        )
    } else {
        let command = args.skip(2);
        let dir = cache_location(xdg_cache_home, home);
        (
            CoordinatorView {
                stage: Stage::ComputeKey,
                result_file: args[1],
                command,
                layer,
                cache_dir: dir,
                entry: entry_location(dir, cache_key(utf8_of(command), cwd)),
                code: None,
            },
            ActionView::ProbeResultFile(args[1]),
        )
    }
}

/// The state and the action that follow when the command has to run.
pub open spec fn missed(s: CoordinatorView) -> (CoordinatorView, ActionView) {
    (CoordinatorView { stage: Stage::SpawnChild, ..s }, ActionView::Prepare(s.cache_dir))
}

/// The state that follows `s` when `event` is observed, and what the
/// caller has to do in it.
///
/// The command runs unless the result file exists and the cache entry is
/// valid. A new entry is stored only after the command has ended with the
/// exit code 0 and the result file could be resolved. The invocation ends
/// as the command ended. An event that is not awaited ends the invocation.
pub open spec fn next(s: CoordinatorView, event: EventView) -> (CoordinatorView, ActionView) {
    match (s.stage, event) {
        (Stage::Start, EventView::Started { args, cwd, xdg_cache_home, home, layer }) => started(
            args,
            cwd,
            xdg_cache_home,
            home,
            layer,
        ),
        (Stage::ComputeKey, EventView::ResultFile(found)) => {
            if found {
                (CoordinatorView { stage: Stage::CheckEntry, ..s }, ActionView::CheckEntry(s.entry))
            } else {
                missed(s)
            }
        },
        (Stage::CheckEntry, EventView::EntryChecked(valid)) => {
            if valid {
                (blank(Stage::Done), ActionView::Skip)
            } else {
                missed(s)
            }
        },
        (Stage::SpawnChild, EventView::Prepared(fd)) => (
            CoordinatorView {
                stage: Stage::WaitChild,
                result_file: Seq::empty(),
                command: Seq::empty(),
                layer: Seq::empty(),
                ..s
            },
            ActionView::Spawn {
                command: s.command,
                preload: s.layer,
                report_fd: descriptor_value(fd),
                result_file: s.result_file,
            },
        ),
        (Stage::WaitChild, EventView::ChildExited { code, result }) => {
            if code == Some(0i32) && result is Some {
                (
                    CoordinatorView { stage: Stage::PersistEntry, code, ..s },
                    ActionView::Persist { trailer: seq![NUL] + result->0, entry: s.entry },
                )
            } else {
                (blank(Stage::Done), exit_action(code))
            }
        },
        (Stage::PersistEntry, EventView::Persisted) => (blank(Stage::Done), exit_action(s.code)),
        _ => (blank(Stage::Done), ActionView::Abort),
    }
}

/// How far a stage is along the way.
pub open spec fn rank(stage: Stage) -> nat {
    match stage {
        Stage::Start => 0,
        Stage::ComputeKey => 1,
        Stage::CheckEntry => 2,
        Stage::SpawnChild => 3,
        Stage::WaitChild => 4,
        Stage::PersistEntry => 5,
        Stage::Done => 6,
    }
}

/// No stage is entered twice: every event leads to a later stage, until
/// the invocation is over.
pub proof fn lemma_single_pass(s: CoordinatorView, event: EventView)
    ensures
        s.stage != Stage::Done ==> rank(next(s, event).0.stage) > rank(s.stage),
        s.stage == Stage::Done ==> next(s, event).0.stage == Stage::Done,
{
}

/// What the two answers about the cache lead to, from the stage in which
/// the key is computed: the action that follows the last of them.
pub open spec fn decision(s: CoordinatorView, result_exists: bool, entry_valid: bool) -> ActionView {
    let probed = next(s, EventView::ResultFile(result_exists));
    if result_exists {
        next(probed.0, EventView::EntryChecked(entry_valid)).1
    } else {
        probed.1
    }
}

/// Nothing runs exactly if the result file exists and the cache entry is
/// valid; otherwise the run of the command is prepared. The entry is only
/// looked at when the result file exists.
pub proof fn lemma_decision(s: CoordinatorView, result_exists: bool, entry_valid: bool)
    requires
        s.stage == Stage::ComputeKey,
    ensures
        decision(s, result_exists, entry_valid) == if result_exists && entry_valid {
            ActionView::Skip
        } else {
            ActionView::Prepare(s.cache_dir)
        },
        next(s, EventView::ResultFile(result_exists)).1 is CheckEntry <==> result_exists,
{
}

/// The invocation ends as the command ended, whether a new entry was
/// stored or not.
pub proof fn lemma_exit_follows_command(
    s: CoordinatorView,
    code: Option<i32>,
    result: Option<Seq<u8>>,
)
    requires
        s.stage == Stage::WaitChild,
    ensures
        ({
            let exited = next(s, EventView::ChildExited { code, result });
            if exited.1 is Persist {
                &&& code == Some(0i32)
                &&& next(exited.0, EventView::Persisted).1 == exit_action(code)
            } else {
                exited.1 == exit_action(code)
            }
        }),
{
}

/// A second invocation after nothing has changed runs nothing.
///
/// The first invocation ran the command, which reported `dependencies`,
/// and stored them with `result`, the resolved path of the result file, in
/// an entry file that was last modified at `stored`. If every dependency is
/// still there and was not modified since, and the result is still there,
/// then the entry file is valid, it still names `result`, and an
/// invocation that finds the result file decides to skip the command.
pub proof fn lemma_second_run_hits(
    s: CoordinatorView,
    dependencies: Seq<Seq<u8>>,
    result: Seq<u8>,
    stored: Timestamp,
    files: Map<Seq<u8>, Timestamp>,
)
    requires
        s.stage == Stage::ComputeKey,
        is_dependency_set(dependencies),
        is_path(result),
        forall|i: int|
            0 <= i < dependencies.len() ==> up_to_date(files, #[trigger] dependencies[i], stored),
        files.dom().contains(result),
    ensures
        ({
            let contents = report_of(dependencies) + (seq![NUL] + result);
            let file = Some(EntryFileView { contents, modified: stored });
            &&& entry_of(contents) == Some(EntryView { dependencies, result })
            &&& cache_valid(file, files)
            &&& decision(s, true, cache_valid(file, files)) == ActionView::Skip
        }),
{
    let entry = EntryView { dependencies, result };
    assert(encoding_of(entry) =~= report_of(dependencies) + (seq![NUL] + result));
    lemma_round_trip(entry);
    lemma_stored_entry_valid(entry, stored, files);
}

/// One invocation.
pub struct Coordinator {
    stage: Stage,
    result_file: String,
    command: Vec<String>,
    layer: Vec<u8>,
    cache_dir: Vec<u8>,
    entry: Vec<u8>,
    code: Option<i32>,
}

impl View for Coordinator {
    type V = CoordinatorView;

    closed spec fn view(&self) -> CoordinatorView {
        CoordinatorView {
            stage: self.stage,
            result_file: self.result_file@,
            command: texts(self.command@),
            layer: self.layer@,
            cache_dir: self.cache_dir@,
            entry: self.entry@,
            code: self.code,
        }
    }
}

impl Coordinator {
    /// The state in `stage` when nothing else is known.
    fn blank(stage: Stage) -> (c: Coordinator)
        ensures
            c@ == blank(stage),
    {
        let c = Coordinator {
            stage,
            result_file: String::new(),
            command: Vec::new(),
            layer: Vec::new(),
            cache_dir: Vec::new(),
            entry: Vec::new(),
            code: None,
        };
        assert(texts(c.command@) =~= Seq::<Seq<char>>::empty());
        c
    }

    /// An invocation at its start.
    pub fn new() -> (c: Coordinator)
        ensures
            c@ == initial(),
    {
        Coordinator::blank(Stage::Start)
    }

    /// The stage in which the invocation is.
    pub fn stage(&self) -> (stage: Stage)
        ensures
            stage == self@.stage,
    {
        self.stage
    }

    /// Reads the command line, computes the key and asks for the result file.
    fn start(
        args: Vec<String>,
        cwd: Vec<u8>,
        xdg_cache_home: Option<Vec<u8>>,
        home: Option<Vec<u8>>,
        layer: Vec<u8>,
    ) -> (r: (Coordinator, Action))
        ensures
            (r.0@, r.1@) == started(
                texts(args@),
                cwd@,
                owned_view(xdg_cache_home),
                owned_view(home),
                layer@,
            ),
    {
        if args.len() < MIN_ARGS {
            let program = if args.len() > 0 {
                Some(args[0].clone())
            } else {
                None
            };
            return (Coordinator::blank(Stage::Done), Action::Usage { program });
        }
        let result_file = args[1].clone();
        let asked = args[1].clone();
        let mut command: Vec<String> = Vec::new();
        let mut i: usize = 2;
        while i < args.len()
            invariant
                2 <= i <= args.len(),
                texts(command@) == texts(args@).subrange(2, i as int),
            decreases args.len() - i,
        {
            let arg = args[i].clone();
            let ghost before = command@;
            command.push(arg);
            assert(texts(command@) =~= texts(before).push(arg@));
            i = i + 1;
        }
        let key = get_cache_key(command.as_slice(), cwd.as_slice());
        let dir = cache_dir(
            match &xdg_cache_home {
                Some(value) => Some(value.as_slice()),
                None => None,
            },
            match &home {
                Some(value) => Some(value.as_slice()),
                None => None,
            },
        );
        let entry = entry_path(dir.as_slice(), key.as_str());
        let c = Coordinator {
            stage: Stage::ComputeKey,
            result_file,
            command,
            layer,
            cache_dir: dir,
            entry,
            code: None,
        };
        (c, Action::ProbeResultFile(asked))
    }

    /// Has the run of the command prepared.
    fn miss(self) -> (r: (Coordinator, Action))
        ensures
            (r.0@, r.1@) == missed(self@),
    {
        let dir = self.cache_dir.clone();
        let c = Coordinator {
            stage: Stage::SpawnChild,
            result_file: self.result_file,
            command: self.command,
            layer: self.layer,
            cache_dir: self.cache_dir,
            entry: self.entry,
            code: self.code,
        };
        (c, Action::Prepare(dir))
    }

    /// Ends the invocation as the command ended.
    fn exit(code: Option<i32>) -> (r: (Coordinator, Action))
        ensures
            r.0@ == blank(Stage::Done),
            r.1@ == exit_action(code),
    {
        let action = match code {
            Some(c) => Action::Exit(c),
            None => Action::Signaled,
        };
        (Coordinator::blank(Stage::Done), action)
    }

    /// Ends the invocation after an event that was not awaited.
    fn abort() -> (r: (Coordinator, Action))
        ensures
            r.0@ == blank(Stage::Done),
            r.1@ == ActionView::Abort,
    {
        (Coordinator::blank(Stage::Done), Action::Abort)
    }

    /// Takes what was observed and returns the state that follows, with
    /// what the caller has to do in it.
    pub fn step(self, event: Event) -> (r: (Coordinator, Action))
        ensures
            (r.0@, r.1@) == next(self@, event@),
    {
        match self.stage {
            Stage::Start => match event {
                Event::Started { args, cwd, xdg_cache_home, home, layer } => Coordinator::start(
                    args,
                    cwd,
                    xdg_cache_home,
                    home,
                    layer,
                ),
                _ => Coordinator::abort(),
            },
            Stage::ComputeKey => match event {
                Event::ResultFile(found) => {
                    if found {
                        let entry = self.entry.clone();
                        let c = Coordinator {
                            stage: Stage::CheckEntry,
                            result_file: self.result_file,
                            command: self.command,
                            layer: self.layer,
                            cache_dir: self.cache_dir,
                            entry: self.entry,
                            code: self.code,
                        };
                        (c, Action::CheckEntry(entry))
                    } else {
                        self.miss()
                    }
                },
                _ => Coordinator::abort(),
            },
            Stage::CheckEntry => match event {
                Event::EntryChecked(valid) => {
                    if valid {
                        (Coordinator::blank(Stage::Done), Action::Skip)
                    } else {
                        self.miss()
                    }
                },
                _ => Coordinator::abort(),
            },
            Stage::SpawnChild => match event {
                Event::Prepared(fd) => {
                    let report_fd = format_descriptor(fd);
                    let c = Coordinator {
                        stage: Stage::WaitChild,
                        result_file: String::new(),
                        command: Vec::new(),
                        layer: Vec::new(),
                        cache_dir: self.cache_dir,
                        entry: self.entry,
                        code: self.code,
                    };
                    assert(texts(c.command@) =~= Seq::<Seq<char>>::empty());
                    (
                        c,
                        Action::Spawn {
                            command: self.command,
                            preload: self.layer,
                            report_fd,
                            result_file: self.result_file,
                        },
                    )
                },
                _ => Coordinator::abort(),
            },
            Stage::WaitChild => match event {
                Event::ChildExited { code, result } => {
                    let succeeded = match code {
                        Some(c) => c == 0,
                        None => false,
                    };
                    match result {
                        Some(path) => {
                            if succeeded {
                                let trailer = entry_trailer(path.as_slice());
                                let entry = self.entry.clone();
                                let c = Coordinator {
                                    stage: Stage::PersistEntry,
                                    result_file: self.result_file,
                                    command: self.command,
                                    layer: self.layer,
                                    cache_dir: self.cache_dir,
                                    entry: self.entry,
                                    code,
                                };
                                (c, Action::Persist { trailer, entry })
                            } else {
                                Coordinator::exit(code)
                            }
                        },
                        None => Coordinator::exit(code),
                    }
                },
                _ => Coordinator::abort(),
            },
            Stage::PersistEntry => match event {
                Event::Persisted => Coordinator::exit(self.code),
                _ => Coordinator::abort(),
            },
            Stage::Done => Coordinator::abort(),
        }
    }
}

} // verus!
