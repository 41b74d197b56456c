//! The load hook and the unload hook of the interception layer.
//!
//! The load hook reads the report channel variable and so learns where to
//! report to. The unload hook hands over the report. Each does its work
//! only if it is entered in the state from which its signal takes effect;
//! entered in any other state it does nothing.
//!
//! Whatever the load hook finds, the process goes on undisturbed: where
//! the variable is not set or names no descriptor, reporting is off and
//! paths are recorded all the same.

use vstd::prelude::*;
use crate::bytes::bytes_view;
use crate::channel::{parse_descriptor, report_channel};
use crate::entry::report_of;
use crate::lifecycle::{after, react, takes_effect, Lifecycle, Signal};
use crate::recorder::DependencySet;

verus! {

/// What the load hook found out.
#[derive(Clone, Copy, Debug, PartialEq, Eq)]
pub struct Configuration {
    /// The state afterwards.
    pub state: Lifecycle,
    /// The descriptor to report to, or `None` if reporting is off.
    pub report_fd: Option<i32>,
}

/// What is to be written at the end of the process, and where.
#[derive(Clone, Debug, PartialEq, Eq)]
pub struct Report {
    /// The descriptor to write to.
    pub fd: i32,
    /// The bytes to write: every recorded path, each followed by a NUL.
    pub bytes: Vec<u8>,
}

/// A report, by the view of its bytes.
pub ghost struct ReportView {
    pub fd: i32,
    pub bytes: Seq<u8>,
}

impl View for Report {
    type V = ReportView;

    open spec fn view(&self) -> ReportView {
        ReportView { fd: self.fd, bytes: self.bytes@ }
    }
}

/// What the unload hook has to do.
#[derive(Clone, Debug, PartialEq, Eq)]
pub struct Teardown {
    /// The state afterwards.
    pub state: Lifecycle,
    /// The report to write, or `None` if nothing is to be written.
    pub report: Option<Report>,
}

/// The report that the unload hook hands over when it is entered in
/// `state`: that of `paths`, to the descriptor `report_fd`, if the hook
/// takes effect and reporting is on.
pub open spec fn final_report(
    state: Lifecycle,
    report_fd: Option<i32>,
    paths: Seq<Seq<u8>>,
) -> Option<ReportView> {
    match report_fd {
        Some(fd) if takes_effect(state, Signal::Unload) => Some(
            ReportView { fd, bytes: report_of(paths) },
        ),
        _ => None,
    }
}

/// The load hook, entered in `state`: `variable` is the value of the
/// report channel variable, or `None` if it is not set.
///
/// Entered in the state `Uninitialized`, the hook leaves the layer
/// `Initialized`, reporting to the descriptor that the variable names, or
/// not reporting if there is none. Entered in any other state it changes
/// nothing, and reporting is off.
pub fn init(state: Lifecycle, variable: Option<&[u8]>) -> (c: Configuration)
    ensures
        c.state == if takes_effect(state, Signal::Load) {
            Lifecycle::Initialized
        } else {
            state
        },
        c.report_fd == if takes_effect(state, Signal::Load) {
            report_channel(bytes_view(variable))
        } else {
            None
        },
{
    let claimed = react(state, Signal::Load);
    if !claimed.effect {
        return Configuration { state, report_fd: None };
    }
    let report_fd = match variable {
        Some(value) => parse_descriptor(value),
        None => None,
    };
    let done = react(claimed.state, Signal::Configured);
    Configuration { state: done.state, report_fd }
}

/// The unload hook, entered in `state`: `report_fd` is the descriptor that
/// the load hook found, and `paths` are the paths recorded so far.
///
/// Entered in the state `Initialized`, the hook leaves the layer
/// `Finished`, and if reporting is on it hands over the report of `paths`.
/// Entered in any other state it changes nothing and hands over nothing.
pub fn deinit(state: Lifecycle, report_fd: Option<i32>, paths: &DependencySet) -> (t: Teardown)
    ensures
        t.state == after(state, Signal::Unload),
        match t.report {
            Some(report) => Some(report@),
            None => None,
        } == final_report(state, report_fd, paths@),
{
    let claimed = react(state, Signal::Unload);
    let report = match report_fd {
        Some(fd) => {
            if claimed.effect {
                Some(Report { fd, bytes: paths.report() })
            } else {
                None
            }
        },
        None => None,
    };
    Teardown { state: claimed.state, report }
}

} // verus!
