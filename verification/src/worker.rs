//! The background media worker's decisions: what to do with the next unit of
//! work, and what a recording's state becomes on each outcome.
use vstd::prelude::*;

use crate::store::{recording_with, Store, StoreView};
use crate::table::rewrite;
use crate::text::same;
use crate::work::{
    probed, segmented, set_probe_result, set_segment_state, MediaWork, PendingAnalysis, WorkView,
};

verus! {

/// What the worker does next.
#[derive(Debug, PartialEq)]
pub enum WorkerAction {
    /// The queue is empty.
    Stop,
    /// Read the embedded capture date of the file.
    RefineDate(i64, String),
    /// Stage the whole pending batch and analyze the copies.
    StageBatch,
    /// Probe the file in place.
    Probe(i64, String),
    /// Segment the file in place.
    Segment(i64, String),
}

/// What an action holds.
pub enum ActionView {
    Stop,
    RefineDate(i64, Seq<char>),
    StageBatch,
    Probe(i64, Seq<char>),
    Segment(i64, Seq<char>),
}

impl DeepView for WorkerAction {
    type V = ActionView;

    open spec fn deep_view(&self) -> ActionView {
        match self {
            WorkerAction::Stop => ActionView::Stop,
            WorkerAction::RefineDate(id, path) => ActionView::RefineDate(*id, path@),
            WorkerAction::StageBatch => ActionView::StageBatch,
            WorkerAction::Probe(id, path) => ActionView::Probe(*id, path@),
            WorkerAction::Segment(id, path) => ActionView::Segment(*id, path@),
        }
    }
}

/// What the worker does with a unit of work: on a network mount probes and
/// segmentation go through staging, while capture dates never do.
pub open spec fn action_for(work: Option<WorkView>, network: bool) -> ActionView {
    match work {
        None => ActionView::Stop,
        Some(WorkView::CaptureDate(id, path)) => ActionView::RefineDate(id, path),
        Some(WorkView::Probe(id, path)) => if network {
            ActionView::StageBatch
        } else {
            ActionView::Probe(id, path)
        },
        Some(WorkView::Segment(id, path)) => if network {
            ActionView::StageBatch
        } else {
            ActionView::Segment(id, path)
        },
    }
}

/// What the worker does with the next unit of work.
pub fn worker_action(work: Option<MediaWork>, network: bool) -> (r: WorkerAction)
    ensures
        r.deep_view() == action_for(work.deep_view(), network),
{
    match work {
        None => WorkerAction::Stop,
        Some(MediaWork::CaptureDate(id, path)) => WorkerAction::RefineDate(id, path),
        Some(MediaWork::Probe(id, path)) => {
            if network {
                WorkerAction::StageBatch
            } else {
                WorkerAction::Probe(id, path)
            }
        },
        Some(MediaWork::Segment(id, path)) => {
            if network {
                WorkerAction::StageBatch
            } else {
                WorkerAction::Segment(id, path)
            }
        },
    }
}

/// Whether a mount is declared network; an absent library is not.
pub fn is_network_mount(mount: &Option<String>) -> (r: bool)
    ensures
        r == (mount.deep_view() == Some("network"@)),
{
    match mount {
        Some(m) => same(m, "network"),
        None => false,
    }
}

/// The state that a probe's outcome leaves.
pub open spec fn probe_outcome(readable: bool) -> Seq<char> {
    if readable {
        "ready"@
    } else {
        "failed"@
    }
}

/// Record whether a recording could be read: `ready` or `failed`. Returns whether
/// segmentation may go on.
pub fn record_probe(conn: &mut Store, id: i64, readable: bool) -> (r: bool)
    ensures
        r == readable,
        final(conn)@ == (StoreView {
            recordings: rewrite(
                old(conn)@.recordings,
                recording_with(id),
                probed(probe_outcome(readable)),
            ),
            ..old(conn)@
        }),
        old(conn)@.wf() ==> final(conn)@.wf(),
{
    if readable {
        set_probe_result(conn, id, "ready");
    } else {
        set_probe_result(conn, id, "failed");
    }
    readable
}

/// The store after the staging of a pending recording failed: its next phase
/// counts as failed, so that the pipeline does not loop.
pub open spec fn staging_failed(d: StoreView, needs_probe: bool, id: i64) -> StoreView {
    StoreView {
        recordings: if needs_probe {
            rewrite(d.recordings, recording_with(id), probed("failed"@))
        } else {
            rewrite(d.recordings, recording_with(id), segmented("failed"@))
        },
        ..d
    }
}

/// Record that a pending recording could not be staged.
pub fn record_staging_failure(conn: &mut Store, item: &PendingAnalysis)
    ensures
        final(conn)@ == staging_failed(old(conn)@, item.needs_probe, item.id),
        old(conn)@.wf() ==> final(conn)@.wf(),
{
    if item.needs_probe {
        set_probe_result(conn, item.id, "failed");
    } else {
        set_segment_state(conn, item.id, "failed");
    }
}

/// Whether a staged recording is segmented: where it needs it, and its probe, if
/// one was needed, found it readable.
pub fn segments_staged(item: &PendingAnalysis, readable: bool) -> (r: bool)
    ensures
        r == (item.needs_segment && (item.needs_probe ==> readable)),
{
    item.needs_segment && (!item.needs_probe || readable)
}

/// The event that tells the interface how far an analysis is.
pub const EVENT_ANALYSIS_PROGRESS: &'static str = "analysis:progress";

/// Milliseconds between two progress reports.
pub const PROGRESS_INTERVAL_MS: u64 = 500;

/// Whether progress is reported again, so long after the last report.
pub fn reports_progress(since_last_ms: u64) -> (r: bool)
    ensures
        r == (since_last_ms >= PROGRESS_INTERVAL_MS),
{
    since_last_ms >= PROGRESS_INTERVAL_MS
}

} // verus!
