//! What follows a download: moving the file, cleaning up, a command, shutting down.

use crate::path;
use crate::types::{DownloadEntry, DownloadStatus, EntryView, opt_text};
use crate::download_registry::entries::entry_views;
use vstd::prelude::*;

verus! {

/// A step that follows a download.
#[derive(Debug)]
pub enum PostStep {
    /// Move the file, if it is there; the directory it goes to is created first.
    Move { from: String, to: String, directory: Option<String> },
    /// Delete a file, if it is there.
    Delete(String),
    /// Run a command; the download fails where the command does.
    Run(String),
}

/// The content of a `PostStep`.
pub enum StepView {
    Move { from: Seq<char>, to: Seq<char>, directory: Option<Seq<char>> },
    Delete(Seq<char>),
    Run(Seq<char>),
}

impl View for PostStep {
    type V = StepView;

    open spec fn view(&self) -> StepView {
        match self {
            PostStep::Move { from, to, directory } => StepView::Move {
                from: from@,
                to: to@,
                directory: opt_text(*directory),
            },
            PostStep::Delete(p) => StepView::Delete(p@),
            PostStep::Run(c) => StepView::Run(c@),
        }
    }
}

/// What some steps hold.
pub open spec fn step_views(v: Seq<PostStep>) -> Seq<StepView> {
    v.map_values(|s: PostStep| s@)
}

/// Moving the file, where it is to be moved.
pub open spec fn move_step(e: EntryView) -> Seq<StepView> {
    match e.post_action.move_to {
        Some(dest) => seq![
            StepView::Move { from: e.target_path, to: dest, directory: path::parent_of(dest) },
        ],
        None => Seq::empty(),
    }
}

/// Deleting the snapshots, where they are to be deleted.
pub open spec fn cleanup_steps(e: EntryView) -> Seq<StepView> {
    if e.post_action.delete_warp {
        seq![
            StepView::Delete(path::with_extension_of(e.target_path, "warp"@)),
            StepView::Delete(path::with_extension_of(e.target_path, "hls.warp"@)),
        ]
    } else {
        Seq::empty()
    }
}

/// Running the command, where there is one.
pub open spec fn command_step(e: EntryView) -> Seq<StepView> {
    match e.post_action.run_command {
        Some(c) => seq![StepView::Run(c)],
        None => Seq::empty(),
    }
}

/// The steps that follow a download, in their order.
pub open spec fn steps_after(e: EntryView) -> Seq<StepView> {
    move_step(e) + cleanup_steps(e) + command_step(e)
}

/// The steps that follow a download, in their order.
pub fn post_steps(entry: &DownloadEntry) -> (res: Vec<PostStep>)
    ensures
        step_views(res@) == steps_after(entry@),
{
    let mut out: Vec<PostStep> = Vec::new();
    if let Some(dest) = &entry.post_action.move_to {
        out.push(
            PostStep::Move {
                from: entry.target_path.clone(),
                to: dest.clone(),
                directory: path::parent(dest.as_str()),
            },
        );
    }
    proof {
        assert(step_views(out@) =~= move_step(entry@));
    }
    if entry.post_action.delete_warp {
        out.push(PostStep::Delete(path::with_extension(entry.target_path.as_str(), "warp")));
        out.push(PostStep::Delete(path::with_extension(entry.target_path.as_str(), "hls.warp")));
    }
    proof {
        assert(step_views(out@) =~= move_step(entry@) + cleanup_steps(entry@));
    }
    if let Some(command) = &entry.post_action.run_command {
        out.push(PostStep::Run(command.clone()));
    }
    proof {
        assert(step_views(out@) =~= steps_after(entry@));
    }
    out
}

/// Some download asks for a shutdown once the queue is empty.
pub open spec fn asks_shutdown(v: Seq<EntryView>) -> bool {
    exists|i: int| 0 <= i < v.len() && (#[trigger] v[i]).post_action.shutdown_when_queue_empty
}

/// Every download is complete.
pub open spec fn all_complete(v: Seq<EntryView>) -> bool {
    forall|i: int| 0 <= i < v.len() ==> (#[trigger] v[i]).status == DownloadStatus::Completed
}

/// The machine is shut down: every download is complete and one of them asks for it.
pub open spec fn shuts_down(v: Seq<EntryView>) -> bool {
    all_complete(v) && asks_shutdown(v)
}

/// Whether the machine is shut down, given all downloads.
pub fn shutdown_due(list: &Vec<DownloadEntry>) -> (res: bool)
    ensures
        res == shuts_down(entry_views(list@)),
{
    let ghost v = entry_views(list@);
    let mut asked = false;
    let mut i: usize = 0;
    while i < list.len()
        invariant
            i <= list@.len(),
            v == entry_views(list@),
            forall|k: int| 0 <= k < i ==> (#[trigger] v[k]).status == DownloadStatus::Completed,
            asked == exists|k: int|
                0 <= k < i && (#[trigger] v[k]).post_action.shutdown_when_queue_empty,
        decreases list@.len() - i,
    {
        assert(v[i as int] == list@[i as int]@);
        if list[i].status != DownloadStatus::Completed {
            assert(v[i as int].status != DownloadStatus::Completed);
            return false;
        }
        if list[i].post_action.shutdown_when_queue_empty {
            asked = true;
        }
        i = i + 1;
    }
    asked
}

/// The machine is not shut down while a download is unfinished, nor for an empty queue.
pub proof fn law_unfinished_downloads_never_shut_down(v: Seq<EntryView>)
    requires
        v.len() == 0 || exists|i: int|
            0 <= i < v.len() && (#[trigger] v[i]).status != DownloadStatus::Completed,
    ensures
        !shuts_down(v),
{
}

/// What follows a download is what its entry asks for, in this order: its file is moved, its two
/// snapshots are deleted, its command is run. What is not asked for does not follow it.
pub proof fn law_steps_follow_the_entry(e: EntryView)
    ensures
        ({
            let steps = steps_after(e);
            let moves: int = if e.post_action.move_to is Some {
                1
            } else {
                0
            };
            let deletes: int = if e.post_action.delete_warp {
                2
            } else {
                0
            };
            let runs: int = if e.post_action.run_command is Some {
                1
            } else {
                0
            };
            &&& steps.len() == moves + deletes + runs
            &&& e.post_action.move_to matches Some(to) ==> {
                steps[0] matches StepView::Move { from, to: there, directory } && from
                    == e.target_path && there == to && directory == path::parent_of(to)
            }
            &&& e.post_action.delete_warp ==> steps[moves] == StepView::Delete(
                path::with_extension_of(e.target_path, "warp"@),
            ) && steps[moves + 1] == StepView::Delete(
                path::with_extension_of(e.target_path, "hls.warp"@),
            )
            &&& e.post_action.run_command matches Some(command) ==> steps[moves + deletes]
                == StepView::Run(command)
        }),
{
}

/// The machine is shut down once every download is complete, where any of them asks for it.
pub proof fn law_a_finished_queue_shuts_down(v: Seq<EntryView>, k: int)
    requires
        0 <= k < v.len(),
        v[k].post_action.shutdown_when_queue_empty,
        forall|i: int| 0 <= i < v.len() ==> (#[trigger] v[i]).status == DownloadStatus::Completed,
    ensures
        shuts_down(v),
{
}

} // verus!
