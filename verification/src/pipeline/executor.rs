//! The outcome of one download.

use crate::types::{DownloadEntry, DownloadKind, DownloadStatus, opt_text};
use vstd::prelude::*;

verus! {

/// How a download ended.
#[derive(Debug)]
pub struct ExecuteResult {
    /// Complete or failed.
    pub status: DownloadStatus,
    /// Why it failed.
    pub error_message: Option<String>,
}

/// The outcome of a download that fetched so many bytes, or failed for a reason.
pub fn result_of(outcome: Result<u64, String>) -> (res: ExecuteResult)
    ensures
        match outcome {
            Ok(_) => res.status == DownloadStatus::Completed && res.error_message is None,
            Err(e) => res.status == DownloadStatus::Error && opt_text(res.error_message) == Some(
                e@,
            ),
        },
{
    match outcome {
        Ok(_bytes) => ExecuteResult { status: DownloadStatus::Completed, error_message: None },
        Err(e) => ExecuteResult { status: DownloadStatus::Error, error_message: Some(e) },
    }
}

/// How a download is fetched.
#[derive(Debug, Clone, Copy, PartialEq, Eq, Structural)]
pub enum Backend {
    /// In ranges, over HTTP.
    Ranges,
    /// Segment by segment, as a stream.
    Stream,
}

/// How a download is fetched.
pub fn backend_of(entry: &DownloadEntry) -> (res: Backend)
    ensures
        res == match entry.kind {
            DownloadKind::Http => Backend::Ranges,
            DownloadKind::Hls => Backend::Stream,
        },
{
    match entry.kind {
        DownloadKind::Hls => Backend::Stream,
        DownloadKind::Http => Backend::Ranges,
    }
}

/// What is known of a download once it and what follows it are over.
#[derive(Debug)]
pub struct Outcome {
    pub status: DownloadStatus,
    pub error_message: Option<String>,
}

/// The outcome of a download after its file was compared with the expected digest, if it was, and
/// the actions that follow it were run, if they were.
pub open spec fn outcome_view(
    status: DownloadStatus,
    message: Option<Seq<char>>,
    checksum: Option<Seq<char>>,
    post: Option<Seq<char>>,
) -> (DownloadStatus, Option<Seq<char>>) {
    if status == DownloadStatus::Completed {
        match checksum {
            Some(m) => (DownloadStatus::Error, Some(m)),
            None => match post {
                Some(m) => (DownloadStatus::Error, Some(m)),
                None => (status, message),
            },
        }
    } else {
        (status, message)
    }
}

/// The outcome of a download: what went wrong with its digest counts first, then what went wrong
/// with the actions that follow it. Of a download that failed neither is looked at.
pub fn conclude(
    result: ExecuteResult,
    checksum_error: Option<String>,
    post_error: Option<String>,
) -> (res: Outcome)
    ensures
        (res.status, opt_text(res.error_message)) == outcome_view(
            result.status,
            opt_text(result.error_message),
            opt_text(checksum_error),
            opt_text(post_error),
        ),
{
    if result.status == DownloadStatus::Completed {
        if checksum_error.is_some() {
            return Outcome { status: DownloadStatus::Error, error_message: checksum_error };
        }
        if post_error.is_some() {
            return Outcome { status: DownloadStatus::Error, error_message: post_error };
        }
    }
    Outcome { status: result.status, error_message: result.error_message }
}

/// A download counts as complete only where it was fetched, its digest was not found wrong and what
/// follows it went well.
pub proof fn law_complete_means_all_went_well(
    status: DownloadStatus,
    message: Option<Seq<char>>,
    checksum: Option<Seq<char>>,
    post: Option<Seq<char>>,
)
    ensures
        outcome_view(status, message, checksum, post).0 == DownloadStatus::Completed <==> status
            == DownloadStatus::Completed && checksum is None && post is None,
{
}

/// A download that was fetched fails with what is wrong with its file, or else with what went wrong
/// behind it; one that was not fetched keeps its own status and message, whatever else is said.
pub proof fn law_the_first_fault_is_told(
    status: DownloadStatus,
    message: Option<Seq<char>>,
    checksum: Option<Seq<char>>,
    post: Option<Seq<char>>,
)
    ensures
        ({
            let (after, told) = outcome_view(status, message, checksum, post);
            &&& status == DownloadStatus::Completed && checksum is Some ==> after
                == DownloadStatus::Error && told == checksum
            &&& status == DownloadStatus::Completed && checksum is None && post is Some ==> after
                == DownloadStatus::Error && told == post
            &&& status == DownloadStatus::Completed && checksum is None && post is None ==> after
                == status && told == message
            &&& status != DownloadStatus::Completed ==> after == status && told == message
        }),
{
}

} // verus!
