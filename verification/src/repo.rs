//! A repository: where it is, and the questions that can be asked of its history.
//!
//! Reading the repository is the caller's part. What was read is handed in as plain data: ids,
//! the raw data of objects, and the words of a failure. An operation that reads as it goes is a
//! task, which says what it needs next.

use crate::collect::{first_of, CollectState, CollectTask};
use crate::commit::{
    commit_parents, commit_seconds, decode_commit, decoded, describe, info_of, read_parents,
    CommitInfo, InfoView,
};
use crate::error::{outcome, outcome_view, ErrorView, GmapError};
use crate::oid::{from_hex, hex_text, parsed_hex, ObjectId};
use crate::range::{
    clock_for, date_reading, end_instant, ends_representable, is_settled, on_clock, range_between,
    resolve_range_at, Bound, DateRange,
};
use crate::stats::{find_error, find_error_view, StatsRequest, StatsState, StatsTask};
use crate::text::join2;
use crate::timestamp::{shown_by_clock, Timestamp};
use crate::walk::{ListState, ListTask};
use vstd::prelude::*;
use vstd::string::StringSliceAdditionalSpecFns;

verus! {

/// A repository, known by its path.
#[derive(Debug)]
pub struct GitRepo<P> {
    path: P,
}

/// The id that a text writes, or the error of reading it.
pub open spec fn commit_id_of(text: Seq<u8>) -> Result<Seq<u8>, ErrorView> {
    match parsed_hex(text) {
        Ok(id) => Ok(id),
        Err(message) => Err(ErrorView::Parse("Invalid commit ID: "@ + message)),
    }
}

/// The id of a commit from its hexadecimal form.
pub fn parse_commit_id(text: &str) -> (r: Result<ObjectId, GmapError>)
    ensures
        outcome_view(r) == commit_id_of(text.spec_bytes()),
{
    match from_hex(text.as_bytes()) {
        Ok(id) => Ok(id),
        Err(message) => Err(GmapError::Parse(join2("Invalid commit ID: ", message.as_str()))),
    }
}

/// What a commit shows to a user under the id `id`, from its data or from the failure to find
/// it.
pub open spec fn found_info(id: Seq<char>, found: Result<Vec<u8>, String>) -> Result<
    InfoView,
    ErrorView,
> {
    match found {
        Err(message) => Err(ErrorView::Git(message@)),
        Ok(data) => match decoded(data@) {
            Ok(meta) => Ok(info_of(id, meta)),
            Err(e) => Err(e),
        },
    }
}

/// What is found where something was looked for, with the commit that refers to it where there
/// is one.
pub fn find_commit_with_context(
    found: Result<Vec<u8>, String>,
    from_commit: Option<&str>,
) -> (r: Result<Vec<u8>, GmapError>)
    ensures
        match found {
            Ok(data) => r == Ok::<Vec<u8>, GmapError>(data),
            Err(message) => r is Err && r->Err_0@ == find_error_view(
                message@,
                match from_commit {
                    Some(commit) => Some(commit@),
                    None => None,
                },
            ),
        },
{
    match found {
        Ok(data) => Ok(data),
        Err(message) => Err(find_error(message, from_commit)),
    }
}

impl<P> GitRepo<P> {
    /// Where the repository is.
    pub closed spec fn location(self) -> P {
        self.path
    }

    /// A repository with this work tree, if it has one, and this directory of its own.
    pub fn open(workdir: Option<P>, git_dir: P) -> (r: GitRepo<P>)
        ensures
            r.location() == match workdir {
                Some(dir) => dir,
                None => git_dir,
            },
    {
        GitRepo {
            path: match workdir {
                Some(dir) => dir,
                None => git_dir,
            },
        }
    }

    /// The path of the repository: its work tree, or its own directory where it has none.
    pub fn path(&self) -> (r: &P)
        ensures
            *r == self.location(),
    {
        &self.path
    }

    /// The range between two ends by the present clock; `None` where an end names an instant
    /// that cannot be represented. The clock is read only for an end that is counted back from
    /// now.
    pub fn resolve_range(&self, since: Option<Bound>, until: Option<Bound>) -> (r: Option<
        Result<DateRange, GmapError>,
    >)
        ensures
            exists|since_now: Timestamp, until_now: Timestamp| #[trigger]
                on_clock(since_now) && #[trigger] on_clock(until_now) && (since is Some
                    && date_reading(since->0.text@) is Ago ==> shown_by_clock(since_now)) && (
                until is Some && date_reading(until->0.text@) is Ago && end_instant(
                    since,
                    since_now,
                ) is Ok && (since is Some ==> since->0.representable(since_now))
                    ==> shown_by_clock(until_now)) && (r is Some
                    <==> ends_representable(since, until, since_now, until_now)) && (r is Some
                    ==> outcome(r->0) == range_between(since, until, since_now, until_now)),
    {
        let since_now = clock_for(&since);
        // Where the first end is in error the second does not matter, and needs no clock.
        let until_now = if is_settled(&since, since_now) {
            clock_for(&until)
        } else {
            since_now
        };
        assert(on_clock(since_now) && on_clock(until_now));
        resolve_range_at(&since, &until, since_now, until_now)
    }

    /// Starts a collection of the statistics of the wanted commits of the history of `head`,
    /// which may have failed to be found.
    pub fn collect_commits(
        &self,
        head: Result<ObjectId, String>,
        range: &DateRange,
        include_merges: bool,
        binary: bool,
    ) -> (r: Result<CollectTask, GmapError>)
        ensures
            r is Ok ==> r->Ok_0.wf(),
            match head {
                Ok(id) => r is Ok && r->Ok_0@ == CollectState::start(
                    id,
                    *range,
                    include_merges,
                    binary,
                ),
                Err(message) => r is Err && r->Err_0@ == ErrorView::Git(message@),
            },
    {
        match head {
            Ok(id) => Ok(CollectTask::new(id, range, include_merges, binary)),
            Err(message) => Err(GmapError::Git(message)),
        }
    }

    /// Starts a listing of the wanted commits of the history of `head`, which may have failed to
    /// be found.
    pub fn list_commit_ids(
        &self,
        head: Result<ObjectId, String>,
        range: &DateRange,
        include_merges: bool,
    ) -> (r: Result<ListTask, GmapError>)
        ensures
            match head {
                Ok(id) => r is Ok && r->Ok_0@ == ListState::start(id, *range, include_merges),
                Err(message) => r is Err && r->Err_0@ == ErrorView::Git(message@),
            },
    {
        match head {
            Ok(id) => Ok(ListTask::new(id, range, include_merges)),
            Err(message) => Err(GmapError::Git(message)),
        }
    }

    /// What the commit with the id `commit_id`, in hexadecimal, shows to a user, from its data or
    /// from the failure to find it. Neither matters where `commit_id` is no id.
    pub fn get_commit_info(&self, commit_id: &str, found: Result<Vec<u8>, String>) -> (r: Result<
        CommitInfo,
        GmapError,
    >)
        ensures
            outcome_view(r) == match commit_id_of(commit_id.spec_bytes()) {
                Ok(_) => found_info(commit_id@, found),
                Err(e) => Err(e),
            },
            r is Ok ==> {
                let info = r->Ok_0;
                let parents = commit_parents(found->Ok_0@);
                &&& found is Ok
                &&& info.id@ == commit_id@
                &&& info.parent_ids@.len() == parents.len()
                &&& forall|i: int|
                    0 <= i < parents.len() ==> (#[trigger] info.parent_ids@[i])@ == hex_text(
                        parents[i]@,
                    )
                &&& commit_seconds(found->Ok_0@) == Ok::<i64, Seq<char>>(info.timestamp.secs)
                &&& info.timestamp.nanos == 0
            },
    {
        if let Err(e) = parse_commit_id(commit_id) {
            return Err(e);
        }
        let data = match find_commit_with_context(found, None) {
            Ok(data) => data,
            Err(e) => return Err(e),
        };
        match decode_commit(data.as_slice()) {
            Ok(meta) => Ok(describe(commit_id.to_owned(), meta)),
            Err(e) => Err(e),
        }
    }

    /// Starts the computation of the statistics of one commit, compared with its first parent
    /// where it has one, from its data or from the failure to find it.
    pub fn compute_commit_stats_for(
        &self,
        commit_id: ObjectId,
        found: Result<Vec<u8>, String>,
        binary: bool,
    ) -> (r: Result<StatsTask, GmapError>)
        ensures
            r is Ok ==> r->Ok_0.wf(),
            match found {
                Ok(data) => r is Ok && r->Ok_0@ == StatsState::start(
                    commit_id,
                    first_of(commit_parents(data@)),
                    binary,
                ),
                Err(message) => r is Err && r->Err_0@ == ErrorView::Git(message@),
            },
            r is Ok ==> r->Ok_0@.request() == (StatsRequest::Diff {
                commit: commit_id,
                parent: if commit_parents(found->Ok_0@).len() > 0 {
                    Some(commit_parents(found->Ok_0@)[0])
                } else {
                    None
                },
            }),
    {
        let data = match find_commit_with_context(found, None) {
            Ok(data) => data,
            Err(e) => return Err(e),
        };
        let parents = read_parents(data.as_slice());
        let parent = if parents.len() > 0 {
            Some(parents[0])
        } else {
            None
        };
        Ok(StatsTask::new(commit_id, parent, binary))
    }
}

} // verus!
