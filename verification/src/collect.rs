//! The statistics of every wanted commit of a history.

use crate::change::Change;
use crate::commit::{commit_parents, decode_commit, decoded, MetaView};
use crate::error::{outcome, ErrorView, GmapError};
use crate::oid::{hex_text, ObjectId};
use crate::range::DateRange;
use crate::stats::{
    changes_view, diff_error, missing_error, CommitStats, DiffFailure, StatsRequest, StatsState,
    StatsTask, StatsView,
};
use crate::walk::{is_wanted, wanted, CommitWalk, WalkState};
use vstd::prelude::*;

verus! {

/// What a collection of statistics needs next from the repository.
#[derive(Clone, Copy, Debug, PartialEq, Eq)]
pub enum CollectRequest {
    /// The data of a commit.
    Commit(ObjectId),
    /// The changes from the tree of `parent`, or from the empty tree, to that of `commit`.
    Diff { commit: ObjectId, parent: Option<ObjectId> },
    /// The data of an object.
    Object(ObjectId),
    /// Nothing: the collection is complete.
    Done,
}

/// How far a collection of statistics has come.
#[verifier::ext_equal]
pub ghost struct CollectState {
    pub range: DateRange,
    pub include_merges: bool,
    pub binary: bool,
    pub walk: WalkState,
    /// The statistics that are being computed, if any are.
    pub task: Option<StatsState>,
    /// The statistics so far.
    pub commits: Seq<StatsView>,
}

/// The first of some ids, if there are any.
pub open spec fn first_of(ids: Seq<ObjectId>) -> Option<ObjectId> {
    if ids.len() > 0 {
        Some(ids[0])
    } else {
        None
    }
}

impl CollectState {
    /// The collection that starts at `head`.
    pub open spec fn start(
        head: ObjectId,
        range: DateRange,
        include_merges: bool,
        binary: bool,
    ) -> CollectState {
        CollectState {
            range,
            include_merges,
            binary,
            walk: WalkState::start(head),
            task: None,
            commits: Seq::empty(),
        }
    }

    /// The collection with its finished statistics put away.
    pub open spec fn settled(self) -> CollectState {
        if self.task is Some && self.task->0.request() is Done {
            CollectState { task: None, commits: self.commits.push(self.task->0.stats()), ..self }
        } else {
            self
        }
    }

    /// The collection once it has gone on to what it needs next: it finishes the statistics at
    /// hand, then goes on to the next commit.
    pub open spec fn advanced(self) -> CollectState {
        let settled = self.settled();
        if settled.task is Some {
            settled
        } else {
            CollectState { walk: settled.walk.next(), ..settled }
        }
    }

    /// What the collection needs, where it has gone on to what it needs next.
    pub open spec fn request(self) -> CollectRequest {
        match self.task {
            Some(task) => match task.request() {
                StatsRequest::Diff { commit, parent } => CollectRequest::Diff { commit, parent },
                StatsRequest::Object(id) => CollectRequest::Object(id),
                StatsRequest::Done => CollectRequest::Done,
            },
            None => match self.walk.current {
                Some(id) => CollectRequest::Commit(id),
                None => CollectRequest::Done,
            },
        }
    }

    /// The collection once the commit at hand is read: where it is wanted, its statistics are
    /// next, compared with its first parent.
    pub open spec fn with_commit(self, meta: MetaView) -> CollectState {
        CollectState {
            walk: self.walk.with_parents(meta.parent_ids),
            task: if wanted(
                self.range,
                self.include_merges,
                meta.timestamp,
                meta.parent_ids.len(),
            ) {
                Some(
                    StatsState::start(
                        self.walk.current->0,
                        first_of(meta.parent_ids),
                        self.binary,
                    ),
                )
            } else {
                None
            },
            ..self
        }
    }

    /// The collection once the data of the commit at hand is read, or the error of reading it.
    pub open spec fn with_data(self, data: Seq<u8>) -> Result<CollectState, ErrorView> {
        match decoded(data) {
            Ok(meta) => Ok(self.with_commit(meta)),
            Err(e) => Err(e),
        }
    }

    /// The collection with other statistics at hand.
    pub open spec fn with_task(self, task: StatsState) -> CollectState {
        CollectState { task: Some(task), ..self }
    }
}

/// A collection of the statistics of every wanted commit of a history. It says by `request`
/// what it needs of the repository, takes the answer by the matching `supply` method, and gives
/// the statistics by `finish` when it needs no more.
#[derive(Debug)]
pub struct CollectTask {
    range: DateRange,
    include_merges: bool,
    binary: bool,
    walk: CommitWalk,
    task: Option<StatsTask>,
    commits: Vec<CommitStats>,
}

/// The contents of statistics.
pub open spec fn stats_view(commits: Seq<CommitStats>) -> Seq<StatsView> {
    commits.map_values(|c: CommitStats| c@)
}

impl View for CollectTask {
    type V = CollectState;

    closed spec fn view(&self) -> CollectState {
        CollectState {
            range: self.range,
            include_merges: self.include_merges,
            binary: self.binary,
            walk: self.walk@,
            task: match self.task {
                Some(task) => Some(task@),
                None => None,
            },
            commits: stats_view(self.commits@),
        }
    }
}

impl CollectTask {
    /// Whether the collection is in order.
    pub closed spec fn wf(self) -> bool {
        self.task is Some ==> self.task->0.wf() && self.walk@.current is None
    }

    /// Starts a collection at `head`.
    pub fn new(head: ObjectId, range: &DateRange, include_merges: bool, binary: bool) -> (r:
        CollectTask)
        ensures
            r.wf(),
            r@ == CollectState::start(head, *range, include_merges, binary),
    {
        let r = CollectTask {
            range: *range,
            include_merges,
            binary,
            walk: CommitWalk::new(head),
            task: None,
            commits: Vec::new(),
        };
        assert(r@ =~= CollectState::start(head, *range, include_merges, binary));
        r
    }

    /// Goes on to what the collection needs next, and tells what it is.
    pub fn request(&mut self) -> (r: CollectRequest)
        requires
            old(self).wf(),
        ensures
            final(self).wf(),
            final(self)@ == old(self)@.advanced(),
            r == final(self)@.request(),
    {
        let ghost before = self@;
        let task = self.task.take();
        match task {
            Some(task) => match task.request() {
                StatsRequest::Diff { commit, parent } => {
                    self.task = Some(task);
                    assert(self@ =~= before.advanced());
                    return CollectRequest::Diff { commit, parent };
                },
                StatsRequest::Object(id) => {
                    self.task = Some(task);
                    assert(self@ =~= before.advanced());
                    return CollectRequest::Object(id);
                },
                StatsRequest::Done => {
                    let ghost commits = self.commits@;
                    self.commits.push(task.finish());
                    assert(stats_view(self.commits@) =~= stats_view(commits).push(task@.stats()));
                },
            },
            None => {},
        }
        assert(self@ =~= before.settled());
        match self.walk.next() {
            Some(id) => CollectRequest::Commit(id),
            None => CollectRequest::Done,
        }
    }

    /// Takes the data of the commit that was asked for, or the failure to find it.
    pub fn supply_commit(&mut self, reply: Result<Vec<u8>, String>) -> (r: Result<(), GmapError>)
        requires
            old(self).wf(),
            old(self)@.request() is Commit,
        ensures
            final(self).wf(),
            match reply {
                Ok(data) => match old(self)@.with_data(data@) {
                    Ok(state) => {
                        &&& r is Ok
                        &&& final(self)@ == state
                        &&& final(self)@.task is Some ==> final(self)@.request() == (
                        CollectRequest::Diff {
                            commit: old(self)@.walk.current->0,
                            parent: if commit_parents(data@).len() > 0 {
                                Some(commit_parents(data@)[0])
                            } else {
                                None
                            },
                        })
                    },
                    Err(e) => {
                        &&& outcome(r) == Err::<(), ErrorView>(e)
                        &&& final(self)@ == old(self)@
                    },
                },
                Err(message) => {
                    &&& outcome(r) == Err::<(), ErrorView>(ErrorView::Git(message@))
                    &&& final(self)@ == old(self)@
                },
            },
    {
        let ghost before = self@;
        let data = match reply {
            Ok(data) => data,
            Err(message) => return Err(GmapError::Git(message)),
        };
        let meta = match decode_commit(data.as_slice()) {
            Ok(meta) => meta,
            Err(e) => return Err(e),
        };
        if is_wanted(
            &self.range,
            self.include_merges,
            &meta.timestamp,
            meta.parent_ids.len(),
        ) {
            if let Some(id) = self.walk.current() {
                let parent = if meta.parent_ids.len() > 0 {
                    Some(meta.parent_ids[0])
                } else {
                    None
                };
                self.task = Some(StatsTask::new(id, parent, self.binary));
            }
        }
        self.walk.supply_parents(&meta.parent_ids);
        assert(self@ =~= before.with_commit(meta@));
        Ok(())
    }

    /// Takes the changes that were asked for, or the failure to find them.
    pub fn supply_diff(&mut self, reply: Result<Vec<Change>, DiffFailure>) -> (r: Result<
        (),
        GmapError,
    >)
        requires
            old(self).wf(),
            old(self)@.request() is Diff,
        ensures
            final(self).wf(),
            match reply {
                Ok(changes) => {
                    &&& r is Ok
                    &&& final(self)@ == old(self)@.with_task(
                        old(self)@.task->0.with_changes(changes_view(changes@)),
                    )
                },
                Err(failure) => {
                    &&& outcome(r) == Err::<(), ErrorView>(
                        diff_error(failure, hex_text(old(self)@.task->0.commit@)),
                    )
                    &&& final(self)@ == old(self)@
                },
            },
    {
        let ghost before = self@;
        let task = self.task.take();
        match task {
            Some(task) => {
                let mut task = task;
                let r = task.supply_diff(reply);
                self.task = Some(task);
                assert(self@ =~= before.with_task(task@));
                r
            },
            None => Ok(()),
        }
    }

    /// Whether `supply_object` can take this data for the object that was asked for.
    pub fn can_accept(&self, data: &[u8]) -> (r: bool)
        ensures
            r == (self@.task is Some ==> self@.task->0.accepts(data@)),
    {
        match &self.task {
            Some(task) => task.can_accept(data),
            None => true,
        }
    }

    /// Takes the data of the object that was asked for, or the failure to find it.
    pub fn supply_object(&mut self, reply: Result<Vec<u8>, String>) -> (r: Result<(), GmapError>)
        requires
            old(self).wf(),
            old(self)@.request() is Object,
            reply is Ok ==> old(self)@.task->0.accepts(reply->Ok_0@),
        ensures
            final(self).wf(),
            match reply {
                Ok(data) => {
                    &&& r is Ok
                    &&& final(self)@ == old(self)@.with_task(
                        old(self)@.task->0.with_object(data@),
                    )
                },
                Err(message) => {
                    &&& outcome(r) == Err::<(), ErrorView>(
                        missing_error(message@, hex_text(old(self)@.task->0.commit@)),
                    )
                    &&& final(self)@ == old(self)@
                },
            },
    {
        let ghost before = self@;
        let task = self.task.take();
        match task {
            Some(task) => {
                let mut task = task;
                let r = task.supply_object(reply);
                self.task = Some(task);
                assert(self@ =~= before.with_task(task@));
                r
            },
            None => Ok(()),
        }
    }

    /// The statistics of the wanted commits, in the order in which the walk came to them.
    pub fn finish(self) -> (r: Vec<CommitStats>)
        ensures
            stats_view(r@) == self@.commits,
    {
        self.commits
    }
}

} // verus!
