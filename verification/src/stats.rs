//! The statistics of one commit, computed from what the repository answers step by step.

use crate::blob::{can_diff, is_binary_object};
use crate::change::{
    change_files, comparable, data_view, files_view, handle_change, objects_of, Change, ChangeView,
    FileStats, FileView,
};
use crate::error::{outcome, ErrorView, GmapError};
use crate::oid::{hex_text, to_hex, ObjectId};
use crate::text::join3;
use vstd::prelude::*;

verus! {

/// What a commit did to each file it touched.
#[derive(Debug, PartialEq, Eq)]
pub struct CommitStats {
    pub commit_id: String,
    pub files: Vec<FileStats>,
}

/// The contents of a `CommitStats`.
#[verifier::ext_equal]
pub ghost struct StatsView {
    pub commit_id: Seq<char>,
    pub files: Seq<FileView>,
}

impl View for CommitStats {
    type V = StatsView;

    open spec fn view(&self) -> StatsView {
        StatsView { commit_id: self.commit_id@, files: files_view(self.files@) }
    }
}

/// Why a commit could not be compared with its parent, in the words of the repository.
#[derive(Debug)]
pub enum DiffFailure {
    /// One of the two commits was not found.
    MissingCommit(String),
    /// Their trees could not be read or compared.
    Unreadable(String),
}

/// The error of failing to find something that `commit` refers to.
pub open spec fn missing_error(message: Seq<char>, commit: Seq<char>) -> ErrorView {
    ErrorView::Other(
        "Object find error: "@ + message + " (referenced from commit "@ + commit + ")"@,
    )
}

/// The error of failing to compare a commit with its parent.
pub open spec fn diff_error(failure: DiffFailure, commit: Seq<char>) -> ErrorView {
    match failure {
        DiffFailure::MissingCommit(message) => missing_error(message@, commit),
        DiffFailure::Unreadable(message) => ErrorView::Git(message@),
    }
}

/// The error of failing to find something, with the commit that refers to it where there is
/// one.
pub open spec fn find_error_view(message: Seq<char>, from_commit: Option<Seq<char>>) -> ErrorView {
    match from_commit {
        Some(commit) => missing_error(message, commit),
        None => ErrorView::Git(message),
    }
}

/// The error of failing to find something, with the commit that refers to it where there is
/// one.
pub fn find_error(message: String, from_commit: Option<&str>) -> (r: GmapError)
    ensures
        r@ == find_error_view(
            message@,
            match from_commit {
                Some(commit) => Some(commit@),
                None => None,
            },
        ),
{
    match from_commit {
        Some(commit) => {
            let what = join3("Object find error: ", message.as_str(), " (referenced from commit ");
            GmapError::Other(join3(what.as_str(), commit, ")"))
        },
        None => GmapError::Git(message),
    }
}

/// What the computation of a commit's statistics needs next from the repository.
#[derive(Clone, Copy, Debug, PartialEq, Eq)]
pub enum StatsRequest {
    /// The changes from the tree of `parent`, or from the empty tree, to that of `commit`.
    Diff { commit: ObjectId, parent: Option<ObjectId> },
    /// The data of an object.
    Object(ObjectId),
    /// Nothing: the statistics are complete.
    Done,
}

/// How far the computation of a commit's statistics has come.
#[verifier::ext_equal]
pub ghost struct StatsState {
    pub commit: ObjectId,
    pub parent: Option<ObjectId>,
    pub binary: bool,
    /// The changes, once they are known.
    pub changes: Option<Seq<ChangeView>>,
    /// How many changes are done with.
    pub next: nat,
    /// The data of the objects already read for the change at hand.
    pub contents: Seq<Seq<u8>>,
    /// The statistics so far.
    pub files: Seq<FileView>,
}

impl StatsState {
    /// Whether a computation can be in this state.
    pub open spec fn wf(self) -> bool {
        match self.changes {
            None => self.next == 0 && self.contents.len() == 0 && self.files.len() == 0,
            Some(changes) => {
                &&& self.next <= changes.len()
                &&& self.next < changes.len() ==> self.contents.len() < objects_of(
                    changes[self.next as int],
                ).len()
                &&& self.next == changes.len() ==> self.contents.len() == 0
            },
        }
    }

    /// The state before anything is known of the commit.
    pub open spec fn start(commit: ObjectId, parent: Option<ObjectId>, binary: bool) -> StatsState {
        StatsState {
            commit,
            parent,
            binary,
            changes: None,
            next: 0,
            contents: Seq::empty(),
            files: Seq::empty(),
        }
    }

    /// What is needed next.
    pub open spec fn request(self) -> StatsRequest {
        match self.changes {
            None => StatsRequest::Diff { commit: self.commit, parent: self.parent },
            Some(changes) => if self.next < changes.len() {
                StatsRequest::Object(
                    objects_of(changes[self.next as int])[self.contents.len() as int],
                )
            } else {
                StatsRequest::Done
            },
        }
    }

    /// The state once the changes are known.
    pub open spec fn with_changes(self, changes: Seq<ChangeView>) -> StatsState {
        StatsState { changes: Some(changes), ..self }
    }

    /// The state once the object asked for is read: the change at hand is counted when its last
    /// object is there.
    pub open spec fn with_object(self, data: Seq<u8>) -> StatsState {
        let change = self.changes->0[self.next as int];
        let contents = self.contents.push(data);
        if contents.len() < objects_of(change).len() {
            StatsState { contents, ..self }
        } else {
            StatsState {
                next: self.next + 1,
                contents: Seq::empty(),
                files: self.files + change_files(change, contents, self.binary),
                ..self
            }
        }
    }

    /// Whether the data of the object asked for can be compared with what it is compared to.
    pub open spec fn accepts(self, data: Seq<u8>) -> bool {
        comparable(self.contents.push(data))
    }

    /// The statistics as they stand.
    pub open spec fn stats(self) -> StatsView {
        StatsView { commit_id: hex_text(self.commit@), files: self.files }
    }
}

/// The computation of a commit's statistics. It says by `request` what it needs of the
/// repository, takes the answer by `supply_diff` or `supply_object`, and gives the statistics
/// by `finish` when it needs no more.
#[derive(Debug)]
pub struct StatsTask {
    commit: ObjectId,
    parent: Option<ObjectId>,
    binary: bool,
    commit_hex: String,
    changes: Option<Vec<Change>>,
    next: usize,
    contents: Vec<Vec<u8>>,
    files: Vec<FileStats>,
}

/// The contents of changes.
pub open spec fn changes_view(changes: Seq<Change>) -> Seq<ChangeView> {
    changes.map_values(|c: Change| c@)
}

impl View for StatsTask {
    type V = StatsState;

    closed spec fn view(&self) -> StatsState {
        StatsState {
            commit: self.commit,
            parent: self.parent,
            binary: self.binary,
            changes: match self.changes {
                Some(changes) => Some(changes_view(changes@)),
                None => None,
            },
            next: self.next as nat,
            contents: data_view(self.contents@),
            files: files_view(self.files@),
        }
    }
}

impl StatsTask {
    /// Whether the task is in order: in a possible state, and named by its commit.
    pub closed spec fn wf(self) -> bool {
        self@.wf() && self.commit_hex@ == hex_text(self.commit@)
    }

    /// Starts the computation for `commit`, compared with `parent` or with nothing.
    pub fn new(commit: ObjectId, parent: Option<ObjectId>, binary: bool) -> (r: StatsTask)
        ensures
            r.wf(),
            r@ == StatsState::start(commit, parent, binary),
    {
        StatsTask {
            commit,
            parent,
            binary,
            commit_hex: to_hex(&commit),
            changes: None,
            next: 0,
            contents: Vec::new(),
            files: Vec::new(),
        }
    }

    /// What the computation needs next.
    pub fn request(&self) -> (r: StatsRequest)
        requires
            self.wf(),
        ensures
            r == self@.request(),
            self@.wf(),
    {
        match &self.changes {
            None => StatsRequest::Diff { commit: self.commit, parent: self.parent },
            Some(changes) => {
                if self.next < changes.len() {
                    let first = self.contents.len() == 0;
                    assert(self@.changes->0[self.next as int] == changes[self.next as int]@);
                    match &changes[self.next] {
                        Change::Addition { id, .. } => StatsRequest::Object(*id),
                        Change::Deletion { id, .. } => StatsRequest::Object(*id),
                        Change::Modification { previous_id, id, .. } => {
                            if first {
                                StatsRequest::Object(*previous_id)
                            } else {
                                StatsRequest::Object(*id)
                            }
                        },
                        Change::Rewrite { source_id, id, .. } => {
                            if first {
                                StatsRequest::Object(*source_id)
                            } else {
                                StatsRequest::Object(*id)
                            }
                        },
                    }
                } else {
                    StatsRequest::Done
                }
            },
        }
    }

    /// Takes the changes that were asked for, or the failure to find them.
    pub fn supply_diff(&mut self, reply: Result<Vec<Change>, DiffFailure>) -> (r: Result<
        (),
        GmapError,
    >)
        requires
            old(self).wf(),
            old(self)@.request() is Diff,
        ensures
            final(self).wf(),
            match reply {
                Ok(changes) => {
                    &&& r is Ok
                    &&& final(self)@ == old(self)@.with_changes(changes_view(changes@))
                },
                Err(failure) => {
                    &&& outcome(r) == Err::<(), ErrorView>(
                        diff_error(failure, hex_text(old(self)@.commit@)),
                    )
                    &&& final(self)@ == old(self)@
                },
            },
    {
        match reply {
            Ok(changes) => {
                proof {
                    assert forall|c: ChangeView| #[trigger] objects_of(c).len() > 0 by {}
                }
                self.changes = Some(changes);
                Ok(())
            },
            Err(DiffFailure::MissingCommit(message)) => Err(
                find_error(message, Some(self.commit_hex.as_str())),
            ),
            Err(DiffFailure::Unreadable(message)) => Err(find_error(message, None)),
        }
    }

    /// Whether `supply_object` can take this data for the object that was asked for.
    pub fn can_accept(&self, data: &[u8]) -> (r: bool)
        ensures
            r == self@.accepts(data@),
    {
        if self.contents.len() != 1 {
            return true;
        }
        assert(self@.contents.push(data@)[0] == self.contents@[0]@);
        is_binary_object(self.contents[0].as_slice()) || is_binary_object(data) || can_diff(
            self.contents[0].as_slice(),
            data,
        )
    }

    /// Takes the data of the object that was asked for, or the failure to find it.
    pub fn supply_object(&mut self, reply: Result<Vec<u8>, String>) -> (r: Result<(), GmapError>)
        requires
            old(self).wf(),
            old(self)@.request() is Object,
            reply is Ok ==> old(self)@.accepts(reply->Ok_0@),
        ensures
            final(self).wf(),
            match reply {
                Ok(data) => r is Ok && final(self)@ == old(self)@.with_object(data@),
                Err(message) => {
                    &&& outcome(r) == Err::<(), ErrorView>(
                        missing_error(message@, hex_text(old(self)@.commit@)),
                    )
                    &&& final(self)@ == old(self)@
                },
            },
    {
        let data = match reply {
            Ok(data) => data,
            Err(message) => return Err(find_error(message, Some(self.commit_hex.as_str()))),
        };
        let ghost before = *self;
        self.contents.push(data);
        proof {
            assert(self@.contents =~= before@.contents.push(data@));
        }
        if let Some(changes) = &self.changes {
            let change = &changes[self.next];
            assert(self@.changes->0[self.next as int] == change@);
            let wanted: usize = match change {
                Change::Addition { .. } => 1,
                Change::Deletion { .. } => 1,
                Change::Modification { .. } => 2,
                Change::Rewrite { .. } => 2,
            };
            assert(wanted == objects_of(change@).len());
            assert(self.next < changes.len());
            if self.contents.len() == wanted {
                handle_change(change, &self.contents, self.binary, &mut self.files);
                self.contents = Vec::new();
                self.next += 1;
                proof {
                    assert(self@.contents =~= Seq::empty());
                    assert(self@ =~= before@.with_object(data@));
                    assert forall|c: ChangeView| #[trigger] objects_of(c).len() > 0 by {}
                }
            }
        }
        Ok(())
    }

    /// The statistics, once nothing more is needed.
    pub fn finish(self) -> (r: CommitStats)
        requires
            self.wf(),
            self@.request() is Done,
        ensures
            r@ == self@.stats(),
    {
        CommitStats { commit_id: self.commit_hex, files: self.files }
    }
}

} // verus!
