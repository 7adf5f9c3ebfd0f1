//! The walk over history: from the head through the parents, each commit once.

use crate::commit::{commit_parents, committed_at, read_parents, read_timestamp};
use crate::error::{outcome, ErrorView, GmapError};
use crate::id_set::IdSet;
use crate::oid::ObjectId;
use crate::range::DateRange;
use crate::timestamp::Timestamp;
use vstd::prelude::*;

verus! {

/// How far a walk has come.
#[verifier::ext_equal]
pub ghost struct WalkState {
    /// The commits still to be looked at, the next one last.
    pub stack: Seq<ObjectId>,
    /// The commits that were asked for.
    pub seen: Set<ObjectId>,
    /// The commit that was asked for and not yet supplied.
    pub current: Option<ObjectId>,
}

impl WalkState {
    /// The walk that starts at `head`.
    pub open spec fn start(head: ObjectId) -> WalkState {
        WalkState { stack: seq![head], seen: Set::empty(), current: None }
    }

    /// The walk once it has gone on to the next commit that it has not seen, if there is one.
    pub open spec fn next(self) -> WalkState
        decreases self.stack.len(),
    {
        if self.stack.len() == 0 {
            WalkState { current: None, ..self }
        } else if self.seen.contains(self.stack.last()) {
            WalkState { stack: self.stack.drop_last(), ..self }.next()
        } else {
            WalkState {
                stack: self.stack.drop_last(),
                seen: self.seen.insert(self.stack.last()),
                current: Some(self.stack.last()),
            }
        }
    }

    /// The walk once the parents of the commit at hand are known.
    pub open spec fn with_parents(self, parents: Seq<ObjectId>) -> WalkState {
        WalkState { stack: self.stack + parents, current: None, ..self }
    }
}

/// A walk over history. It looks at the last parent of a commit first, and at all that comes
/// before it, then at the parent before.
#[derive(Debug)]
pub struct CommitWalk {
    stack: Vec<ObjectId>,
    seen: IdSet,
    current: Option<ObjectId>,
}

impl View for CommitWalk {
    type V = WalkState;

    closed spec fn view(&self) -> WalkState {
        WalkState { stack: self.stack@, seen: self.seen@, current: self.current }
    }
}

impl CommitWalk {
    /// Starts a walk at `head`.
    pub fn new(head: ObjectId) -> (r: CommitWalk)
        ensures
            r@ == WalkState::start(head),
    {
        let mut stack: Vec<ObjectId> = Vec::new();
        stack.push(head);
        let r = CommitWalk { stack, seen: IdSet::new(), current: None };
        assert(r@ =~= WalkState::start(head));
        r
    }

    /// The commit that the walk is at.
    pub fn current(&self) -> (r: Option<ObjectId>)
        ensures
            r == self@.current,
    {
        self.current
    }

    /// Goes on to the next commit that was not seen, if there is one.
    pub fn next(&mut self) -> (r: Option<ObjectId>)
        ensures
            final(self)@ == old(self)@.next(),
            r == final(self)@.current,
    {
        loop
            invariant
                self@.next() == old(self)@.next(),
            decreases self@.stack.len(),
        {
            let ghost before = self@;
            match self.stack.pop() {
                Some(id) => {
                    if self.seen.insert(id) {
                        self.current = Some(id);
                        assert(self@ =~= before.next());
                        return self.current;
                    }
                    proof {
                        assert(self.seen@ =~= before.seen);
                        assert(self@ =~= (WalkState { stack: before.stack.drop_last(), ..before }));
                    }
                },
                None => {
                    self.current = None;
                    assert(self@ =~= before.next());
                    return None;
                },
            }
        }
    }

    /// Takes the parents of the commit at hand.
    pub fn supply_parents(&mut self, parents: &Vec<ObjectId>)
        ensures
            final(self)@ == old(self)@.with_parents(parents@),
    {
        let ghost before = self@;
        let mut i: usize = 0;
        while i < parents.len()
            invariant
                i <= parents@.len(),
                self@ == (WalkState { stack: before.stack + parents@.take(i as int), ..before }),
            decreases parents@.len() - i,
        {
            let ghost so_far = self@;
            self.stack.push(parents[i]);
            proof {
                assert(parents@.take(i + 1) == parents@.take(i as int).push(parents@[i as int]));
                assert(self@.stack =~= before.stack + parents@.take(i + 1));
                assert(self@ =~= (WalkState {
                    stack: before.stack + parents@.take(i + 1),
                    ..before
                }));
            }
            i += 1;
        }
        self.current = None;
        assert(parents@.take(i as int) == parents@);
        assert(self@ =~= before.with_parents(parents@));
    }
}

/// Whether a commit made at `at` with that many parents is wanted: it lies in the range, and
/// it is no merge unless merges are wanted.
pub open spec fn wanted(range: DateRange, include_merges: bool, at: Timestamp, parents: nat) -> bool {
    range.has(at) && (include_merges || parents <= 1)
}

/// Whether a commit made at `at` with that many parents is wanted.
pub fn is_wanted(range: &DateRange, include_merges: bool, at: &Timestamp, parents: usize) -> (r: bool)
    ensures
        r == wanted(*range, include_merges, *at, parents as nat),
        r <==> {
            &&& range.since is Some ==> range.since->0.secs < at.secs || (range.since->0.secs
                == at.secs && range.since->0.nanos <= at.nanos)
            &&& range.until is Some ==> at.secs < range.until->0.secs || (at.secs
                == range.until->0.secs && at.nanos <= range.until->0.nanos)
            &&& include_merges || parents <= 1
        },
{
    range.contains(at) && (include_merges || parents <= 1)
}

/// How far a listing of commits has come.
#[verifier::ext_equal]
pub ghost struct ListState {
    pub range: DateRange,
    pub include_merges: bool,
    pub walk: WalkState,
    /// The wanted commits so far.
    pub ids: Seq<ObjectId>,
}

impl ListState {
    /// The listing that starts at `head`.
    pub open spec fn start(head: ObjectId, range: DateRange, include_merges: bool) -> ListState {
        ListState { range, include_merges, walk: WalkState::start(head), ids: Seq::empty() }
    }

    /// The listing once it has gone on to the next commit.
    pub open spec fn next(self) -> ListState {
        ListState { walk: self.walk.next(), ..self }
    }

    /// The listing once the commit at hand is known to be made at `at`, with these parents.
    pub open spec fn with_commit(self, at: Timestamp, parents: Seq<ObjectId>) -> ListState {
        ListState {
            walk: self.walk.with_parents(parents),
            ids: if wanted(self.range, self.include_merges, at, parents.len()) {
                self.ids.push(self.walk.current->0)
            } else {
                self.ids
            },
            ..self
        }
    }

    /// The listing once the data of the commit at hand is read, or the error of reading it.
    pub open spec fn with_data(self, data: Seq<u8>) -> Result<ListState, ErrorView> {
        match committed_at(data) {
            Ok(at) => Ok(self.with_commit(at, commit_parents(data))),
            Err(e) => Err(e),
        }
    }
}

/// A listing of the wanted commits of a history. It says by `next` which commit it needs,
/// takes its data by `supply_commit`, and gives the ids by `finish` when it needs no more.
#[derive(Debug)]
pub struct ListTask {
    range: DateRange,
    include_merges: bool,
    walk: CommitWalk,
    ids: Vec<ObjectId>,
}

impl View for ListTask {
    type V = ListState;

    closed spec fn view(&self) -> ListState {
        ListState {
            range: self.range,
            include_merges: self.include_merges,
            walk: self.walk@,
            ids: self.ids@,
        }
    }
}

impl ListTask {
    /// Starts a listing at `head`.
    pub fn new(head: ObjectId, range: &DateRange, include_merges: bool) -> (r: ListTask)
        ensures
            r@ == ListState::start(head, *range, include_merges),
    {
        let r = ListTask {
            range: *range,
            include_merges,
            walk: CommitWalk::new(head),
            ids: Vec::new(),
        };
        assert(r@ =~= ListState::start(head, *range, include_merges));
        r
    }

    /// Goes on to the next commit, and tells which one's data is needed; `None` at the end.
    pub fn next(&mut self) -> (r: Option<ObjectId>)
        ensures
            final(self)@ == old(self)@.next(),
            r == final(self)@.walk.current,
    {
        self.walk.next()
    }

    /// Takes the data of the commit that was asked for, or the failure to find it.
    pub fn supply_commit(&mut self, reply: Result<Vec<u8>, String>) -> (r: Result<(), GmapError>)
        requires
            old(self)@.walk.current is Some,
        ensures
            match reply {
                Ok(data) => match old(self)@.with_data(data@) {
                    Ok(state) => r is Ok && final(self)@ == state,
                    Err(e) => {
                        &&& outcome(r) == Err::<(), ErrorView>(e)
                        &&& final(self)@ == old(self)@
                    },
                },
                Err(message) => {
                    &&& outcome(r) == Err::<(), ErrorView>(ErrorView::Git(message@))
                    &&& final(self)@ == old(self)@
                },
            },
    {
        let data = match reply {
            Ok(data) => data,
            Err(message) => return Err(GmapError::Git(message)),
        };
        let at = match read_timestamp(data.as_slice()) {
            Ok(at) => at,
            Err(e) => return Err(e),
        };
        let parents = read_parents(data.as_slice());
        if is_wanted(&self.range, self.include_merges, &at, parents.len()) {
            if let Some(id) = self.walk.current() {
                self.ids.push(id);
            }
        }
        self.walk.supply_parents(&parents);
        Ok(())
    }

    /// The ids of the wanted commits, in the order in which the walk came to them.
    pub fn finish(self) -> (r: Vec<ObjectId>)
        ensures
            r@ == self@.ids,
    {
        self.ids
    }
}

} // verus!
