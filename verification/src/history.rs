//! What a whole run over a history comes to.

use crate::commit::{commit_parents, committed_at};
use crate::oid::ObjectId;
use crate::range::DateRange;
use crate::walk::{wanted, ListState, WalkState};
use vstd::prelude::*;

verus! {

/// Whether `path[i]` is a parent of the commit before it.
pub open spec fn parent_step(
    commits: spec_fn(ObjectId) -> Seq<u8>,
    path: Seq<ObjectId>,
    i: int,
) -> bool {
    commit_parents(commits(path[i - 1])).contains(path[i])
}

/// Whether `path` leads from `head` to `id`, each commit followed by one of its parents.
pub open spec fn is_path(
    commits: spec_fn(ObjectId) -> Seq<u8>,
    head: ObjectId,
    id: ObjectId,
    path: Seq<ObjectId>,
) -> bool {
    &&& path.len() > 0
    &&& path.first() == head
    &&& path.last() == id
    &&& forall|i: int| 1 <= i < path.len() ==> #[trigger] parent_step(commits, path, i)
}

/// Whether `id` belongs to the history of `head`, where `commits` gives the data of commits.
pub open spec fn in_history(
    commits: spec_fn(ObjectId) -> Seq<u8>,
    head: ObjectId,
    id: ObjectId,
) -> bool {
    exists|path: Seq<ObjectId>| #[trigger] is_path(commits, head, id, path)
}

/// Whether the commit with this data is wanted.
pub open spec fn wanted_data(range: DateRange, include_merges: bool, data: Seq<u8>) -> bool {
    wanted(range, include_merges, committed_at(data)->Ok_0, commit_parents(data).len())
}

/// Whether `states[k]` follows the state before it: that one asks for a commit whose data can be
/// read, and is answered.
pub open spec fn listing_step(
    commits: spec_fn(ObjectId) -> Seq<u8>,
    states: Seq<ListState>,
    k: int,
) -> bool {
    let before = states[k - 1];
    let data = commits(before.walk.current->0);
    &&& before.walk.current is Some
    &&& committed_at(data) is Ok
    &&& states[k] == before.with_data(data)->Ok_0.next()
}

/// The states of a listing, each at the next commit, where `commits` gives the data of commits:
/// the listing goes on from each state but the last.
pub open spec fn is_listing(
    commits: spec_fn(ObjectId) -> Seq<u8>,
    head: ObjectId,
    range: DateRange,
    include_merges: bool,
    states: Seq<ListState>,
) -> bool {
    &&& states.len() > 0
    &&& states[0] == ListState::start(head, range, include_merges).next()
    &&& forall|k: int| 1 <= k < states.len() ==> #[trigger] listing_step(commits, states, k)
}

/// Whether a walk knows of `id`.
pub open spec fn knows(walk: WalkState, id: ObjectId) -> bool {
    walk.seen.contains(id) || walk.stack.contains(id)
}

/// Going on loses sight of nothing, comes to nothing that was seen before, and ends only when
/// nothing is left to look at.
pub proof fn lemma_next(walk: WalkState)
    ensures
        forall|id: ObjectId| knows(walk, id) <==> #[trigger] knows(walk.next(), id),
        match walk.next().current {
            Some(id) => {
                &&& !walk.seen.contains(id)
                &&& knows(walk, id)
                &&& walk.next().seen == walk.seen.insert(id)
            },
            None => walk.next().seen == walk.seen && walk.next().stack.len() == 0,
        },
    decreases walk.stack.len(),
{
    if walk.stack.len() > 0 {
        let last = walk.stack.last();
        let rest = WalkState { stack: walk.stack.drop_last(), ..walk };
        assert(walk.stack == rest.stack.push(last));
        assert(walk.stack[walk.stack.len() - 1] == last);
        assert forall|id: ObjectId| walk.stack.contains(id) implies (id == last
            || rest.stack.contains(id)) by {
            let i = walk.stack.index_of(id);
            if i < rest.stack.len() {
                assert(rest.stack[i] == id);
            }
        }
        assert forall|id: ObjectId| rest.stack.contains(id) implies walk.stack.contains(id) by {
            let i = rest.stack.index_of(id);
            assert(walk.stack[i] == id);
        }
        if walk.seen.contains(last) {
            lemma_next(rest);
            assert(walk.next() == rest.next());
            assert forall|id: ObjectId| knows(walk, id) <==> #[trigger] knows(walk.next(), id) by {
                assert(knows(rest, id) <==> knows(rest.next(), id));
            }
        }
    }
}

/// What holds of a listing at every commit.
pub open spec fn listing_invariant(
    commits: spec_fn(ObjectId) -> Seq<u8>,
    head: ObjectId,
    s: ListState,
) -> bool {
    &&& knows(s.walk, head)
    &&& s.walk.current is Some ==> s.walk.seen.contains(s.walk.current->0)
    &&& forall|id: ObjectId, parent: ObjectId| #[trigger]
        s.walk.seen.contains(id) && s.walk.current != Some(id) && #[trigger] commit_parents(
            commits(id),
        ).contains(parent) ==> knows(s.walk, parent)
    &&& forall|id: ObjectId| #[trigger] knows(s.walk, id) ==> in_history(commits, head, id)
    &&& s.ids.no_duplicates()
    &&& forall|id: ObjectId| #[trigger]
        s.ids.contains(id) <==> (s.walk.seen.contains(id) && s.walk.current != Some(id)
            && wanted_data(s.range, s.include_merges, commits(id)))
}

proof fn lemma_invariant_next(
    commits: spec_fn(ObjectId) -> Seq<u8>,
    head: ObjectId,
    s: ListState,
)
    requires
        listing_invariant(commits, head, s),
        s.walk.current is None,
    ensures
        listing_invariant(commits, head, s.next()),
{
    lemma_next(s.walk);
    let t = s.next();
    assert(knows(t.walk, head));
    assert forall|id: ObjectId, parent: ObjectId| #[trigger]
        t.walk.seen.contains(id) && t.walk.current != Some(id) && #[trigger] commit_parents(
            commits(id),
        ).contains(parent) implies knows(t.walk, parent) by {
        assert(s.walk.seen.contains(id));
        assert(knows(s.walk, parent));
    }
    assert forall|id: ObjectId| #[trigger] knows(t.walk, id) implies in_history(
        commits,
        head,
        id,
    ) by {
        assert(knows(s.walk, id));
    }
}

proof fn lemma_invariant_data(
    commits: spec_fn(ObjectId) -> Seq<u8>,
    head: ObjectId,
    s: ListState,
)
    requires
        listing_invariant(commits, head, s),
        s.walk.current is Some,
        committed_at(commits(s.walk.current->0)) is Ok,
    ensures
        listing_invariant(commits, head, s.with_data(commits(s.walk.current->0))->Ok_0),
{
    let id = s.walk.current->0;
    let data = commits(id);
    let parents = commit_parents(data);
    let t = s.with_data(data)->Ok_0;
    assert(t.walk.stack == s.walk.stack + parents);
    assert forall|x: ObjectId| #[trigger] t.walk.stack.contains(x) <==> (s.walk.stack.contains(x)
        || parents.contains(x)) by {
        if s.walk.stack.contains(x) {
            let i = s.walk.stack.index_of(x);
            assert(t.walk.stack[i] == x);
        }
        if parents.contains(x) {
            let i = parents.index_of(x);
            assert(t.walk.stack[s.walk.stack.len() + i] == x);
        }
    }
    assert forall|x: ObjectId| #[trigger] knows(t.walk, x) implies in_history(commits, head, x) by {
        if knows(s.walk, x) {
        } else {
            assert(parents.contains(x));
            assert(knows(s.walk, id));
            let path = choose|path: Seq<ObjectId>| #[trigger] is_path(commits, head, id, path);
            let longer = path.push(x);
            assert forall|i: int| 1 <= i < longer.len() implies #[trigger] parent_step(
                commits,
                longer,
                i,
            ) by {
                if i < path.len() {
                    assert(parent_step(commits, path, i));
                }
            }
            assert(is_path(commits, head, x, longer));
        }
    }
    assert forall|x: ObjectId, parent: ObjectId| #[trigger]
        t.walk.seen.contains(x) && t.walk.current != Some(x) && #[trigger] commit_parents(
            commits(x),
        ).contains(parent) implies knows(t.walk, parent) by {
        if x != id {
            assert(s.walk.seen.contains(x));
            assert(knows(s.walk, parent));
        }
    }
    assert(!s.ids.contains(id));
    if wanted_data(s.range, s.include_merges, data) {
        assert(t.ids == s.ids.push(id));
        assert forall|x: ObjectId| #[trigger] t.ids.contains(x) <==> (s.ids.contains(x) || x == id) by {
            if s.ids.contains(x) {
                let i = s.ids.index_of(x);
                assert(t.ids[i] == x);
            }
            assert(t.ids[s.ids.len() as int] == id);
        }
    }
}

/// The invariant holds of every state of a listing.
proof fn lemma_listing_invariant(
    commits: spec_fn(ObjectId) -> Seq<u8>,
    head: ObjectId,
    range: DateRange,
    include_merges: bool,
    states: Seq<ListState>,
    k: int,
)
    requires
        is_listing(commits, head, range, include_merges, states),
        0 <= k < states.len(),
    ensures
        listing_invariant(commits, head, states[k]),
        states[k].range == range,
        states[k].include_merges == include_merges,
        states[k].walk.current is None ==> states[k].walk.stack.len() == 0,
    decreases k,
{
    if k == 0 {
        let start = ListState::start(head, range, include_merges);
        assert(start.walk.stack[0] == head);
        assert forall|id: ObjectId| #[trigger] knows(start.walk, id) implies in_history(
            commits,
            head,
            id,
        ) by {
            assert(is_path(commits, head, head, seq![head]));
        }
        lemma_invariant_next(commits, head, start);
        lemma_next(start.walk);
    } else {
        lemma_listing_invariant(commits, head, range, include_merges, states, k - 1);
        let before = states[k - 1];
        let data = commits(before.walk.current->0);
        assert(listing_step(commits, states, k));
        lemma_invariant_data(commits, head, before);
        lemma_invariant_next(commits, head, before.with_data(data)->Ok_0);
        lemma_next(before.with_data(data)->Ok_0.walk);
    }
}

/// Everything on a path from the head is seen by a walk that has nothing left to look at.
proof fn lemma_path_seen(
    commits: spec_fn(ObjectId) -> Seq<u8>,
    head: ObjectId,
    s: ListState,
    path: Seq<ObjectId>,
    i: int,
)
    requires
        listing_invariant(commits, head, s),
        s.walk.current is None,
        s.walk.stack.len() == 0,
        is_path(commits, head, path.last(), path),
        0 <= i < path.len(),
    ensures
        s.walk.seen.contains(path[i]),
    decreases i,
{
    if i > 0 {
        lemma_path_seen(commits, head, s, path, i - 1);
        assert(parent_step(commits, path, i));
        assert(s.walk.seen.contains(path[i - 1]));
        assert(knows(s.walk, path[i]));
    }
}

/// A listing that has come to its end has asked for every commit of the history of its head, and
/// for no other.
pub proof fn law_whole_history_is_asked(
    commits: spec_fn(ObjectId) -> Seq<u8>,
    head: ObjectId,
    range: DateRange,
    include_merges: bool,
    states: Seq<ListState>,
)
    requires
        is_listing(commits, head, range, include_merges, states),
        states.last().walk.current is None,
    ensures
        states.last().walk.seen.finite(),
        forall|id: ObjectId| #[trigger]
            states.last().walk.seen.contains(id) <==> in_history(commits, head, id),
{
    let s = states.last();
    lemma_listing_invariant(commits, head, range, include_merges, states, states.len() - 1);
    lemma_seen_count(commits, head, range, include_merges, states, states.len() - 1);
    assert forall|id: ObjectId| in_history(commits, head, id) implies s.walk.seen.contains(id) by {
        let path = choose|path: Seq<ObjectId>| #[trigger] is_path(commits, head, id, path);
        lemma_path_seen(commits, head, s, path, path.len() - 1);
    }
    assert forall|id: ObjectId| s.walk.seen.contains(id) implies in_history(commits, head, id) by {
        assert(knows(s.walk, id));
    }
}

/// A listing that has come to its end lists exactly the wanted commits of the history of its
/// head, each of them once.
pub proof fn law_listing_is_exact(
    commits: spec_fn(ObjectId) -> Seq<u8>,
    head: ObjectId,
    range: DateRange,
    include_merges: bool,
    states: Seq<ListState>,
)
    requires
        is_listing(commits, head, range, include_merges, states),
        states.last().walk.current is None,
    ensures
        states.last().ids.no_duplicates(),
        forall|id: ObjectId| #[trigger]
            states.last().ids.contains(id) <==> (in_history(commits, head, id) && wanted_data(
                range,
                include_merges,
                commits(id),
            )),
{
    lemma_listing_invariant(commits, head, range, include_merges, states, states.len() - 1);
    law_whole_history_is_asked(commits, head, range, include_merges, states);
}

/// A listing asks only for commits of the history of its head.
pub proof fn law_only_history_is_asked(
    commits: spec_fn(ObjectId) -> Seq<u8>,
    head: ObjectId,
    range: DateRange,
    include_merges: bool,
    states: Seq<ListState>,
    k: int,
)
    requires
        is_listing(commits, head, range, include_merges, states),
        0 <= k < states.len(),
        states[k].walk.current is Some,
    ensures
        in_history(commits, head, states[k].walk.current->0),
{
    lemma_listing_invariant(commits, head, range, include_merges, states, k);
    assert(knows(states[k].walk, states[k].walk.current->0));
}

/// What was asked for stays seen, and what is asked for was not seen before.
proof fn lemma_asked_is_seen(
    commits: spec_fn(ObjectId) -> Seq<u8>,
    head: ObjectId,
    range: DateRange,
    include_merges: bool,
    states: Seq<ListState>,
    j: int,
    k: int,
)
    requires
        is_listing(commits, head, range, include_merges, states),
        0 <= j <= k < states.len(),
        states[j].walk.current is Some,
    ensures
        states[k].walk.seen.contains(states[j].walk.current->0),
        j < k ==> states[k].walk.current != states[j].walk.current,
    decreases k - j,
{
    if j == k {
        lemma_listing_invariant(commits, head, range, include_merges, states, j);
    } else {
        lemma_asked_is_seen(commits, head, range, include_merges, states, j, k - 1);
        let before = states[k - 1];
        let data = commits(before.walk.current->0);
        assert(listing_step(commits, states, k));
        lemma_next(before.with_data(data)->Ok_0.walk);
    }
}

/// A listing asks for the data of no commit twice.
pub proof fn law_each_commit_asked_once(
    commits: spec_fn(ObjectId) -> Seq<u8>,
    head: ObjectId,
    range: DateRange,
    include_merges: bool,
    states: Seq<ListState>,
    j: int,
    k: int,
)
    requires
        is_listing(commits, head, range, include_merges, states),
        0 <= j < k < states.len(),
    ensures
        states[j].walk.current is Some,
        states[j].walk.current != states[k].walk.current,
{
    assert(listing_step(commits, states, j + 1));
    lemma_asked_is_seen(commits, head, range, include_merges, states, j, k);
}

/// The number of commits that were asked for grows with every state.
proof fn lemma_seen_count(
    commits: spec_fn(ObjectId) -> Seq<u8>,
    head: ObjectId,
    range: DateRange,
    include_merges: bool,
    states: Seq<ListState>,
    k: int,
)
    requires
        is_listing(commits, head, range, include_merges, states),
        0 <= k < states.len(),
    ensures
        states[k].walk.seen.finite(),
        states[k].walk.seen.len() >= k,
        states[k].walk.current is Some ==> states[k].walk.seen.len() == k + 1,
    decreases k,
{
    if k == 0 {
        lemma_next(WalkState::start(head));
    } else {
        lemma_seen_count(commits, head, range, include_merges, states, k - 1);
        let before = states[k - 1];
        let data = commits(before.walk.current->0);
        assert(listing_step(commits, states, k));
        lemma_next(before.with_data(data)->Ok_0.walk);
    }
}

/// A listing of a history that has `all.len()` commits or fewer comes to its end when it has
/// asked for that many of them.
pub proof fn law_listing_ends(
    commits: spec_fn(ObjectId) -> Seq<u8>,
    head: ObjectId,
    range: DateRange,
    include_merges: bool,
    states: Seq<ListState>,
    all: Set<ObjectId>,
)
    requires
        is_listing(commits, head, range, include_merges, states),
        all.finite(),
        forall|id: ObjectId| #[trigger] in_history(commits, head, id) ==> all.contains(id),
    ensures
        states.len() <= all.len() + 1,
        states.len() == all.len() + 1 ==> states.last().walk.current is None,
{
    let s = states.last();
    lemma_listing_invariant(commits, head, range, include_merges, states, states.len() - 1);
    lemma_seen_count(commits, head, range, include_merges, states, states.len() - 1);
    assert forall|id: ObjectId| s.walk.seen.contains(id) implies all.contains(id) by {
        assert(knows(s.walk, id));
    }
    vstd::set_lib::lemma_len_subset(s.walk.seen, all);
}

/// A walk comes to its head first, and from a commit to its last parent, if that was not seen.
pub proof fn law_last_parent_comes_first(head: ObjectId, walk: WalkState, parents: Seq<ObjectId>)
    requires
        parents.len() > 0,
        !walk.seen.contains(parents.last()),
    ensures
        WalkState::start(head).next().current == Some(head),
        walk.with_parents(parents).next().current == Some(parents.last()),
{
    assert((walk.stack + parents).last() == parents.last());
}

} // verus!
