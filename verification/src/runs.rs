//! What the statistics of commits come to, for a repository as a whole.

use crate::change::{change_files, objects_of, ChangeView, FileView};
use crate::collect::{first_of, CollectRequest, CollectState};
use crate::commit::{commit_parents, committed_at, decoded};
use crate::history::{
    in_history, is_listing, law_each_commit_asked_once, law_listing_ends, law_listing_is_exact,
    law_only_history_is_asked, listing_step, wanted_data,
};
use crate::oid::{hex_text, ObjectId};
use crate::range::DateRange;
use crate::stats::{StatsRequest, StatsState, StatsView};
use crate::walk::{wanted, ListState};
use vstd::prelude::*;

verus! {

/// What a repository answers.
pub ghost struct Answers {
    /// The data of commits.
    pub commits: spec_fn(ObjectId) -> Seq<u8>,
    /// The changes to a commit from its parent, or from nothing.
    pub diffs: spec_fn(ObjectId, Option<ObjectId>) -> Seq<ChangeView>,
    /// The data of the objects that changes are about.
    pub objects: spec_fn(ObjectId) -> Seq<u8>,
}

/// The data of the objects that a change is about.
pub open spec fn contents_of(objects: spec_fn(ObjectId) -> Seq<u8>, change: ChangeView) -> Seq<
    Seq<u8>,
> {
    objects_of(change).map_values(objects)
}

/// The file statistics that changes give, one change after the other.
pub open spec fn files_of(
    objects: spec_fn(ObjectId) -> Seq<u8>,
    changes: Seq<ChangeView>,
    binary: bool,
) -> Seq<FileView>
    decreases changes.len(),
{
    if changes.len() == 0 {
        Seq::empty()
    } else {
        files_of(objects, changes.drop_last(), binary) + change_files(
            changes.last(),
            contents_of(objects, changes.last()),
            binary,
        )
    }
}

/// The statistics of a commit, compared with `parent` or with nothing.
pub open spec fn stats_against(
    answers: Answers,
    commit: ObjectId,
    parent: Option<ObjectId>,
    binary: bool,
) -> StatsView {
    StatsView {
        commit_id: hex_text(commit@),
        files: files_of(answers.objects, (answers.diffs)(commit, parent), binary),
    }
}

/// The statistics of a commit, compared with its first parent where it has one.
pub open spec fn stats_of(answers: Answers, commit: ObjectId, binary: bool) -> StatsView {
    stats_against(answers, commit, first_of(commit_parents((answers.commits)(commit))), binary)
}

/// A computation of statistics once it has the answer to what it asks for.
pub open spec fn stats_answered(answers: Answers, s: StatsState) -> StatsState {
    match s.request() {
        StatsRequest::Diff { commit, parent } => s.with_changes((answers.diffs)(commit, parent)),
        StatsRequest::Object(id) => s.with_object((answers.objects)(id)),
        StatsRequest::Done => s,
    }
}

/// Whether `states[k]` follows the state before it: that one needs something, and gets it.
pub open spec fn computation_step(answers: Answers, states: Seq<StatsState>, k: int) -> bool {
    &&& !(states[k - 1].request() is Done)
    &&& states[k] == stats_answered(answers, states[k - 1])
}

/// The states of a computation of statistics, which goes on from each state but the last.
pub open spec fn is_computation(
    answers: Answers,
    commit: ObjectId,
    parent: Option<ObjectId>,
    binary: bool,
    states: Seq<StatsState>,
) -> bool {
    &&& states.len() > 0
    &&& states[0] == StatsState::start(commit, parent, binary)
    &&& forall|k: int| 1 <= k < states.len() ==> #[trigger] computation_step(answers, states, k)
}

/// What holds of a computation of statistics in every state.
pub open spec fn computation_invariant(
    answers: Answers,
    commit: ObjectId,
    parent: Option<ObjectId>,
    binary: bool,
    s: StatsState,
) -> bool {
    &&& s.wf()
    &&& s.commit == commit
    &&& s.parent == parent
    &&& s.binary == binary
    &&& s.changes is Some ==> {
        let changes = (answers.diffs)(commit, parent);
        &&& s.changes->0 == changes
        &&& s.files == files_of(answers.objects, changes.take(s.next as int), binary)
        &&& s.next < changes.len() ==> s.contents == contents_of(
            answers.objects,
            changes[s.next as int],
        ).take(s.contents.len() as int)
    }
}

proof fn lemma_answered(
    answers: Answers,
    commit: ObjectId,
    parent: Option<ObjectId>,
    binary: bool,
    s: StatsState,
)
    requires
        computation_invariant(answers, commit, parent, binary, s),
    ensures
        computation_invariant(answers, commit, parent, binary, stats_answered(answers, s)),
{
    let changes = (answers.diffs)(commit, parent);
    let t = stats_answered(answers, s);
    match s.request() {
        StatsRequest::Diff { .. } => {
            assert(changes.take(0) == Seq::<ChangeView>::empty());
            assert(t.files == files_of(answers.objects, changes.take(0), binary));
            if changes.len() > 0 {
                assert(objects_of(changes[0]).len() > 0);
                assert(t.contents == contents_of(answers.objects, changes[0]).take(0));
            }
        },
        StatsRequest::Object(id) => {
            let change = changes[s.next as int];
            let contents = contents_of(answers.objects, change);
            let data = (answers.objects)(id);
            let n = s.contents.len() as int;
            let after = s.next as int + 1;
            assert(contents[n] == data);
            assert(s.contents.push(data) == contents.take(n + 1));
            if n + 1 == contents.len() {
                assert(contents.take(n + 1) == contents);
                assert(changes.take(after).drop_last() == changes.take(s.next as int));
                assert(changes.take(after).last() == change);
                if after < changes.len() {
                    assert(objects_of(changes[after]).len() > 0);
                    assert(t.contents == contents_of(answers.objects, changes[after]).take(
                        0,
                    ));
                }
            }
        },
        StatsRequest::Done => {},
    }
}

proof fn lemma_computation_invariant(
    answers: Answers,
    commit: ObjectId,
    parent: Option<ObjectId>,
    binary: bool,
    states: Seq<StatsState>,
    k: int,
)
    requires
        is_computation(answers, commit, parent, binary, states),
        0 <= k < states.len(),
    ensures
        computation_invariant(answers, commit, parent, binary, states[k]),
    decreases k,
{
    if k > 0 {
        lemma_computation_invariant(answers, commit, parent, binary, states, k - 1);
        lemma_answered(answers, commit, parent, binary, states[k - 1]);
        assert(computation_step(answers, states, k));
    }
}

proof fn lemma_done(
    answers: Answers,
    commit: ObjectId,
    parent: Option<ObjectId>,
    binary: bool,
    s: StatsState,
)
    requires
        computation_invariant(answers, commit, parent, binary, s),
        s.request() is Done,
    ensures
        s.stats() == stats_against(answers, commit, parent, binary),
{
    let changes = (answers.diffs)(commit, parent);
    assert(changes.take(changes.len() as int) == changes);
}

/// A computation of statistics that has come to its end gives the statistics of every change
/// of its commit, in the order of the changes.
pub proof fn law_computation_is_exact(
    answers: Answers,
    commit: ObjectId,
    parent: Option<ObjectId>,
    binary: bool,
    states: Seq<StatsState>,
)
    requires
        is_computation(answers, commit, parent, binary, states),
        states.last().request() is Done,
    ensures
        states.last().stats() == stats_against(answers, commit, parent, binary),
{
    lemma_computation_invariant(answers, commit, parent, binary, states, states.len() - 1);
    lemma_done(answers, commit, parent, binary, states.last());
}

/// Whether a listing asks for the data of a commit, and can read it.
pub open spec fn answerable(commits: spec_fn(ObjectId) -> Seq<u8>, s: ListState) -> bool {
    s.walk.current is Some && committed_at(commits(s.walk.current->0)) is Ok
}

/// A listing once it has the data of the commit at hand and has gone on, where it can.
pub open spec fn listing_answered(commits: spec_fn(ObjectId) -> Seq<u8>, s: ListState) -> ListState {
    if answerable(commits, s) {
        s.with_data(commits(s.walk.current->0))->Ok_0.next()
    } else {
        s
    }
}

/// The state of a listing when it has been answered `n` times.
pub open spec fn listing_after(
    commits: spec_fn(ObjectId) -> Seq<u8>,
    head: ObjectId,
    range: DateRange,
    include_merges: bool,
    n: nat,
) -> ListState
    decreases n,
{
    if n == 0 {
        ListState::start(head, range, include_merges).next()
    } else {
        listing_answered(
            commits,
            listing_after(commits, head, range, include_merges, (n - 1) as nat),
        )
    }
}

/// The states of a listing are those that its answers lead to.
pub proof fn lemma_listing_states(
    commits: spec_fn(ObjectId) -> Seq<u8>,
    head: ObjectId,
    range: DateRange,
    include_merges: bool,
    states: Seq<ListState>,
    k: int,
)
    requires
        is_listing(commits, head, range, include_merges, states),
        0 <= k < states.len(),
    ensures
        states[k] == listing_after(commits, head, range, include_merges, k as nat),
    decreases k,
{
    if k > 0 {
        lemma_listing_states(commits, head, range, include_merges, states, k - 1);
        assert(listing_step(commits, states, k));
    }
}

/// A listing that has ended stays as it is.
pub proof fn lemma_listing_ended(
    commits: spec_fn(ObjectId) -> Seq<u8>,
    head: ObjectId,
    range: DateRange,
    include_merges: bool,
    n: nat,
    m: nat,
)
    requires
        n <= m,
        listing_after(commits, head, range, include_merges, n).walk.current is None,
    ensures
        listing_after(commits, head, range, include_merges, m) == listing_after(
            commits,
            head,
            range,
            include_merges,
            n,
        ),
    decreases m - n,
{
    if n < m {
        lemma_listing_ended(commits, head, range, include_merges, n, (m - 1) as nat);
    }
}

/// A collection once it has the answer to what it asks for and has gone on, where the answer
/// can be read.
pub open spec fn collection_answered(answers: Answers, s: CollectState) -> CollectState {
    match s.request() {
        CollectRequest::Commit(id) => s.with_data((answers.commits)(id))->Ok_0.advanced(),
        CollectRequest::Diff { .. } | CollectRequest::Object(_) => s.with_task(
            stats_answered(answers, s.task->0),
        ).advanced(),
        CollectRequest::Done => s,
    }
}

/// Whether `states[k]` follows the state before it: that one needs something, gets it, and can
/// read it.
pub open spec fn collection_step(answers: Answers, states: Seq<CollectState>, k: int) -> bool {
    let before = states[k - 1];
    &&& !(before.request() is Done)
    &&& before.request() is Commit ==> decoded((answers.commits)(before.walk.current->0)) is Ok
    &&& states[k] == collection_answered(answers, before)
}

/// The states of a collection, each at what it needs next; it goes on from each state but the
/// last.
pub open spec fn is_collection(
    answers: Answers,
    head: ObjectId,
    range: DateRange,
    include_merges: bool,
    binary: bool,
    states: Seq<CollectState>,
) -> bool {
    &&& states.len() > 0
    &&& states[0] == CollectState::start(head, range, include_merges, binary).advanced()
    &&& forall|k: int| 1 <= k < states.len() ==> #[trigger] collection_step(answers, states, k)
}

/// The statistics of commits.
pub open spec fn stats_of_all(answers: Answers, ids: Seq<ObjectId>, binary: bool) -> Seq<StatsView> {
    ids.map_values(|id: ObjectId| stats_of(answers, id, binary))
}

/// How a state of a collection goes with the state of the listing of the same commits: they are
/// at the same commit, or the collection is still busy with the statistics of the one that the
/// listing is at.
pub open spec fn collection_invariant(
    answers: Answers,
    binary: bool,
    s: CollectState,
    list: ListState,
) -> bool {
    &&& s.range == list.range
    &&& s.include_merges == list.include_merges
    &&& s.binary == binary
    &&& s.commits == stats_of_all(answers, list.ids, binary)
    &&& match s.task {
        None => s.walk == list.walk,
        Some(task) => {
            let id = list.walk.current->0;
            let data = (answers.commits)(id);
            &&& list.walk.current is Some
            &&& committed_at(data) is Ok
            &&& wanted(
                list.range,
                list.include_merges,
                committed_at(data)->Ok_0,
                commit_parents(data).len(),
            )
            &&& s.walk == list.walk.with_parents(commit_parents(data))
            &&& computation_invariant(answers, id, first_of(commit_parents(data)), binary, task)
            &&& !(task.request() is Done)
        },
    }
}

/// A collection that finishes the statistics at hand goes on as the listing does.
proof fn lemma_advanced(answers: Answers, binary: bool, s: CollectState, list: ListState)
    requires
        s.range == list.range,
        s.include_merges == list.include_merges,
        s.binary == binary,
        s.commits == stats_of_all(answers, list.ids, binary),
        list.walk.current is Some,
        committed_at((answers.commits)(list.walk.current->0)) is Ok,
        s.walk == list.walk.with_parents(
            commit_parents((answers.commits)(list.walk.current->0)),
        ),
        ({
            let id = list.walk.current->0;
            let data = (answers.commits)(id);
            match s.task {
                Some(task) => {
                    &&& wanted(
                        list.range,
                        list.include_merges,
                        committed_at(data)->Ok_0,
                        commit_parents(data).len(),
                    )
                    &&& computation_invariant(
                        answers,
                        id,
                        first_of(commit_parents(data)),
                        binary,
                        task,
                    )
                },
                None => !wanted(
                    list.range,
                    list.include_merges,
                    committed_at(data)->Ok_0,
                    commit_parents(data).len(),
                ),
            }
        }),
    ensures
        s.task is Some && !(s.task->0.request() is Done) ==> collection_invariant(
            answers,
            binary,
            s.advanced(),
            list,
        ),
        s.task is None || s.task->0.request() is Done ==> collection_invariant(
            answers,
            binary,
            s.advanced(),
            listing_answered(answers.commits, list),
        ),
{
    let id = list.walk.current->0;
    let data = (answers.commits)(id);
    if s.task is Some && s.task->0.request() is Done {
        lemma_done(answers, id, first_of(commit_parents(data)), binary, s.task->0);
        assert(stats_of_all(answers, list.ids.push(id), binary) == stats_of_all(
            answers,
            list.ids,
            binary,
        ).push(stats_of(answers, id, binary)));
    }
}

/// How many commits a collection has done with in its `k`th state.
pub open spec fn commits_done(states: Seq<CollectState>, k: nat) -> nat
    decreases k,
{
    if k == 0 {
        0
    } else {
        commits_done(states, (k - 1) as nat) + if states[k as int].task is None {
            1nat
        } else {
            0nat
        }
    }
}

/// Each state of a collection goes with the state of the listing that has been answered for the
/// commits that the collection has done with.
proof fn lemma_collection_invariant(
    answers: Answers,
    head: ObjectId,
    range: DateRange,
    include_merges: bool,
    binary: bool,
    states: Seq<CollectState>,
    k: int,
)
    requires
        is_collection(answers, head, range, include_merges, binary, states),
        0 <= k < states.len(),
    ensures
        collection_invariant(
            answers,
            binary,
            states[k],
            listing_after(
                answers.commits,
                head,
                range,
                include_merges,
                commits_done(states, k as nat),
            ),
        ),
        forall|j: nat|
            j < commits_done(states, k as nat) ==> answerable(
                answers.commits,
                #[trigger] listing_after(answers.commits, head, range, include_merges, j),
            ),
    decreases k,
{
    if k == 0 {
        let list = listing_after(answers.commits, head, range, include_merges, 0);
        assert(stats_of_all(answers, list.ids, binary) == Seq::<StatsView>::empty());
    } else {
        lemma_collection_invariant(answers, head, range, include_merges, binary, states, k - 1);
        let n = commits_done(states, (k - 1) as nat);
        let before = states[k - 1];
        let list = listing_after(answers.commits, head, range, include_merges, n);
        assert(collection_step(answers, states, k));
        match before.request() {
            CollectRequest::Commit(id) => {
                let data = (answers.commits)(id);
                let read = before.with_data(data)->Ok_0;
                let parent = first_of(commit_parents(data));
                assert(computation_invariant(
                    answers,
                    id,
                    parent,
                    binary,
                    StatsState::start(id, parent, binary),
                ));
                lemma_advanced(answers, binary, read, list);
            },
            CollectRequest::Diff { .. } | CollectRequest::Object(_) => {
                let id = list.walk.current->0;
                let parent = first_of(commit_parents((answers.commits)(id)));
                lemma_answered(answers, id, parent, binary, before.task->0);
                let read = before.with_task(stats_answered(answers, before.task->0));
                lemma_advanced(answers, binary, read, list);
            },
            CollectRequest::Done => {},
        }
    }
}

/// The states of a listing up to its `n`th answer.
pub open spec fn listing_run(
    commits: spec_fn(ObjectId) -> Seq<u8>,
    head: ObjectId,
    range: DateRange,
    include_merges: bool,
    n: nat,
) -> Seq<ListState> {
    Seq::new(n + 1, |k: int| listing_after(commits, head, range, include_merges, k as nat))
}

/// Where a listing can be answered `n` times, its run up to there is a listing.
pub proof fn lemma_listing_run(
    commits: spec_fn(ObjectId) -> Seq<u8>,
    head: ObjectId,
    range: DateRange,
    include_merges: bool,
    n: nat,
)
    requires
        forall|j: nat|
            j < n ==> answerable(
                commits,
                #[trigger] listing_after(commits, head, range, include_merges, j),
            ),
    ensures
        is_listing(
            commits,
            head,
            range,
            include_merges,
            listing_run(commits, head, range, include_merges, n),
        ),
{
    let states = listing_run(commits, head, range, include_merges, n);
    assert forall|k: int| 1 <= k < states.len() implies #[trigger] listing_step(
        commits,
        states,
        k,
    ) by {
        assert(answerable(
            commits,
            listing_after(commits, head, range, include_merges, (k - 1) as nat),
        ));
    }
}

/// The states of the listing that goes with a collection, up to the collection's `k`th state.
pub open spec fn listing_beside(
    answers: Answers,
    head: ObjectId,
    range: DateRange,
    include_merges: bool,
    states: Seq<CollectState>,
    k: int,
) -> Seq<ListState> {
    listing_run(answers.commits, head, range, include_merges, commits_done(states, k as nat))
}

/// The listing that goes with a collection goes with it.
pub proof fn lemma_listing_beside(
    answers: Answers,
    head: ObjectId,
    range: DateRange,
    include_merges: bool,
    binary: bool,
    states: Seq<CollectState>,
    k: int,
)
    requires
        is_collection(answers, head, range, include_merges, binary, states),
        0 <= k < states.len(),
    ensures
        ({
            let lists = listing_beside(answers, head, range, include_merges, states, k);
            &&& is_listing(answers.commits, head, range, include_merges, lists)
            &&& collection_invariant(answers, binary, states[k], lists.last())
        }),
{
    lemma_collection_invariant(answers, head, range, include_merges, binary, states, k);
    lemma_listing_run(
        answers.commits,
        head,
        range,
        include_merges,
        commits_done(states, k as nat),
    );
}

/// When a collection has come to its end, so has the listing of the same history beside it.
pub proof fn law_listing_completes(
    answers: Answers,
    head: ObjectId,
    range: DateRange,
    include_merges: bool,
    binary: bool,
    states: Seq<CollectState>,
)
    requires
        is_collection(answers, head, range, include_merges, binary, states),
        states.last().request() is Done,
    ensures
        ({
            let lists = listing_beside(
                answers,
                head,
                range,
                include_merges,
                states,
                states.len() - 1,
            );
            &&& is_listing(answers.commits, head, range, include_merges, lists)
            &&& lists.last().walk.current is None
            &&& states.last().commits == stats_of_all(answers, lists.last().ids, binary)
        }),
{
    lemma_listing_beside(
        answers,
        head,
        range,
        include_merges,
        binary,
        states,
        states.len() - 1,
    );
}

/// A collection that has come to its end has the statistics of exactly the commits that a
/// listing of the same history lists, in the same order, each compared with its first parent
/// where it has one.
pub proof fn law_collection_follows_listing(
    answers: Answers,
    head: ObjectId,
    range: DateRange,
    include_merges: bool,
    binary: bool,
    states: Seq<CollectState>,
    lists: Seq<ListState>,
)
    requires
        is_collection(answers, head, range, include_merges, binary, states),
        states.last().request() is Done,
        is_listing(answers.commits, head, range, include_merges, lists),
        lists.last().walk.current is None,
    ensures
        states.last().commits == stats_of_all(answers, lists.last().ids, binary),
{
    let last = states.len() - 1;
    lemma_collection_invariant(answers, head, range, include_merges, binary, states, last);
    let n = commits_done(states, last as nat);
    let m = (lists.len() - 1) as nat;
    lemma_listing_states(answers.commits, head, range, include_merges, lists, m as int);
    if n <= m {
        lemma_listing_ended(answers.commits, head, range, include_merges, n, m);
    } else {
        lemma_listing_ended(answers.commits, head, range, include_merges, m, n);
    }
}

/// A collection that has come to its end has the statistics of exactly the wanted commits of
/// the history of its head, each of them once.
pub proof fn law_collection_is_exact(
    answers: Answers,
    head: ObjectId,
    range: DateRange,
    include_merges: bool,
    binary: bool,
    states: Seq<CollectState>,
) -> (ids: Seq<ObjectId>)
    requires
        is_collection(answers, head, range, include_merges, binary, states),
        states.last().request() is Done,
    ensures
        states.last().commits == stats_of_all(answers, ids, binary),
        ids.no_duplicates(),
        forall|id: ObjectId| #[trigger]
            ids.contains(id) <==> (in_history(answers.commits, head, id) && wanted_data(
                range,
                include_merges,
                (answers.commits)(id),
            )),
{
    law_listing_completes(answers, head, range, include_merges, binary, states);
    let lists = listing_beside(answers, head, range, include_merges, states, states.len() - 1);
    law_listing_is_exact(answers.commits, head, range, include_merges, lists);
    lists.last().ids
}

/// The objects that changes are about, counted once for each change.
pub open spec fn object_count(changes: Seq<ChangeView>) -> nat
    decreases changes.len(),
{
    if changes.len() == 0 {
        0
    } else {
        object_count(changes.drop_last()) + objects_of(changes.last()).len()
    }
}

proof fn lemma_object_count(changes: Seq<ChangeView>, n: int)
    requires
        0 <= n < changes.len(),
    ensures
        object_count(changes.take(n)) + objects_of(changes[n]).len() <= object_count(changes),
    decreases changes.len(),
{
    if n == changes.len() - 1 {
        assert(changes.take(n) == changes.drop_last());
    } else {
        lemma_object_count(changes.drop_last(), n);
        assert(changes.drop_last().take(n) == changes.take(n));
    }
}

proof fn lemma_computation_progress(
    answers: Answers,
    commit: ObjectId,
    parent: Option<ObjectId>,
    binary: bool,
    states: Seq<StatsState>,
    k: int,
)
    requires
        is_computation(answers, commit, parent, binary, states),
        0 <= k < states.len(),
    ensures
        states[k].changes is Some <==> k > 0,
        k > 0 ==> k - 1 == object_count(
            (answers.diffs)(commit, parent).take(states[k].next as int),
        ) + states[k].contents.len(),
    decreases k,
{
    if k > 0 {
        lemma_computation_progress(answers, commit, parent, binary, states, k - 1);
        lemma_computation_invariant(answers, commit, parent, binary, states, k - 1);
        let changes = (answers.diffs)(commit, parent);
        let before = states[k - 1];
        assert(computation_step(answers, states, k));
        if k == 1 {
            assert(changes.take(0) == Seq::<ChangeView>::empty());
        } else {
            let next = before.next as int;
            assert(changes.take(next + 1).drop_last() == changes.take(next));
        }
    }
}

/// A computation of statistics asks for the changes once, then for each object of each change
/// once, and then ends.
pub proof fn law_computation_ends(
    answers: Answers,
    commit: ObjectId,
    parent: Option<ObjectId>,
    binary: bool,
    states: Seq<StatsState>,
)
    requires
        is_computation(answers, commit, parent, binary, states),
    ensures
        states.len() <= object_count((answers.diffs)(commit, parent)) + 2,
        states.len() == object_count((answers.diffs)(commit, parent)) + 2
            <==> states.last().request() is Done,
{
    let k = states.len() - 1;
    let s = states.last();
    let changes = (answers.diffs)(commit, parent);
    lemma_computation_invariant(answers, commit, parent, binary, states, k);
    lemma_computation_progress(answers, commit, parent, binary, states, k);
    if k > 0 {
        if s.next < changes.len() {
            lemma_object_count(changes, s.next as int);
        } else {
            assert(changes.take(changes.len() as int) == changes);
        }
    }
}

/// A collection does with no fewer commits as it goes on.
proof fn lemma_commits_done(states: Seq<CollectState>, j: nat, k: nat)
    requires
        j <= k,
    ensures
        commits_done(states, j) <= commits_done(states, k),
        j < k && states[k as int].task is None ==> commits_done(states, j) < commits_done(states, k),
    decreases k - j,
{
    if j < k {
        lemma_commits_done(states, j, (k - 1) as nat);
    }
}

/// A collection asks for the data of no commit twice.
pub proof fn law_collection_asks_once(
    answers: Answers,
    head: ObjectId,
    range: DateRange,
    include_merges: bool,
    binary: bool,
    states: Seq<CollectState>,
    j: int,
    k: int,
)
    requires
        is_collection(answers, head, range, include_merges, binary, states),
        0 <= j < k < states.len(),
        states[j].request() is Commit,
        states[k].request() is Commit,
    ensures
        states[j].request() != states[k].request(),
{
    lemma_collection_invariant(answers, head, range, include_merges, binary, states, j);
    lemma_listing_beside(answers, head, range, include_merges, binary, states, k);
    lemma_commits_done(states, j as nat, k as nat);
    let lists = listing_beside(answers, head, range, include_merges, states, k);
    let n = commits_done(states, j as nat) as int;
    law_each_commit_asked_once(
        answers.commits,
        head,
        range,
        include_merges,
        lists,
        n,
        lists.len() - 1,
    );
}

/// The objects that the statistics of a commit take, counted once for each change.
pub open spec fn objects_needed(answers: Answers, commit: ObjectId) -> nat {
    object_count(
        (answers.diffs)(commit, first_of(commit_parents((answers.commits)(commit)))),
    )
}

/// How many answers a collection has had for the commit at hand.
pub open spec fn answers_had(s: CollectState) -> nat {
    match s.task {
        None => 0,
        Some(task) => match task.changes {
            None => 1,
            Some(changes) => 2 + object_count(changes.take(task.next as int))
                + task.contents.len(),
        },
    }
}

/// A computation that still needs an object has not read all of them.
proof fn lemma_objects_left(s: StatsState)
    requires
        s.wf(),
        s.request() is Object,
    ensures
        object_count(s.changes->0.take(s.next as int)) + s.contents.len() < object_count(
            s.changes->0,
        ),
{
    lemma_object_count(s.changes->0, s.next as int);
}

/// A further answer is counted, unless it completes the statistics.
proof fn lemma_answer_counted(before: CollectState, answers: Answers)
    requires
        before.task is Some,
        before.task->0.wf(),
        !(before.task->0.request() is Done),
    ensures
        ({
            let task = stats_answered(answers, before.task->0);
            !(task.request() is Done) ==> answers_had(before.with_task(task)) == answers_had(before)
                + 1
        }),
{
    let s = before.task->0;
    match s.request() {
        StatsRequest::Diff { .. } => {
            let changes = (answers.diffs)(s.commit, s.parent);
            assert(changes.take(0) == Seq::<ChangeView>::empty());
        },
        StatsRequest::Object(_) => {
            let changes = s.changes->0;
            let next = s.next as int;
            assert(changes.take(next + 1).drop_last() == changes.take(next));
        },
        StatsRequest::Done => {},
    }
}

proof fn lemma_collection_progress(
    answers: Answers,
    head: ObjectId,
    range: DateRange,
    include_merges: bool,
    binary: bool,
    states: Seq<CollectState>,
    most: nat,
    k: int,
)
    requires
        is_collection(answers, head, range, include_merges, binary, states),
        forall|id: ObjectId|
            in_history(answers.commits, head, id) ==> #[trigger] objects_needed(answers, id)
                <= most,
        0 <= k < states.len(),
    ensures
        k <= commits_done(states, k as nat) * (most + 2) + answers_had(states[k]),
        answers_had(states[k]) <= most + 1,
    decreases k,
{
    lemma_listing_beside(answers, head, range, include_merges, binary, states, k);
    let s = states[k];
    if s.task is Some {
        let lists = listing_beside(answers, head, range, include_merges, states, k);
        let id = lists.last().walk.current->0;
        law_only_history_is_asked(
            answers.commits,
            head,
            range,
            include_merges,
            lists,
            lists.len() - 1,
        );
        assert(objects_needed(answers, id) <= most);
        if s.task->0.request() is Object {
            lemma_objects_left(s.task->0);
        }
    }
    if k > 0 {
        lemma_collection_progress(
            answers,
            head,
            range,
            include_merges,
            binary,
            states,
            most,
            k - 1,
        );
        let before = states[k - 1];
        let n = commits_done(states, (k - 1) as nat);
        assert(collection_step(answers, states, k));
        assert((n + 1) * (most + 2) == n * (most + 2) + (most + 2)) by (nonlinear_arith);
        if before.task is Some {
            lemma_listing_beside(answers, head, range, include_merges, binary, states, k - 1);
            lemma_answer_counted(before, answers);
        }
    }
}

/// A collection over a history that has `all.len()` commits or fewer, none of which takes more
/// than `most` objects, comes to its end: it has at most `most + 2` answers for each commit.
pub proof fn law_collection_ends(
    answers: Answers,
    head: ObjectId,
    range: DateRange,
    include_merges: bool,
    binary: bool,
    states: Seq<CollectState>,
    all: Set<ObjectId>,
    most: nat,
)
    requires
        is_collection(answers, head, range, include_merges, binary, states),
        all.finite(),
        forall|id: ObjectId| #[trigger]
            in_history(answers.commits, head, id) ==> all.contains(id),
        forall|id: ObjectId|
            in_history(answers.commits, head, id) ==> #[trigger] objects_needed(answers, id)
                <= most,
    ensures
        states.len() <= all.len() * (most + 2) + 1,
        states.len() == all.len() * (most + 2) + 1 ==> states.last().request() is Done,
{
    let k = states.len() - 1;
    let n = commits_done(states, k as nat);
    let lists = listing_beside(answers, head, range, include_merges, states, k);
    lemma_collection_progress(answers, head, range, include_merges, binary, states, most, k);
    lemma_listing_beside(answers, head, range, include_merges, binary, states, k);
    law_listing_ends(answers.commits, head, range, include_merges, lists, all);
    if n < all.len() {
        let total = all.len();
        assert((n + 1) * (most + 2) <= total * (most + 2)) by (nonlinear_arith)
            requires
                n + 1 <= total,
        ;
        assert((n + 1) * (most + 2) == n * (most + 2) + (most + 2)) by (nonlinear_arith);
    }
}

/// The statistics of a commit that are computed on their own are those that a collection has
/// for it.
pub proof fn law_single_commit_agrees(
    answers: Answers,
    commit: ObjectId,
    binary: bool,
    states: Seq<StatsState>,
)
    requires
        is_computation(
            answers,
            commit,
            first_of(commit_parents((answers.commits)(commit))),
            binary,
            states,
        ),
        states.last().request() is Done,
    ensures
        states.last().stats() == stats_of(answers, commit, binary),
{
    law_computation_is_exact(
        answers,
        commit,
        first_of(commit_parents((answers.commits)(commit))),
        binary,
        states,
    );
}

/// Leaving out binary files leaves the statistics of the other files as they are.
pub proof fn law_binary_files_left_out(
    objects: spec_fn(ObjectId) -> Seq<u8>,
    changes: Seq<ChangeView>,
)
    ensures
        files_of(objects, changes, false) == files_of(objects, changes, true).filter(
            |f: FileView| !f.is_binary,
        ),
    decreases changes.len(),
{
    let text = |f: FileView| !f.is_binary;
    if changes.len() > 0 {
        let first = changes.drop_last();
        let contents = contents_of(objects, changes.last());
        law_binary_files_left_out(objects, first);
        let shown = change_files(changes.last(), contents, true);
        Seq::filter_distributes_over_add(files_of(objects, first, true), shown, text);
        assert(change_files(changes.last(), contents, false) == shown.filter(text)) by {
            reveal_with_fuel(Seq::filter, 3);
        }
    } else {
        reveal_with_fuel(Seq::filter, 1);
    }
}

/// Binary files count no lines.
pub proof fn law_binary_files_count_no_lines(
    objects: spec_fn(ObjectId) -> Seq<u8>,
    changes: Seq<ChangeView>,
    binary: bool,
    i: int,
)
    requires
        0 <= i < files_of(objects, changes, binary).len(),
        files_of(objects, changes, binary)[i].is_binary,
    ensures
        files_of(objects, changes, binary)[i].added_lines == 0,
        files_of(objects, changes, binary)[i].deleted_lines == 0,
    decreases changes.len(),
{
    if changes.len() > 0 {
        let first = files_of(objects, changes.drop_last(), binary);
        if i < first.len() {
            law_binary_files_count_no_lines(objects, changes.drop_last(), binary, i);
        } else {
            let contents = contents_of(objects, changes.last());
            assert(files_of(objects, changes, binary)[i] == change_files(
                changes.last(),
                contents,
                binary,
            )[i - first.len()]);
        }
    }
}

} // verus!
