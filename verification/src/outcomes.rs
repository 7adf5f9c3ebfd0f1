//! What whole operations give, and how their results go together.

use crate::change::FileView;
use crate::collect::{first_of, CollectRequest, CollectState};
use crate::commit::{commit_parents, committed_at, decoded};
use crate::history::{
    in_history, is_listing, law_listing_ends, law_only_history_is_asked, law_whole_history_is_asked,
    lemma_next, listing_step, wanted_data,
};
use crate::oid::{hex_text, law_hex_is_read_back, lemma_ids_are_finite, ObjectId};
use crate::range::DateRange;
use crate::runs::{
    answerable, collection_answered, collection_step, computation_step, files_of, is_collection,
    is_computation, law_binary_files_left_out, law_collection_ends, law_collection_follows_listing,
    law_computation_ends, law_listing_completes, law_single_commit_agrees, lemma_listing_beside,
    lemma_listing_ended, lemma_listing_run, lemma_listing_states, listing_after, listing_beside,
    listing_run, object_count, objects_needed, stats_answered, stats_of, stats_of_all, Answers,
};
use crate::stats::{StatsState, StatsView};
use crate::walk::ListState;
use vstd::prelude::*;

verus! {

/// Whether the listing of the wanted commits of a history comes to its end and gives `ids`.
pub open spec fn lists(
    commits: spec_fn(ObjectId) -> Seq<u8>,
    head: ObjectId,
    range: DateRange,
    include_merges: bool,
    ids: Seq<ObjectId>,
) -> bool {
    exists|states: Seq<ListState>| #[trigger]
        is_listing(commits, head, range, include_merges, states)
            && states.last().walk.current is None && states.last().ids == ids
}

/// Whether the computation of the statistics of a commit, compared with its first parent where
/// it has one, comes to its end and gives `stats`.
pub open spec fn computes(
    answers: Answers,
    commit: ObjectId,
    binary: bool,
    stats: StatsView,
) -> bool {
    exists|states: Seq<StatsState>| #[trigger]
        is_computation(
            answers,
            commit,
            first_of(commit_parents((answers.commits)(commit))),
            binary,
            states,
        ) && states.last().request() is Done && states.last().stats() == stats
}

/// Whether the collection of the statistics of a history comes to its end and gives `commits`.
pub open spec fn collects(
    answers: Answers,
    head: ObjectId,
    range: DateRange,
    include_merges: bool,
    binary: bool,
    commits: Seq<StatsView>,
) -> bool {
    exists|states: Seq<CollectState>| #[trigger]
        is_collection(answers, head, range, include_merges, binary, states)
            && states.last().request() is Done && states.last().commits == commits
}

/// A computation of statistics can be answered until it ends.
proof fn lemma_compute_to_end(
    answers: Answers,
    commit: ObjectId,
    parent: Option<ObjectId>,
    binary: bool,
    states: Seq<StatsState>,
) -> (full: Seq<StatsState>)
    requires
        is_computation(answers, commit, parent, binary, states),
    ensures
        is_computation(answers, commit, parent, binary, full),
        full.last().request() is Done,
    decreases object_count((answers.diffs)(commit, parent)) + 2 - states.len(),
{
    law_computation_ends(answers, commit, parent, binary, states);
    if states.last().request() is Done {
        states
    } else {
        let longer = states.push(stats_answered(answers, states.last()));
        assert forall|k: int| 1 <= k < longer.len() implies #[trigger] computation_step(
            answers,
            longer,
            k,
        ) by {
            if k < states.len() {
                assert(computation_step(answers, states, k));
            }
        }
        law_computation_ends(answers, commit, parent, binary, longer);
        lemma_compute_to_end(answers, commit, parent, binary, longer)
    }
}

/// The statistics of a commit are what the computation for that commit gives.
pub proof fn law_computation_completes(answers: Answers, commit: ObjectId, binary: bool)
    ensures
        computes(answers, commit, binary, stats_of(answers, commit, binary)),
{
    let parent = first_of(commit_parents((answers.commits)(commit)));
    let start = seq![StatsState::start(commit, parent, binary)];
    let full = lemma_compute_to_end(answers, commit, parent, binary, start);
    law_single_commit_agrees(answers, commit, binary, full);
}

/// A collection gives one entry for each commit that the listing of the same history lists, in
/// the same order, and each entry is what the computation for that commit alone gives.
pub proof fn law_collection_agrees(
    answers: Answers,
    head: ObjectId,
    range: DateRange,
    include_merges: bool,
    binary: bool,
    commits: Seq<StatsView>,
) -> (ids: Seq<ObjectId>)
    requires
        collects(answers, head, range, include_merges, binary, commits),
    ensures
        lists(answers.commits, head, range, include_merges, ids),
        ids.len() == commits.len(),
        forall|i: int|
            0 <= i < ids.len() ==> {
                &&& (#[trigger] commits[i]).commit_id == hex_text(ids[i]@)
                &&& computes(answers, ids[i], binary, commits[i])
            },
        commits == stats_of_all(answers, ids, binary),
{
    let states = choose|states: Seq<CollectState>| #[trigger]
        is_collection(answers, head, range, include_merges, binary, states)
            && states.last().request() is Done && states.last().commits == commits;
    law_listing_completes(answers, head, range, include_merges, binary, states);
    let ids = listing_beside(
        answers,
        head,
        range,
        include_merges,
        states,
        states.len() - 1,
    ).last().ids;
    assert forall|i: int| 0 <= i < ids.len() implies {
        &&& (#[trigger] commits[i]).commit_id == hex_text(ids[i]@)
        &&& computes(answers, ids[i], binary, commits[i])
    } by {
        law_computation_completes(answers, ids[i], binary);
        assert(commits[i] == stats_of(answers, ids[i], binary));
    }
    ids
}

/// What a collection gives is what the listing of the same history lists.
proof fn lemma_collects_listed(
    answers: Answers,
    head: ObjectId,
    range: DateRange,
    include_merges: bool,
    binary: bool,
    commits: Seq<StatsView>,
    ids: Seq<ObjectId>,
)
    requires
        collects(answers, head, range, include_merges, binary, commits),
        lists(answers.commits, head, range, include_merges, ids),
    ensures
        commits == stats_of_all(answers, ids, binary),
{
    let states = choose|states: Seq<CollectState>| #[trigger]
        is_collection(answers, head, range, include_merges, binary, states)
            && states.last().request() is Done && states.last().commits == commits;
    let listing = choose|listing: Seq<ListState>| #[trigger]
        is_listing(answers.commits, head, range, include_merges, listing)
            && listing.last().walk.current is None && listing.last().ids == ids;
    law_collection_follows_listing(
        answers,
        head,
        range,
        include_merges,
        binary,
        states,
        listing,
    );
}

/// A collection gives one result.
pub proof fn law_collection_has_one_result(
    answers: Answers,
    head: ObjectId,
    range: DateRange,
    include_merges: bool,
    binary: bool,
    a: Seq<StatsView>,
    b: Seq<StatsView>,
)
    requires
        collects(answers, head, range, include_merges, binary, a),
        collects(answers, head, range, include_merges, binary, b),
    ensures
        a == b,
{
    let ids = law_collection_agrees(answers, head, range, include_merges, binary, a);
    lemma_collects_listed(answers, head, range, include_merges, binary, b, ids);
}

/// A listing gives one result.
pub proof fn law_listing_has_one_result(
    commits: spec_fn(ObjectId) -> Seq<u8>,
    head: ObjectId,
    range: DateRange,
    include_merges: bool,
    a: Seq<ObjectId>,
    b: Seq<ObjectId>,
)
    requires
        lists(commits, head, range, include_merges, a),
        lists(commits, head, range, include_merges, b),
    ensures
        a == b,
{
    let one = choose|states: Seq<ListState>| #[trigger]
        is_listing(commits, head, range, include_merges, states)
            && states.last().walk.current is None && states.last().ids == a;
    let two = choose|states: Seq<ListState>| #[trigger]
        is_listing(commits, head, range, include_merges, states)
            && states.last().walk.current is None && states.last().ids == b;
    let n = (one.len() - 1) as nat;
    let m = (two.len() - 1) as nat;
    lemma_listing_states(commits, head, range, include_merges, one, n as int);
    lemma_listing_states(commits, head, range, include_merges, two, m as int);
    if n <= m {
        lemma_listing_ended(commits, head, range, include_merges, n, m);
    } else {
        lemma_listing_ended(commits, head, range, include_merges, m, n);
    }
}

/// The computation of a commit's statistics gives one result.
pub proof fn law_computation_has_one_result(
    answers: Answers,
    commit: ObjectId,
    binary: bool,
    a: StatsView,
    b: StatsView,
)
    requires
        computes(answers, commit, binary, a),
        computes(answers, commit, binary, b),
    ensures
        a == b,
{
    let parent = first_of(commit_parents((answers.commits)(commit)));
    let one = choose|states: Seq<StatsState>| #[trigger]
        is_computation(answers, commit, parent, binary, states)
            && states.last().request() is Done && states.last().stats() == a;
    let two = choose|states: Seq<StatsState>| #[trigger]
        is_computation(answers, commit, parent, binary, states)
            && states.last().request() is Done && states.last().stats() == b;
    law_single_commit_agrees(answers, commit, binary, one);
    law_single_commit_agrees(answers, commit, binary, two);
}

/// Every commit that a collection has asked for and got could be read.
proof fn lemma_seen_decoded(
    answers: Answers,
    head: ObjectId,
    range: DateRange,
    include_merges: bool,
    binary: bool,
    states: Seq<CollectState>,
    k: int,
)
    requires
        is_collection(answers, head, range, include_merges, binary, states),
        0 <= k < states.len(),
    ensures
        forall|id: ObjectId| #[trigger]
            states[k].walk.seen.contains(id) && states[k].walk.current != Some(id) ==> decoded(
                (answers.commits)(id),
            ) is Ok,
    decreases k,
{
    if k == 0 {
        lemma_next(CollectState::start(head, range, include_merges, binary).walk);
    } else {
        lemma_seen_decoded(answers, head, range, include_merges, binary, states, k - 1);
        let before = states[k - 1];
        assert(collection_step(answers, states, k));
        match before.request() {
            CollectRequest::Commit(id) => {
                lemma_next(before.with_data((answers.commits)(id))->Ok_0.settled().walk);
            },
            CollectRequest::Diff { .. } | CollectRequest::Object(_) => {
                lemma_listing_beside(
                    answers,
                    head,
                    range,
                    include_merges,
                    binary,
                    states,
                    k - 1,
                );
                let task = stats_answered(answers, before.task->0);
                lemma_next(before.with_task(task).settled().walk);
            },
            CollectRequest::Done => {},
        }
    }
}

/// A finite set of commits has a bound on the objects that each of them takes.
proof fn lemma_objects_bound(answers: Answers, all: Set<ObjectId>) -> (most: nat)
    requires
        all.finite(),
    ensures
        forall|id: ObjectId| all.contains(id) ==> #[trigger] objects_needed(answers, id) <= most,
    decreases all.len(),
{
    if all.len() == 0 {
        assert(all =~= Set::empty());
        0
    } else {
        let one = all.choose();
        let rest = all.remove(one);
        let most = lemma_objects_bound(answers, rest);
        let needed = objects_needed(answers, one);
        assert forall|id: ObjectId| all.contains(id) implies #[trigger] objects_needed(
            answers,
            id,
        ) <= most + needed by {
            assert(id == one || rest.contains(id));
        }
        most + needed
    }
}

/// A collection over a history that can be read can be answered until it ends.
proof fn lemma_collect_to_end(
    answers: Answers,
    head: ObjectId,
    range: DateRange,
    include_merges: bool,
    binary: bool,
    states: Seq<CollectState>,
    all: Set<ObjectId>,
    most: nat,
) -> (full: Seq<CollectState>)
    requires
        is_collection(answers, head, range, include_merges, binary, states),
        all.finite(),
        forall|id: ObjectId| #[trigger]
            in_history(answers.commits, head, id) ==> all.contains(id) && decoded(
                (answers.commits)(id),
            ) is Ok,
        forall|id: ObjectId|
            in_history(answers.commits, head, id) ==> #[trigger] objects_needed(answers, id)
                <= most,
    ensures
        is_collection(answers, head, range, include_merges, binary, full),
        full.last().request() is Done,
    decreases all.len() * (most + 2) + 1 - states.len(),
{
    let last = states.len() - 1;
    if states.last().request() is Done {
        states
    } else {
        let longer = states.push(collection_answered(answers, states.last()));
        lemma_listing_beside(answers, head, range, include_merges, binary, states, last);
        if states.last().request() is Commit {
            let listing = listing_beside(answers, head, range, include_merges, states, last);
            law_only_history_is_asked(
                answers.commits,
                head,
                range,
                include_merges,
                listing,
                listing.len() - 1,
            );
        }
        assert forall|k: int| 1 <= k < longer.len() implies #[trigger] collection_step(
            answers,
            longer,
            k,
        ) by {
            if k < states.len() {
                assert(collection_step(answers, states, k));
            }
        }
        law_collection_ends(
            answers,
            head,
            range,
            include_merges,
            binary,
            longer,
            all,
            most,
        );
        lemma_collect_to_end(
            answers,
            head,
            range,
            include_merges,
            binary,
            longer,
            all,
            most,
        )
    }
}

/// Whether every commit of the history of `head` has a time that can be read.
pub open spec fn times_readable(commits: spec_fn(ObjectId) -> Seq<u8>, head: ObjectId) -> bool {
    forall|id: ObjectId| #[trigger]
        in_history(commits, head, id) ==> committed_at(commits(id)) is Ok
}

/// Whether every commit of the history of `head` can be read.
pub open spec fn commits_readable(
    commits: spec_fn(ObjectId) -> Seq<u8>,
    head: ObjectId,
) -> bool {
    forall|id: ObjectId| #[trigger] in_history(commits, head, id) ==> decoded(commits(id)) is Ok
}

/// Every commit that a listing has asked for and got has a time that could be read.
proof fn lemma_seen_times(
    commits: spec_fn(ObjectId) -> Seq<u8>,
    head: ObjectId,
    range: DateRange,
    include_merges: bool,
    states: Seq<ListState>,
    k: int,
)
    requires
        is_listing(commits, head, range, include_merges, states),
        0 <= k < states.len(),
    ensures
        forall|id: ObjectId| #[trigger]
            states[k].walk.seen.contains(id) && states[k].walk.current != Some(id)
                ==> committed_at(commits(id)) is Ok,
    decreases k,
{
    if k == 0 {
        lemma_next(ListState::start(head, range, include_merges).walk);
    } else {
        lemma_seen_times(commits, head, range, include_merges, states, k - 1);
        let before = states[k - 1];
        assert(listing_step(commits, states, k));
        lemma_next(before.with_data(commits(before.walk.current->0))->Ok_0.walk);
    }
}

/// A listing over a history whose times can be read can be answered until it ends.
proof fn lemma_list_to_end(
    commits: spec_fn(ObjectId) -> Seq<u8>,
    head: ObjectId,
    range: DateRange,
    include_merges: bool,
    states: Seq<ListState>,
    all: Set<ObjectId>,
) -> (full: Seq<ListState>)
    requires
        is_listing(commits, head, range, include_merges, states),
        times_readable(commits, head),
        all.finite(),
        forall|id: ObjectId| #[trigger] in_history(commits, head, id) ==> all.contains(id),
    ensures
        is_listing(commits, head, range, include_merges, full),
        full.last().walk.current is None,
    decreases all.len() + 1 - states.len(),
{
    if states.last().walk.current is None {
        states
    } else {
        let last = states.len() - 1;
        law_only_history_is_asked(commits, head, range, include_merges, states, last);
        let data = commits(states.last().walk.current->0);
        let longer = states.push(states.last().with_data(data)->Ok_0.next());
        assert forall|k: int| 1 <= k < longer.len() implies #[trigger] listing_step(
            commits,
            longer,
            k,
        ) by {
            if k < states.len() {
                assert(listing_step(commits, states, k));
            }
        }
        law_listing_ends(commits, head, range, include_merges, longer, all);
        lemma_list_to_end(commits, head, range, include_merges, longer, all)
    }
}

/// A listing comes to its end if and only if every commit of the history has a time that can be
/// read, in the range or not.
pub proof fn law_listing_ends_where_times_are_readable(
    commits: spec_fn(ObjectId) -> Seq<u8>,
    head: ObjectId,
    range: DateRange,
    include_merges: bool,
)
    ensures
        (exists|ids: Seq<ObjectId>| lists(commits, head, range, include_merges, ids))
            <==> times_readable(commits, head),
{
    if exists|ids: Seq<ObjectId>| lists(commits, head, range, include_merges, ids) {
        let ids = choose|ids: Seq<ObjectId>| lists(commits, head, range, include_merges, ids);
        let states = choose|states: Seq<ListState>| #[trigger]
            is_listing(commits, head, range, include_merges, states)
                && states.last().walk.current is None && states.last().ids == ids;
        law_whole_history_is_asked(commits, head, range, include_merges, states);
        lemma_seen_times(commits, head, range, include_merges, states, states.len() - 1);
        assert forall|id: ObjectId| #[trigger]
            in_history(commits, head, id) implies committed_at(commits(id)) is Ok by {
            assert(states.last().walk.seen.contains(id));
        }
    }
    if times_readable(commits, head) {
        let all = Set::new(|id: ObjectId| in_history(commits, head, id));
        lemma_ids_are_finite(all);
        let start = seq![ListState::start(head, range, include_merges).next()];
        let full = lemma_list_to_end(commits, head, range, include_merges, start, all);
        assert(lists(commits, head, range, include_merges, full.last().ids));
    }
}

/// A collection comes to its end if and only if every commit of the history can be read, in the
/// range or not.
pub proof fn law_collection_ends_where_commits_are_readable(
    answers: Answers,
    head: ObjectId,
    range: DateRange,
    include_merges: bool,
    binary: bool,
)
    ensures
        (exists|commits: Seq<StatsView>|
            collects(answers, head, range, include_merges, binary, commits))
            <==> commits_readable(answers.commits, head),
{
    if exists|commits: Seq<StatsView>|
        collects(answers, head, range, include_merges, binary, commits) {
        let commits = choose|commits: Seq<StatsView>|
            collects(answers, head, range, include_merges, binary, commits);
        let states = choose|states: Seq<CollectState>| #[trigger]
            is_collection(answers, head, range, include_merges, binary, states)
                && states.last().request() is Done && states.last().commits == commits;
        let last = states.len() - 1;
        law_listing_completes(answers, head, range, include_merges, binary, states);
        lemma_listing_beside(answers, head, range, include_merges, binary, states, last);
        lemma_seen_decoded(answers, head, range, include_merges, binary, states, last);
        let listing = listing_beside(answers, head, range, include_merges, states, last);
        law_whole_history_is_asked(answers.commits, head, range, include_merges, listing);
        assert forall|id: ObjectId| #[trigger]
            in_history(answers.commits, head, id) implies decoded(
            (answers.commits)(id),
        ) is Ok by {
            assert(states.last().walk.seen.contains(id));
        }
    }
    if commits_readable(answers.commits, head) {
        let all = Set::new(|id: ObjectId| in_history(answers.commits, head, id));
        lemma_ids_are_finite(all);
        let most = lemma_objects_bound(answers, all);
        let start = seq![
            CollectState::start(head, range, include_merges, binary).advanced(),
        ];
        let full = lemma_collect_to_end(
            answers,
            head,
            range,
            include_merges,
            binary,
            start,
            all,
            most,
        );
        assert(collects(
            answers,
            head,
            range,
            include_merges,
            binary,
            full.last().commits,
        ));
    }
}

/// Where one collection over a history comes to its end, so does every other one over the same
/// history, whatever its range and whether or not it has merges and binary files.
pub proof fn law_collections_end_together(
    answers: Answers,
    head: ObjectId,
    range: DateRange,
    include_merges: bool,
    binary: bool,
    commits: Seq<StatsView>,
    other_range: DateRange,
    other_include_merges: bool,
    other_binary: bool,
) -> (other: Seq<StatsView>)
    requires
        collects(answers, head, range, include_merges, binary, commits),
    ensures
        collects(answers, head, other_range, other_include_merges, other_binary, other),
{
    law_collection_ends_where_commits_are_readable(
        answers,
        head,
        range,
        include_merges,
        binary,
    );
    law_collection_ends_where_commits_are_readable(
        answers,
        head,
        other_range,
        other_include_merges,
        other_binary,
    );
    choose|other: Seq<StatsView>|
        collects(answers, head, other_range, other_include_merges, other_binary, other)
}

/// Statistics without their binary files.
pub open spec fn without_binary(stats: StatsView) -> StatsView {
    StatsView {
        commit_id: stats.commit_id,
        files: stats.files.filter(|f: FileView| !f.is_binary),
    }
}

/// A collection without binary files gives the entries that the collection with them gives, in
/// the same order, each without its binary files.
pub proof fn law_collection_without_binary(
    answers: Answers,
    head: ObjectId,
    range: DateRange,
    include_merges: bool,
    commits: Seq<StatsView>,
)
    requires
        collects(answers, head, range, include_merges, true, commits),
    ensures
        collects(
            answers,
            head,
            range,
            include_merges,
            false,
            commits.map_values(|c: StatsView| without_binary(c)),
        ),
{
    let ids = law_collection_agrees(answers, head, range, include_merges, true, commits);
    let other = law_collections_end_together(
        answers,
        head,
        range,
        include_merges,
        true,
        commits,
        range,
        include_merges,
        false,
    );
    lemma_collects_listed(answers, head, range, include_merges, false, other, ids);
    let expected = commits.map_values(|c: StatsView| without_binary(c));
    assert forall|i: int| 0 <= i < ids.len() implies other[i] == expected[i] by {
        let changes = (answers.diffs)(
            ids[i],
            first_of(commit_parents((answers.commits)(ids[i]))),
        );
        law_binary_files_left_out(answers.objects, changes);
        assert(other[i].files == files_of(answers.objects, changes, false));
        assert(commits[i].files == files_of(answers.objects, changes, true));
    }
    assert(other == expected);
}

/// Whether the commit with this data is a merge: whether it has two parents or more.
pub open spec fn is_merge(data: Seq<u8>) -> bool {
    commit_parents(data).len() >= 2
}

/// Whether statistics are those of a merge.
pub open spec fn is_merge_entry(answers: Answers, stats: StatsView) -> bool {
    exists|id: ObjectId| #[trigger]
        hex_text(id@) == stats.commit_id && is_merge((answers.commits)(id))
}

/// Whether statistics are those of a wanted commit.
pub open spec fn is_wanted_entry(
    answers: Answers,
    range: DateRange,
    include_merges: bool,
    stats: StatsView,
) -> bool {
    exists|id: ObjectId| #[trigger]
        hex_text(id@) == stats.commit_id && wanted_data(
            range,
            include_merges,
            (answers.commits)(id),
        )
}

/// The range of all time.
pub open spec fn all_time() -> DateRange {
    DateRange { since: None, until: None }
}

/// A listing goes with the one of all commits: they are at the same commit, and it lists of what
/// that one lists what is wanted.
proof fn lemma_listing_filtered(
    commits: spec_fn(ObjectId) -> Seq<u8>,
    head: ObjectId,
    range: DateRange,
    include_merges: bool,
    n: nat,
)
    ensures
        ({
            let all = listing_after(commits, head, all_time(), true, n);
            let some = listing_after(commits, head, range, include_merges, n);
            &&& all.range == all_time()
            &&& all.include_merges
            &&& some.range == range
            &&& some.include_merges == include_merges
            &&& some.walk == all.walk
            &&& some.ids == all.ids.filter(
                |id: ObjectId| wanted_data(range, include_merges, commits(id)),
            )
        }),
    decreases n,
{
    reveal(Seq::filter);
    if n > 0 {
        lemma_listing_filtered(commits, head, range, include_merges, (n - 1) as nat);
        let before = listing_after(commits, head, all_time(), true, (n - 1) as nat);
        if answerable(commits, before) {
            let id = before.walk.current->0;
            assert(before.ids.push(id).drop_last() == before.ids);
        }
    }
}

/// A listing for any range, with or without merges, lists what the listing of all commits of the
/// history lists, in the same order, but only what is wanted.
pub proof fn law_listing_is_filtered(
    commits: spec_fn(ObjectId) -> Seq<u8>,
    head: ObjectId,
    range: DateRange,
    include_merges: bool,
    ids: Seq<ObjectId>,
)
    requires
        lists(commits, head, all_time(), true, ids),
    ensures
        lists(
            commits,
            head,
            range,
            include_merges,
            ids.filter(|id: ObjectId| wanted_data(range, include_merges, commits(id))),
        ),
{
    let states = choose|states: Seq<ListState>| #[trigger]
        is_listing(commits, head, all_time(), true, states)
            && states.last().walk.current is None && states.last().ids == ids;
    let n = (states.len() - 1) as nat;
    assert forall|j: nat| j < n implies answerable(
        commits,
        #[trigger] listing_after(commits, head, range, include_merges, j),
    ) by {
        lemma_listing_filtered(commits, head, range, include_merges, j);
        lemma_listing_states(commits, head, all_time(), true, states, j as int);
        assert(listing_step(commits, states, j as int + 1));
    }
    lemma_listing_run(commits, head, range, include_merges, n);
    lemma_listing_states(commits, head, all_time(), true, states, n as int);
    lemma_listing_filtered(commits, head, range, include_merges, n);
    assert(listing_run(commits, head, range, include_merges, n).last().walk.current is None);
}

/// What is wanted and no merge is what is wanted where merges are not.
proof fn lemma_wanted_without_merges(
    commits: spec_fn(ObjectId) -> Seq<u8>,
    range: DateRange,
    ids: Seq<ObjectId>,
)
    ensures
        ids.filter(|id: ObjectId| wanted_data(range, true, commits(id))).filter(
            |id: ObjectId| !is_merge(commits(id)),
        ) == ids.filter(|id: ObjectId| wanted_data(range, false, commits(id))),
    decreases ids.len(),
{
    reveal(Seq::filter);
    if ids.len() > 0 {
        lemma_wanted_without_merges(commits, range, ids.drop_last());
        let kept = ids.drop_last().filter(
            |id: ObjectId| wanted_data(range, true, commits(id)),
        );
        assert(kept.push(ids.last()).drop_last() == kept);
    }
}

/// A listing without merges lists what the listing with them lists, in the same order, without
/// exactly the commits of two or more parents.
pub proof fn law_listing_without_merges(
    commits: spec_fn(ObjectId) -> Seq<u8>,
    head: ObjectId,
    range: DateRange,
    ids: Seq<ObjectId>,
)
    requires
        lists(commits, head, range, true, ids),
    ensures
        lists(
            commits,
            head,
            range,
            false,
            ids.filter(|id: ObjectId| !is_merge(commits(id))),
        ),
{
    law_listing_ends_where_times_are_readable(commits, head, range, true);
    law_listing_ends_where_times_are_readable(commits, head, all_time(), true);
    let all = choose|all: Seq<ObjectId>| lists(commits, head, all_time(), true, all);
    let with = all.filter(|id: ObjectId| wanted_data(range, true, commits(id)));
    law_listing_is_filtered(commits, head, range, true, all);
    law_listing_is_filtered(commits, head, range, false, all);
    law_listing_has_one_result(commits, head, range, true, ids, with);
    lemma_wanted_without_merges(commits, range, all);
}

/// The entries of some of the commits are those of the entries that are about them.
proof fn lemma_entries_filtered(
    answers: Answers,
    ids: Seq<ObjectId>,
    binary: bool,
    of_commits: spec_fn(ObjectId) -> bool,
    of_entries: spec_fn(StatsView) -> bool,
)
    requires
        forall|id: ObjectId|
            of_entries(#[trigger] stats_of(answers, id, binary)) == of_commits(id),
    ensures
        stats_of_all(answers, ids.filter(of_commits), binary) == stats_of_all(
            answers,
            ids,
            binary,
        ).filter(of_entries),
    decreases ids.len(),
{
    reveal(Seq::filter);
    if ids.len() > 0 {
        let rest = ids.drop_last();
        let entry = stats_of(answers, ids.last(), binary);
        lemma_entries_filtered(answers, rest, binary, of_commits, of_entries);
        assert(stats_of_all(answers, ids, binary).drop_last() == stats_of_all(
            answers,
            rest,
            binary,
        ));
        let kept = rest.filter(of_commits);
        assert(stats_of_all(answers, kept.push(ids.last()), binary) == stats_of_all(
            answers,
            kept,
            binary,
        ).push(entry));
    } else {
        assert(stats_of_all(answers, ids, binary) == Seq::<StatsView>::empty());
    }
}

/// A collection without merges gives the entries that the collection with them gives, in the
/// same order, without exactly those of the commits of two or more parents.
pub proof fn law_collection_without_merges(
    answers: Answers,
    head: ObjectId,
    range: DateRange,
    binary: bool,
    commits: Seq<StatsView>,
)
    requires
        collects(answers, head, range, true, binary, commits),
    ensures
        collects(
            answers,
            head,
            range,
            false,
            binary,
            commits.filter(|c: StatsView| !is_merge_entry(answers, c)),
        ),
{
    let ids = law_collection_agrees(answers, head, range, true, binary, commits);
    let other = law_collections_end_together(
        answers,
        head,
        range,
        true,
        binary,
        commits,
        range,
        false,
        binary,
    );
    let of_commits = |id: ObjectId| !is_merge((answers.commits)(id));
    let of_entries = |c: StatsView| !is_merge_entry(answers, c);
    law_listing_without_merges(answers.commits, head, range, ids);
    lemma_collects_listed(answers, head, range, false, binary, other, ids.filter(of_commits));
    assert forall|id: ObjectId|
        of_entries(#[trigger] stats_of(answers, id, binary)) == of_commits(id) by {
        let entry = stats_of(answers, id, binary);
        assert(hex_text(id@) == entry.commit_id);
        if is_merge_entry(answers, entry) {
            let same = choose|same: ObjectId| #[trigger]
                hex_text(same@) == entry.commit_id && is_merge((answers.commits)(same));
            law_hex_is_read_back(id, same);
        }
    }
    lemma_entries_filtered(answers, ids, binary, of_commits, of_entries);
}

/// A collection for any range, with or without merges, gives the entries that the collection of
/// all commits of the history gives, in the same order, but only those of wanted commits.
pub proof fn law_collection_is_filtered(
    answers: Answers,
    head: ObjectId,
    range: DateRange,
    include_merges: bool,
    binary: bool,
    commits: Seq<StatsView>,
)
    requires
        collects(answers, head, all_time(), true, binary, commits),
    ensures
        collects(
            answers,
            head,
            range,
            include_merges,
            binary,
            commits.filter(
                |c: StatsView| is_wanted_entry(answers, range, include_merges, c),
            ),
        ),
{
    let ids = law_collection_agrees(answers, head, all_time(), true, binary, commits);
    let other = law_collections_end_together(
        answers,
        head,
        all_time(),
        true,
        binary,
        commits,
        range,
        include_merges,
        binary,
    );
    let of_commits = |id: ObjectId| wanted_data(range, include_merges, (answers.commits)(id));
    let of_entries = |c: StatsView| is_wanted_entry(answers, range, include_merges, c);
    law_listing_is_filtered(answers.commits, head, range, include_merges, ids);
    lemma_collects_listed(
        answers,
        head,
        range,
        include_merges,
        binary,
        other,
        ids.filter(of_commits),
    );
    assert forall|id: ObjectId|
        of_entries(#[trigger] stats_of(answers, id, binary)) == of_commits(id) by {
        let entry = stats_of(answers, id, binary);
        assert(hex_text(id@) == entry.commit_id);
        if is_wanted_entry(answers, range, include_merges, entry) {
            let same = choose|same: ObjectId| #[trigger]
                hex_text(same@) == entry.commit_id && wanted_data(
                    range,
                    include_merges,
                    (answers.commits)(same),
                );
            law_hex_is_read_back(id, same);
        }
    }
    lemma_entries_filtered(answers, ids, binary, of_commits, of_entries);
}

} // verus!
