//! What the operations promise, said of their inputs and results alone.

use crate::blob::{
    added_by, deleted_by, diffable, kept, line_count, line_diff, line_ends, line_ops, looks_binary,
    occurrences, split_count, tally, text_of, LineOp, LineTag,
};
use crate::change::{
    change_files, comparable, data_view, files_view, objects_of, Change, ChangeView, FileStats,
    FileView,
};
use crate::collect::{first_of, stats_view, CollectRequest, CollectState};
use crate::commit::{
    bstr_text, commit_author, commit_parents, commit_seconds, commit_title, committed_at, decoded,
    info_of, shown_text, CommitInfo, CommitMeta, InfoView, MetaView,
};
use crate::duration::{
    counted, duration_reading, law_counted_spans, natural_seconds, relative_span, span_seconds,
    DurationReading, DurationUnit,
};
use crate::error::{outcome, outcome_view, ErrorView, GmapError};
use crate::history::{
    in_history, is_listing, is_path, law_listing_is_exact, parent_step, wanted_data,
};
use crate::oid::{hex_text, parsed_hex, ObjectId};
use crate::outcomes::{
    collects, law_collection_agrees, law_listing_ends_where_times_are_readable, lists,
};
use crate::range::{
    date_reading, ends_representable, range_between, Bound, DateRange, DateReading, RevisionLookup,
};
use crate::repo::{commit_id_of, found_info};
use crate::runs::{files_of, stats_of, Answers};
use crate::stats::{
    changes_view, diff_error, find_error_view, missing_error, CommitStats, DiffFailure,
    StatsRequest, StatsState, StatsView,
};
use crate::text::{before_suffix, decimal, ends_with, i64_text, lowercase, trimmed};
use crate::timestamp::{
    date_day, instant_text, rfc3339_instant, Timestamp, MAX_DAY, MAX_SECONDS, MIN_DAY, MIN_SECONDS,
};
use crate::walk::{wanted, ListState, WalkState};
use vstd::prelude::*;
use vstd::utf8::{decode_utf8, valid_utf8};

verus! {

// ---- Instants and ranges ----

/// Whether `a` is at or before `b`: by the seconds, and within a second by the nanoseconds.
pub open spec fn at_or_before(a: Timestamp, b: Timestamp) -> bool {
    a.secs < b.secs || (a.secs == b.secs && a.nanos <= b.nanos)
}

/// Instants are ordered as the number of nanoseconds that they stand for, with room for a leap
/// second in every second.
pub proof fn law_later_is_a_larger_number(a: Timestamp, b: Timestamp)
    requires
        a.nanos < 2_000_000_000,
        b.nanos < 2_000_000_000,
    ensures
        a.later_than(b) <==> a.secs * 2_000_000_000 + a.nanos > b.secs * 2_000_000_000 + b.nanos,
        a.later_than(b) <==> !at_or_before(a, b),
{
}

/// An instant is representable exactly if its second is, it has fewer than two thousand million
/// nanoseconds, and a thousand million or more only in the last second of a minute.
pub proof fn law_representable_instants(at: Timestamp)
    ensures
        at.wf() <==> {
            &&& -8_334_601_228_800 <= at.secs <= 8_210_266_876_799
            &&& at.nanos < 2_000_000_000
            &&& at.nanos < 1_000_000_000 || at.secs as int % 60 == 59
        },
{
}

/// A range has an instant exactly if that is neither before its start nor after its end.
pub proof fn law_range_has_what_lies_between(range: DateRange, at: Timestamp)
    ensures
        range.has(at) <==> {
            &&& range.since is Some ==> at_or_before(range.since->0, at)
            &&& range.until is Some ==> at_or_before(at, range.until->0)
        },
{
}

/// A commit is wanted exactly if it is not before the start of the range, not after its end,
/// and has at most one parent or merges are wanted.
pub proof fn law_wanted_commits(
    range: DateRange,
    include_merges: bool,
    at: Timestamp,
    parents: nat,
)
    ensures
        wanted(range, include_merges, at, parents) <==> {
            &&& range.since is Some ==> range.since->0.secs < at.secs || (range.since->0.secs
                == at.secs && range.since->0.nanos <= at.nanos)
            &&& range.until is Some ==> at.secs < range.until->0.secs || (at.secs
                == range.until->0.secs && at.nanos <= range.until->0.nanos)
            &&& include_merges || parents < 2
        },
{
}

/// A commit that is wanted in a range is wanted in every wider one, and where merges are wanted
/// too.
pub proof fn law_wanted_in_wider_ranges(
    range: DateRange,
    wider: DateRange,
    include_merges: bool,
    at: Timestamp,
    parents: nat,
)
    requires
        wanted(range, include_merges, at, parents),
        wider.since is Some ==> range.since is Some && at_or_before(
            wider.since->0,
            range.since->0,
        ),
        wider.until is Some ==> range.until is Some && at_or_before(
            range.until->0,
            wider.until->0,
        ),
    ensures
        wanted(wider, include_merges, at, parents),
        wanted(wider, true, at, parents),
{
}

/// Where a range has no end, every commit at or after its start is wanted that is no merge; where
/// it has no start, every one at or before its end; where it has neither, every one.
pub proof fn law_open_ranges_want_all(
    end: Timestamp,
    include_merges: bool,
    at: Timestamp,
    parents: nat,
)
    requires
        parents <= 1 || include_merges,
    ensures
        at_or_before(end, at) ==> wanted(
            DateRange { since: Some(end), until: None },
            include_merges,
            at,
            parents,
        ),
        at_or_before(at, end) ==> wanted(
            DateRange { since: None, until: Some(end) },
            include_merges,
            at,
            parents,
        ),
        wanted(DateRange { since: None, until: None }, include_merges, at, parents),
{
}

/// Whether a commit with this committer's second count and so many parents belongs to a listing.
pub open spec fn belongs(range: DateRange, include_merges: bool, secs: i64, parents: nat) -> bool {
    &&& range.since is Some ==> at_or_before(range.since->0, Timestamp { secs, nanos: 0 })
    &&& range.until is Some ==> at_or_before(Timestamp { secs, nanos: 0 }, range.until->0)
    &&& include_merges || parents < 2
}

/// Whether a commit is wanted is decided by its committer's second count and the number of its
/// parents.
pub proof fn law_wanted_by_its_data(range: DateRange, include_merges: bool, data: Seq<u8>)
    requires
        committed_at(data) is Ok,
    ensures
        wanted_data(range, include_merges, data) <==> belongs(
            range,
            include_merges,
            commit_seconds(data)->Ok_0,
            commit_parents(data).len(),
        ),
{
}

// ---- Histories and walks ----

/// A history has its head, and the parents of each of its commits.
pub proof fn law_history_is_closed(
    commits: spec_fn(ObjectId) -> Seq<u8>,
    head: ObjectId,
    id: ObjectId,
    i: int,
)
    ensures
        in_history(commits, head, head),
        in_history(commits, head, id) && 0 <= i < commit_parents(commits(id)).len() ==> in_history(
            commits,
            head,
            commit_parents(commits(id))[i],
        ),
{
    assert(is_path(commits, head, head, seq![head]));
    if in_history(commits, head, id) && 0 <= i < commit_parents(commits(id)).len() {
        let parent = commit_parents(commits(id))[i];
        let path = choose|path: Seq<ObjectId>| #[trigger] is_path(commits, head, id, path);
        let longer = path.push(parent);
        assert forall|k: int| 1 <= k < longer.len() implies #[trigger] parent_step(
            commits,
            longer,
            k,
        ) by {
            if k < path.len() {
                assert(parent_step(commits, path, k));
            }
        }
        assert(is_path(commits, head, parent, longer));
    }
}

/// A history has no other commits: they are in every set that has the head, and the parents of
/// each commit in it.
pub proof fn law_history_is_least(
    commits: spec_fn(ObjectId) -> Seq<u8>,
    head: ObjectId,
    set: Set<ObjectId>,
    id: ObjectId,
)
    requires
        set.contains(head),
        forall|c: ObjectId, i: int|
            set.contains(c) && 0 <= i < commit_parents(commits(c)).len() ==> set.contains(
                #[trigger] commit_parents(commits(c))[i],
            ),
        in_history(commits, head, id),
    ensures
        set.contains(id),
{
    let path = choose|path: Seq<ObjectId>| #[trigger] is_path(commits, head, id, path);
    lemma_path_inside(commits, head, set, path, path.len() - 1);
}

proof fn lemma_path_inside(
    commits: spec_fn(ObjectId) -> Seq<u8>,
    head: ObjectId,
    set: Set<ObjectId>,
    path: Seq<ObjectId>,
    k: int,
)
    requires
        set.contains(head),
        forall|c: ObjectId, i: int|
            set.contains(c) && 0 <= i < commit_parents(commits(c)).len() ==> set.contains(
                #[trigger] commit_parents(commits(c))[i],
            ),
        is_path(commits, head, path.last(), path),
        0 <= k < path.len(),
    ensures
        set.contains(path[k]),
    decreases k,
{
    if k > 0 {
        lemma_path_inside(commits, head, set, path, k - 1);
        assert(parent_step(commits, path, k));
        let parents = commit_parents(commits(path[k - 1]));
        let i = parents.index_of(path[k]);
        assert(set.contains(parents[i]));
    }
}

/// Whether a walk goes on from a stack to `next`: it takes the last commit on the stack that it
/// has not seen, drops what stands behind it, and keeps what stands before it.
pub open spec fn takes_last_unseen(
    stack: Seq<ObjectId>,
    seen: Set<ObjectId>,
    next: WalkState,
) -> bool {
    match next.current {
        Some(id) => exists|i: int|
            {
                &&& 0 <= i < stack.len()
                &&& #[trigger] stack[i] == id
                &&& !seen.contains(id)
                &&& forall|j: int| i < j < stack.len() ==> seen.contains(#[trigger] stack[j])
                &&& next.stack == stack.take(i)
                &&& next.seen == seen.insert(id)
            },
        None => {
            &&& forall|j: int| 0 <= j < stack.len() ==> seen.contains(#[trigger] stack[j])
            &&& next.stack.len() == 0
            &&& next.seen == seen
        },
    }
}

proof fn lemma_takes_last_unseen(walk: WalkState)
    ensures
        takes_last_unseen(walk.stack, walk.seen, walk.next()),
    decreases walk.stack.len(),
{
    if walk.stack.len() > 0 {
        let end = walk.stack.len() - 1;
        let rest = WalkState { stack: walk.stack.drop_last(), ..walk };
        if walk.seen.contains(walk.stack.last()) {
            lemma_takes_last_unseen(rest);
            if let Some(id) = walk.next().current {
                let i = choose|i: int|
                    {
                        &&& 0 <= i < rest.stack.len()
                        &&& #[trigger] rest.stack[i] == id
                        &&& !walk.seen.contains(id)
                        &&& forall|j: int|
                            i < j < rest.stack.len() ==> walk.seen.contains(
                                #[trigger] rest.stack[j],
                            )
                        &&& walk.next().stack == rest.stack.take(i)
                        &&& walk.next().seen == walk.seen.insert(id)
                    };
                assert(walk.stack[i] == id);
                assert forall|j: int| i < j < walk.stack.len() implies walk.seen.contains(
                    #[trigger] walk.stack[j],
                ) by {
                    if j < end {
                        assert(rest.stack[j] == walk.stack[j]);
                    }
                }
                assert(rest.stack.take(i) == walk.stack.take(i));
            } else {
                assert forall|j: int| 0 <= j < walk.stack.len() implies walk.seen.contains(
                    #[trigger] walk.stack[j],
                ) by {
                    if j < end {
                        assert(rest.stack[j] == walk.stack[j]);
                    }
                }
            }
        } else {
            assert(walk.stack[end] == walk.stack.last());
            assert(walk.stack.take(end) == walk.stack.drop_last());
        }
    }
}

/// A walk starts at its head; from a commit it goes on to the last one that it has not seen among
/// those that it has still to look at and, behind them, the parents of that commit in their order.
pub proof fn law_walk_order(head: ObjectId, walk: WalkState, parents: Seq<ObjectId>)
    ensures
        takes_last_unseen(seq![head], Set::empty(), WalkState::start(head).next()),
        takes_last_unseen(
            walk.stack + parents,
            walk.seen,
            walk.with_parents(parents).next(),
        ),
{
    lemma_takes_last_unseen(WalkState::start(head));
    lemma_takes_last_unseen(walk.with_parents(parents));
}

/// A listing that reads the commit it is at puts it last on its list exactly if it belongs
/// there, and has all its parents to look at; it fails exactly if the time cannot be read.
pub proof fn law_listing_step(s: ListState, data: Seq<u8>)
    requires
        s.walk.current is Some,
    ensures
        s.with_data(data) is Ok <==> commit_seconds(data) is Ok && MIN_SECONDS
            <= commit_seconds(data)->Ok_0 <= MAX_SECONDS,
        s.with_data(data) is Err ==> s.with_data(data)->Err_0 == committed_at(data)->Err_0,
        s.with_data(data) is Ok ==> {
            let t = s.with_data(data)->Ok_0;
            let parents = commit_parents(data);
            &&& t.range == s.range
            &&& t.include_merges == s.include_merges
            &&& t.walk.stack == s.walk.stack + parents
            &&& t.walk.seen == s.walk.seen
            &&& t.ids == if belongs(
                s.range,
                s.include_merges,
                commit_seconds(data)->Ok_0,
                parents.len(),
            ) {
                s.ids.push(s.walk.current->0)
            } else {
                s.ids
            }
        },
{
}

/// A listing has each commit of the history once whose committer's time lies in the range and
/// that is no merge, or a merge where those are wanted, and has no others.
pub proof fn law_listed_commits(
    commits: spec_fn(ObjectId) -> Seq<u8>,
    head: ObjectId,
    range: DateRange,
    include_merges: bool,
    ids: Seq<ObjectId>,
)
    requires
        lists(commits, head, range, include_merges, ids),
    ensures
        ids.no_duplicates(),
        forall|id: ObjectId| #[trigger]
            ids.contains(id) <==> (in_history(commits, head, id) && belongs(
                range,
                include_merges,
                commit_seconds(commits(id))->Ok_0,
                commit_parents(commits(id)).len(),
            )),
{
    let states = choose|states: Seq<ListState>| #[trigger]
        is_listing(commits, head, range, include_merges, states)
            && states.last().walk.current is None && states.last().ids == ids;
    law_listing_is_exact(commits, head, range, include_merges, states);
    law_listing_ends_where_times_are_readable(commits, head, range, include_merges);
    assert forall|id: ObjectId| #[trigger]
        ids.contains(id) <==> (in_history(commits, head, id) && belongs(
            range,
            include_merges,
            commit_seconds(commits(id))->Ok_0,
            commit_parents(commits(id)).len(),
        )) by {
        if in_history(commits, head, id) {
            law_wanted_by_its_data(range, include_merges, commits(id));
        }
    }
}

// ---- What is compared, and with what ----

/// The statistics of a commit on its own are asked for against the first of its parents, and
/// against nothing where it has none.
pub proof fn law_computation_asks_for_first_parent(commit: ObjectId, data: Seq<u8>, binary: bool)
    ensures
        commit_parents(data).len() > 0 ==> StatsState::start(
            commit,
            first_of(commit_parents(data)),
            binary,
        ).request() == (StatsRequest::Diff { commit, parent: Some(commit_parents(data)[0]) }),
        commit_parents(data).len() == 0 ==> StatsState::start(
            commit,
            first_of(commit_parents(data)),
            binary,
        ).request() == (StatsRequest::Diff { commit, parent: None }),
{
}

/// A collection that reads the commit it is at asks next for its changes against the first of
/// its parents, or against nothing where it has none, exactly if the commit belongs to it.
pub proof fn law_collection_asks_for_first_parent(s: CollectState, data: Seq<u8>)
    requires
        s.task is None,
        s.walk.current is Some,
        s.with_data(data) is Ok,
    ensures
        ({
            let t = s.with_data(data)->Ok_0;
            let parents = commit_parents(data);
            let commit = s.walk.current->0;
            &&& t.task is Some <==> belongs(
                s.range,
                s.include_merges,
                commit_seconds(data)->Ok_0,
                parents.len(),
            )
            &&& t.task is Some && parents.len() > 0 ==> t.advanced().request() == (
            CollectRequest::Diff { commit, parent: Some(parents[0]) })
            &&& t.task is Some && parents.len() == 0 ==> t.advanced().request() == (
            CollectRequest::Diff { commit, parent: None })
            &&& t.task is Some ==> t.task->0.binary == s.binary
            &&& t.walk.stack == s.walk.stack + parents
            &&& t.walk.seen == s.walk.seen
            &&& t.commits == s.commits
        }),
{
}

/// A collection can go on from a commit exactly if it can be read, and fails otherwise with the
/// error of reading it.
pub proof fn law_collection_reads_commits(s: CollectState, data: Seq<u8>)
    ensures
        s.with_data(data) is Ok <==> decoded(data) is Ok,
        s.with_data(data) is Err ==> s.with_data(data)->Err_0 == decoded(data)->Err_0,
{
}

/// The statistics of a commit are named by its id, and are those of the changes from the first
/// of its parents, or from nothing where it has none.
pub proof fn law_statistics_are_against_first_parent(
    answers: Answers,
    commit: ObjectId,
    binary: bool,
)
    ensures
        ({
            let parents = commit_parents((answers.commits)(commit));
            let stats = stats_of(answers, commit, binary);
            &&& stats.commit_id == hex_text(commit@)
            &&& parents.len() > 0 ==> stats.files == files_of(
                answers.objects,
                (answers.diffs)(commit, Some(parents[0])),
                binary,
            )
            &&& parents.len() == 0 ==> stats.files == files_of(
                answers.objects,
                (answers.diffs)(commit, None),
                binary,
            )
        }),
{
}

/// A collection has an entry for each commit that belongs to it and no other, in the order of
/// the listing: its id, and the files of its changes from its first parent or from nothing.
pub proof fn law_collected_entries(
    answers: Answers,
    head: ObjectId,
    range: DateRange,
    include_merges: bool,
    binary: bool,
    commits: Seq<StatsView>,
) -> (ids: Seq<ObjectId>)
    requires
        collects(answers, head, range, include_merges, binary, commits),
    ensures
        lists(answers.commits, head, range, include_merges, ids),
        ids.no_duplicates(),
        forall|id: ObjectId| #[trigger]
            ids.contains(id) <==> (in_history(answers.commits, head, id) && belongs(
                range,
                include_merges,
                commit_seconds((answers.commits)(id))->Ok_0,
                commit_parents((answers.commits)(id)).len(),
            )),
        commits.len() == ids.len(),
        forall|i: int|
            0 <= i < ids.len() ==> {
                let parents = commit_parents((answers.commits)(ids[i]));
                &&& (#[trigger] commits[i]).commit_id == hex_text(ids[i]@)
                &&& commits[i].files == files_of(
                    answers.objects,
                    (answers.diffs)(
                        ids[i],
                        if parents.len() > 0 {
                            Some(parents[0])
                        } else {
                            None
                        },
                    ),
                    binary,
                )
            },
{
    let ids = law_collection_agrees(answers, head, range, include_merges, binary, commits);
    law_listed_commits(answers.commits, head, range, include_merges, ids);
    assert forall|i: int| 0 <= i < ids.len() implies {
        let parents = commit_parents((answers.commits)(ids[i]));
        &&& (#[trigger] commits[i]).commit_id == hex_text(ids[i]@)
        &&& commits[i].files == files_of(
            answers.objects,
            (answers.diffs)(
                ids[i],
                if parents.len() > 0 {
                    Some(parents[0])
                } else {
                    None
                },
            ),
            binary,
        )
    } by {
        assert(commits[i] == stats_of(answers, ids[i], binary));
    }
    ids
}

// ---- Files ----

/// The path that is shown for a location: the text that it encodes, where it is UTF-8.
pub open spec fn path_of(location: Seq<u8>) -> Seq<char> {
    if valid_utf8(location) {
        decode_utf8(location)
    } else {
        bstr_text(location)
    }
}

/// Whether one of the first 8192 bytes is zero.
pub open spec fn has_early_zero(data: Seq<u8>) -> bool {
    exists|i: int| 0 <= i < 8192 && i < data.len() && #[trigger] data[i] == 0
}

/// The text of some data: what it encodes, or nothing where it is not UTF-8.
pub open spec fn text_in(data: Seq<u8>) -> Seq<char> {
    if valid_utf8(data) {
        decode_utf8(data)
    } else {
        seq![]
    }
}

/// The line feeds of a text, and one more where something stands behind the last.
pub open spec fn lines_in(s: Seq<char>) -> int {
    s.filter(|c: char| c == '\n').len() + if s.len() > 0 && s[s.len() - 1] != '\n' {
        1int
    } else {
        0int
    }
}

/// The lines of the new text that the steps of a line diff insert or put in place of others.
pub open spec fn put_in(ops: Seq<LineOp>) -> int {
    ops.fold_left(
        0int,
        |n: int, op: LineOp|
            if op.tag == LineTag::Insert || op.tag == LineTag::Replace {
                n + op.new_len
            } else {
                n
            },
    )
}

/// The lines of the old text that the steps of a line diff delete or put others in place of.
pub open spec fn taken_out(ops: Seq<LineOp>) -> int {
    ops.fold_left(
        0int,
        |n: int, op: LineOp|
            if op.tag == LineTag::Delete || op.tag == LineTag::Replace {
                n + op.old_len
            } else {
                n
            },
    )
}

proof fn lemma_steps(ops: Seq<LineOp>)
    ensures
        added_by(ops) == put_in(ops),
        deleted_by(ops) == taken_out(ops),
    decreases ops.len(),
{
    reveal(Seq::fold_left);
    if ops.len() > 0 {
        lemma_steps(ops.drop_last());
    }
}

proof fn lemma_occurrences_filtered(s: Seq<char>)
    ensures
        occurrences(s, '\n') == s.filter(|c: char| c == '\n').len(),
    decreases s.len(),
{
    reveal(Seq::filter);
    if s.len() > 0 {
        lemma_occurrences_filtered(s.drop_last());
    }
}

/// Counts are kept as they are below 2^32, and modulo that above.
pub proof fn law_counts_are_kept(n: nat)
    ensures
        n < 0x1_0000_0000 ==> kept(n) == n,
        kept(n) as int == n as int % 0x1_0000_0000,
{
}

/// Data is taken for binary exactly if one of its first 8192 bytes is zero.
pub proof fn law_binary_data(data: Seq<u8>)
    ensures
        looks_binary(data) <==> has_early_zero(data),
{
    if has_early_zero(data) {
        let i = choose|i: int| 0 <= i < 8192 && i < data.len() && #[trigger] data[i] == 0;
        assert(data[i] == 0);
    }
}

/// The lines of a text are its line feeds, and one more where something stands behind the last.
pub proof fn law_lines_of_a_text(data: Seq<u8>)
    ensures
        valid_utf8(data) ==> text_of(data) == decode_utf8(data),
        !valid_utf8(data) ==> text_of(data).len() == 0,
        text_of(data) == text_in(data),
        line_count(text_of(data)) == lines_in(text_in(data)),
{
    lemma_occurrences_filtered(text_of(data));
}

/// The empty text has no line; a text without a line feed has one, unless it is empty, and has
/// one with a line feed behind it.
pub proof fn law_single_lines(s: Seq<char>)
    requires
        !s.contains('\n'),
    ensures
        s.len() > 0 ==> line_count(s) == 1,
        s.len() == 0 ==> line_count(s) == 0,
        line_count(s.push('\n')) == 1,
{
    lemma_no_occurrences(s);
    assert(s.push('\n').drop_last() == s);
    if s.len() > 0 {
        assert(s.contains(s.last()));
    }
}

proof fn lemma_no_occurrences(s: Seq<char>)
    requires
        !s.contains('\n'),
    ensures
        occurrences(s, '\n') == 0,
    decreases s.len(),
{
    if s.len() > 0 {
        assert(s.contains(s.last()));
        assert(!s.drop_last().contains('\n')) by {
            if s.drop_last().contains('\n') {
                let i = s.drop_last().index_of('\n');
                assert(s[i] == '\n');
            }
        }
        lemma_no_occurrences(s.drop_last());
    }
}

/// The lines added between two objects are those that the steps from the one text to the other
/// insert or put in place of others; the lines deleted are those that they delete or put others
/// in place of.
pub proof fn law_line_diff(old: Seq<u8>, new: Seq<u8>)
    ensures
        ({
            let ops = line_ops(text_in(old), text_in(new));
            &&& line_diff(old, new).0 as int == put_in(ops) % 0x1_0000_0000
            &&& line_diff(old, new).1 as int == taken_out(ops) % 0x1_0000_0000
        }),
{
    lemma_steps(line_ops(text_in(old), text_in(new)));
}

/// Steps are added up one by one.
pub proof fn law_tally_of_steps(ops: Seq<LineOp>)
    ensures
        tally(ops).0 as int == put_in(ops) % 0x1_0000_0000,
        tally(ops).1 as int == taken_out(ops) % 0x1_0000_0000,
{
    lemma_steps(ops);
}

/// Whether the differ ends a line with the character at `i`: a carriage return, or a line feed
/// that follows none.
pub open spec fn ends_line(s: Seq<char>, i: int) -> bool {
    s[i] == '\r' || (s[i] == '\n' && (i == 0 || s[i - 1] != '\r'))
}

/// The lines into which the differ splits a text: one for each character that ends one, and one
/// more where something stands behind the last of them.
pub open spec fn split_lines_in(s: Seq<char>) -> int {
    Seq::new(s.len(), |i: int| ends_line(s, i)).filter(|ends: bool| ends).len() + if s.len() > 0
        && s[s.len() - 1] != '\n' && s[s.len() - 1] != '\r' {
        1int
    } else {
        0int
    }
}

proof fn lemma_line_ends_filtered(s: Seq<char>)
    ensures
        line_ends(s) == Seq::new(s.len(), |i: int| ends_line(s, i)).filter(
            |ends: bool| ends,
        ).len(),
    decreases s.len(),
{
    reveal(Seq::filter);
    let marks = Seq::new(s.len(), |i: int| ends_line(s, i));
    if s.len() > 0 {
        let rest = s.drop_last();
        lemma_line_ends_filtered(rest);
        assert(marks.drop_last() == Seq::new(rest.len(), |i: int| ends_line(rest, i)));
        assert(marks.last() == ends_line(s, s.len() - 1));
    }
}

/// Two texts can be compared where the lines into which the differ splits them are fewer than
/// 2^32 together. A change can always be counted where one of its objects is binary, or where it
/// has only one.
pub proof fn law_what_can_be_compared(old: Seq<u8>, new: Seq<u8>, contents: Seq<Seq<u8>>)
    ensures
        split_count(text_of(old)) == split_lines_in(text_in(old)),
        diffable(text_of(old), text_of(new)) <==> split_lines_in(text_in(old)) + split_lines_in(
            text_in(new),
        ) < 0x1_0000_0000,
        contents.len() != 2 ==> comparable(contents),
        contents.len() == 2 ==> (comparable(contents) <==> {
            ||| has_early_zero(contents[0])
            ||| has_early_zero(contents[1])
            ||| split_lines_in(text_in(contents[0])) + split_lines_in(text_in(contents[1]))
                < 0x1_0000_0000
        }),
{
    lemma_line_ends_filtered(text_in(old));
    lemma_line_ends_filtered(text_in(new));
    if contents.len() == 2 {
        lemma_pair(contents);
        lemma_line_ends_filtered(text_in(contents[0]));
        lemma_line_ends_filtered(text_in(contents[1]));
    }
}

/// A computation takes the data of an object exactly if it can be compared with what was read
/// before it for the same change.
pub proof fn law_accepted_objects(s: StatsState, data: Seq<u8>)
    ensures
        s.accepts(data) <==> comparable(s.contents.push(data)),
        s.contents.len() == 0 ==> s.accepts(data),
{
}

/// An added file has its path, and all its lines as added; a deleted file has all its lines as
/// deleted. A binary file has no lines, and is there only where binary files are wanted.
pub proof fn law_added_and_deleted_files(
    id: ObjectId,
    location: Seq<u8>,
    data: Seq<u8>,
    binary: bool,
)
    ensures
        ({
            let is_binary = has_early_zero(data);
            let lines = if is_binary {
                0
            } else {
                lines_in(text_in(data)) % 0x1_0000_0000
            };
            let added = change_files(ChangeView::Addition { id, location }, seq![data], binary);
            let deleted = change_files(ChangeView::Deletion { id, location }, seq![data], binary);
            if is_binary && !binary {
                added.len() == 0 && deleted.len() == 0
            } else {
                &&& added.len() == 1
                &&& added[0].path == path_of(location)
                &&& added[0].added_lines as int == lines
                &&& added[0].deleted_lines == 0
                &&& added[0].is_binary == is_binary
                &&& deleted.len() == 1
                &&& deleted[0].path == path_of(location)
                &&& deleted[0].added_lines == 0
                &&& deleted[0].deleted_lines as int == lines
                &&& deleted[0].is_binary == is_binary
            }
        }),
{
    law_binary_data(data);
    law_lines_of_a_text(data);
    assert(seq![data][0] == data);
    assert(has_early_zero(data) ==> looks_binary(seq![data][0]));
}

/// A modified file has its path, the lines that the comparison of its texts puts in as added and
/// those that it takes out as deleted. Where either version is binary there are no lines, and
/// the file is there only where binary files are wanted.
pub proof fn law_modified_files(
    previous_id: ObjectId,
    id: ObjectId,
    location: Seq<u8>,
    old: Seq<u8>,
    new: Seq<u8>,
    binary: bool,
)
    ensures
        ({
            let is_binary = has_early_zero(old) || has_early_zero(new);
            let ops = line_ops(text_in(old), text_in(new));
            let files = change_files(
                ChangeView::Modification { previous_id, id, location },
                seq![old, new],
                binary,
            );
            if is_binary && !binary {
                files.len() == 0
            } else {
                &&& files.len() == 1
                &&& files[0].path == path_of(location)
                &&& files[0].is_binary == is_binary
                &&& is_binary ==> files[0].added_lines == 0 && files[0].deleted_lines == 0
                &&& !is_binary ==> files[0].added_lines as int == put_in(ops) % 0x1_0000_0000
                &&& !is_binary ==> files[0].deleted_lines as int == taken_out(ops)
                    % 0x1_0000_0000
            }
        }),
{
    lemma_pair(seq![old, new]);
    law_line_diff(old, new);
}

/// A renamed file has two entries: the lines taken out under the old path, nothing under the new
/// one. A copied file has nothing under the old path, and the lines put in under the new one.
/// Where either version is binary there are no lines, and the entries are there only where
/// binary files are wanted.
pub proof fn law_renamed_and_copied_files(
    source_id: ObjectId,
    id: ObjectId,
    source_location: Seq<u8>,
    location: Seq<u8>,
    copy: bool,
    old: Seq<u8>,
    new: Seq<u8>,
    binary: bool,
)
    ensures
        ({
            let is_binary = has_early_zero(old) || has_early_zero(new);
            let ops = line_ops(text_in(old), text_in(new));
            let files = change_files(
                ChangeView::Rewrite { source_id, id, source_location, location, copy },
                seq![old, new],
                binary,
            );
            if is_binary && !binary {
                files.len() == 0
            } else {
                &&& files.len() == 2
                &&& files[0].path == path_of(source_location)
                &&& files[1].path == path_of(location)
                &&& files[0].is_binary == is_binary
                &&& files[1].is_binary == is_binary
                &&& files[0].added_lines == 0
                &&& files[1].deleted_lines == 0
                &&& copy || is_binary ==> files[0].deleted_lines == 0
                &&& !copy || is_binary ==> files[1].added_lines == 0
                &&& !copy && !is_binary ==> files[0].deleted_lines as int == taken_out(ops)
                    % 0x1_0000_0000
                &&& copy && !is_binary ==> files[1].added_lines as int == put_in(ops)
                    % 0x1_0000_0000
            }
        }),
{
    lemma_pair(seq![old, new]);
    law_line_diff(old, new);
}

proof fn lemma_pair(contents: Seq<Seq<u8>>)
    ensures
        looks_binary(contents[0]) <==> has_early_zero(contents[0]),
        looks_binary(contents[1]) <==> has_early_zero(contents[1]),
        (exists|i: int| 0 <= i < 2 && looks_binary(#[trigger] contents[i])) <==> (has_early_zero(
            contents[0],
        ) || has_early_zero(contents[1])),
{
    law_binary_data(contents[0]);
    law_binary_data(contents[1]);
}

/// The objects of a change are read in order: the one before it first, then the one after it.
pub proof fn law_objects_of_changes(change: ChangeView)
    ensures
        match change {
            ChangeView::Addition { id, .. } => objects_of(change) == seq![id],
            ChangeView::Deletion { id, .. } => objects_of(change) == seq![id],
            ChangeView::Modification { previous_id, id, .. } => objects_of(change) == seq![
                previous_id,
                id,
            ],
            ChangeView::Rewrite { source_id, id, .. } => objects_of(change) == seq![source_id, id],
        },
{
}

/// The files of some changes followed by others are the files of the ones followed by those of
/// the others; the files of one change are those that it gives for the data of its objects.
pub proof fn law_files_follow_changes(
    objects: spec_fn(ObjectId) -> Seq<u8>,
    a: Seq<ChangeView>,
    b: Seq<ChangeView>,
    change: ChangeView,
    binary: bool,
)
    ensures
        files_of(objects, a + b, binary) == files_of(objects, a, binary) + files_of(
            objects,
            b,
            binary,
        ),
        files_of(objects, seq![], binary).len() == 0,
        files_of(objects, seq![change], binary) == change_files(
            change,
            match change {
                ChangeView::Addition { id, .. } => seq![objects(id)],
                ChangeView::Deletion { id, .. } => seq![objects(id)],
                ChangeView::Modification { previous_id, id, .. } => seq![
                    objects(previous_id),
                    objects(id),
                ],
                ChangeView::Rewrite { source_id, id, .. } => seq![
                    objects(source_id),
                    objects(id),
                ],
            },
            binary,
        ),
    decreases b.len(),
{
    if b.len() > 0 {
        law_files_follow_changes(objects, a, b.drop_last(), change, binary);
        assert((a + b).drop_last() == a + b.drop_last());
        assert((a + b).last() == b.last());
        assert(files_of(objects, a + b, binary) == files_of(objects, a, binary) + files_of(
            objects,
            b,
            binary,
        ));
    } else {
        assert(a + b == a);
        assert(files_of(objects, a, binary) + files_of(objects, b, binary) == files_of(
            objects,
            a,
            binary,
        ));
    }
    let one = seq![change];
    assert(one.drop_last() == Seq::<ChangeView>::empty());
    assert(files_of(objects, one.drop_last(), binary) == Seq::<FileView>::empty());
    let contents = match change {
        ChangeView::Addition { id, .. } => seq![objects(id)],
        ChangeView::Deletion { id, .. } => seq![objects(id)],
        ChangeView::Modification { previous_id, id, .. } => seq![objects(previous_id), objects(id)],
        ChangeView::Rewrite { source_id, id, .. } => seq![objects(source_id), objects(id)],
    };
    assert(objects_of(change).map_values(objects) == contents);
    assert(files_of(objects, one, binary) == change_files(change, contents, binary));
}

// ---- Commits ----

/// A commit was made at the second that its committer's signature gives, where that is
/// representable; otherwise there is no time, and the error says why.
pub proof fn law_time_of_a_commit(data: Seq<u8>)
    ensures
        match commit_seconds(data) {
            Ok(secs) => if MIN_SECONDS <= secs <= MAX_SECONDS {
                committed_at(data) == Ok::<Timestamp, ErrorView>(Timestamp { secs, nanos: 0 })
            } else {
                committed_at(data) == Err::<Timestamp, ErrorView>(
                    ErrorView::InvalidDate("Invalid timestamp: "@ + decimal(secs as int)),
                )
            },
            Err(e) => committed_at(data) == Err::<Timestamp, ErrorView>(ErrorView::Git(e)),
        },
{
}

/// A commit is read exactly if its time, author and title are; the error is that of the first of
/// them that is not.
pub proof fn law_reading_a_commit(data: Seq<u8>)
    ensures
        decoded(data) is Ok <==> {
            &&& commit_seconds(data) is Ok
            &&& MIN_SECONDS <= commit_seconds(data)->Ok_0 <= MAX_SECONDS
            &&& commit_author(data) is Ok
            &&& commit_title(data) is Ok
        },
        decoded(data) is Ok ==> {
            let meta = decoded(data)->Ok_0;
            let author = commit_author(data)->Ok_0;
            &&& meta.timestamp.secs == commit_seconds(data)->Ok_0
            &&& meta.timestamp.nanos == 0
            &&& meta.author_name == path_of(author.0)
            &&& meta.author_email == path_of(author.1)
            &&& meta.message_title == path_of(commit_title(data)->Ok_0)
            &&& meta.parent_ids == commit_parents(data)
        },
        committed_at(data) is Err ==> decoded(data) == Err::<MetaView, ErrorView>(
            committed_at(data)->Err_0,
        ),
        committed_at(data) is Ok && commit_author(data) is Err ==> decoded(data) == Err::<
            MetaView,
            ErrorView,
        >(ErrorView::Git(commit_author(data)->Err_0)),
        committed_at(data) is Ok && commit_author(data) is Ok && commit_title(data) is Err
            ==> decoded(data) == Err::<MetaView, ErrorView>(
            ErrorView::Git(commit_title(data)->Err_0),
        ),
{
}

/// The text that is shown for bytes is the text that they encode, where they are UTF-8.
pub proof fn law_shown_text(bytes: Seq<u8>)
    ensures
        valid_utf8(bytes) ==> shown_text(bytes) == decode_utf8(bytes),
        !valid_utf8(bytes) ==> shown_text(bytes) == bstr_text(bytes),
{
}

/// What is shown of a commit is what it was read to be, with every parent in its place.
pub proof fn law_shown_commit(id: Seq<char>, meta: MetaView)
    ensures
        ({
            let info = info_of(id, meta);
            &&& info.id == id
            &&& info.author_name == meta.author_name
            &&& info.author_email == meta.author_email
            &&& info.message == meta.message_title
            &&& info.timestamp == meta.timestamp
            &&& info.parent_ids.len() == meta.parent_ids.len()
            &&& forall|i: int|
                0 <= i < meta.parent_ids.len() ==> #[trigger] info.parent_ids[i] == hex_text(
                    meta.parent_ids[i]@,
                )
        }),
{
}

/// The info of a commit has the id that was asked for, the committer's time, the author, the
/// title, and as many parents as the commit, each in hexadecimal in its place.
pub proof fn law_commit_info(id: Seq<char>, found: Result<Vec<u8>, String>)
    ensures
        match found {
            Err(message) => found_info(id, found) == Err::<InfoView, ErrorView>(
                ErrorView::Git(message@),
            ),
            Ok(data) => match decoded(data@) {
                Err(e) => found_info(id, found) == Err::<InfoView, ErrorView>(e),
                Ok(_) => {
                    let info = found_info(id, found)->Ok_0;
                    let author = commit_author(data@)->Ok_0;
                    let parents = commit_parents(data@);
                    &&& found_info(id, found) is Ok
                    &&& info.id == id
                    &&& info.timestamp.secs == commit_seconds(data@)->Ok_0
                    &&& info.timestamp.nanos == 0
                    &&& info.author_name == path_of(author.0)
                    &&& info.author_email == path_of(author.1)
                    &&& info.message == path_of(commit_title(data@)->Ok_0)
                    &&& info.parent_ids.len() == parents.len()
                    &&& forall|i: int|
                        0 <= i < parents.len() ==> #[trigger] info.parent_ids[i] == hex_text(
                            parents[i]@,
                        )
                },
            },
        },
{
}

/// An id is read as its hexadecimal form says; an error says what is wrong with it.
pub proof fn law_commit_ids(text: Seq<u8>)
    ensures
        match parsed_hex(text) {
            Ok(bytes) => commit_id_of(text) == Ok::<Seq<u8>, ErrorView>(bytes),
            Err(message) => commit_id_of(text) == Err::<Seq<u8>, ErrorView>(
                ErrorView::Parse("Invalid commit ID: "@ + message),
            ),
        },
{
}

/// The error of failing to find something says what was said of it, and names the commit that
/// refers to it, where there is one.
pub proof fn law_errors_of_finding(message: Seq<char>, commit: Seq<char>, failure: DiffFailure)
    ensures
        missing_error(message, commit) == ErrorView::Other(
            "Object find error: "@ + message + " (referenced from commit "@ + commit + ")"@,
        ),
        find_error_view(message, None) == ErrorView::Git(message),
        find_error_view(message, Some(commit)) == ErrorView::Other(
            "Object find error: "@ + message + " (referenced from commit "@ + commit + ")"@,
        ),
        match failure {
            DiffFailure::MissingCommit(m) => diff_error(failure, commit) == ErrorView::Other(
                "Object find error: "@ + m@ + " (referenced from commit "@ + commit + ")"@,
            ),
            DiffFailure::Unreadable(m) => diff_error(failure, commit) == ErrorView::Git(m@),
        },
{
}

// ---- Spans of time ----

/// The words for spans of time.
pub proof fn law_words_for_spans()
    ensures
        relative_span("yesterday"@) == Some((1i64, DurationUnit::Day)),
        relative_span("today"@) == Some((0i64, DurationUnit::Day)),
        relative_span("now"@) == Some((0i64, DurationUnit::Day)),
        relative_span("last week"@) == Some((1i64, DurationUnit::Week)),
        relative_span("last month"@) == Some((1i64, DurationUnit::Month)),
{
    reveal_strlit(" days ago");
    reveal_strlit(" day ago");
    reveal_strlit(" weeks ago");
    reveal_strlit(" week ago");
    reveal_strlit(" months ago");
    reveal_strlit(" month ago");
    reveal_strlit("yesterday");
    reveal_strlit("today");
    reveal_strlit("now");
    reveal_strlit("last week");
    reveal_strlit("last month");
    lemma_no_count("yesterday"@);
    lemma_no_count("today"@);
    lemma_no_count("now"@);
    lemma_no_count("last week"@);
    lemma_no_count("last month"@);
    assert("yesterday"@[0] != "today"@[0]);
    assert("last week"@.len() == 9 && "last month"@.len() == 10);
    assert("yesterday"@[0] != "last week"@[0]);
}

/// A text that does not end with the letter o has no count before "ago".
proof fn lemma_no_count(text: Seq<char>)
    requires
        text.len() > 0,
        text.last() != 'o',
    ensures
        !ends_with(text, " days ago"@),
        !ends_with(text, " day ago"@),
        !ends_with(text, " weeks ago"@),
        !ends_with(text, " week ago"@),
        !ends_with(text, " months ago"@),
        !ends_with(text, " month ago"@),
{
    reveal_strlit(" days ago");
    reveal_strlit(" day ago");
    reveal_strlit(" weeks ago");
    reveal_strlit(" week ago");
    reveal_strlit(" months ago");
    reveal_strlit(" month ago");
    lemma_last_of_suffix(text, " days ago"@);
    lemma_last_of_suffix(text, " day ago"@);
    lemma_last_of_suffix(text, " weeks ago"@);
    lemma_last_of_suffix(text, " week ago"@);
    lemma_last_of_suffix(text, " months ago"@);
    lemma_last_of_suffix(text, " month ago"@);
}

proof fn lemma_last_of_suffix(text: Seq<char>, suffix: Seq<char>)
    requires
        suffix.len() > 0,
    ensures
        ends_with(text, suffix) ==> text.last() == suffix.last(),
{
    if ends_with(text, suffix) {
        let tail = text.subrange(text.len() - suffix.len(), text.len() as int);
        assert(tail[suffix.len() - 1] == text[text.len() - 1]);
    }
}

/// Whether a text is a count, with white space allowed around it, followed by `unit`.
pub open spec fn is_counted(text: Seq<char>, unit: Seq<char>, n: i64) -> bool {
    exists|count: Seq<char>| text == count + unit && i64_text(#[trigger] trimmed(count)) == Some(n)
}

/// A text that names a span of time is a count followed by a unit, or one of the words.
pub proof fn law_nothing_else_is_a_span(text: Seq<char>)
    requires
        relative_span(text) is Some,
    ensures
        ({
            let (n, unit) = relative_span(text)->0;
            match unit {
                DurationUnit::Day => {
                    ||| is_counted(text, " days ago"@, n)
                    ||| is_counted(text, " day ago"@, n)
                    ||| text == "yesterday"@ && n == 1
                    ||| text == "today"@ && n == 0
                    ||| text == "now"@ && n == 0
                },
                DurationUnit::Week => {
                    ||| is_counted(text, " weeks ago"@, n)
                    ||| is_counted(text, " week ago"@, n)
                    ||| text == "last week"@ && n == 1
                },
                DurationUnit::Month => {
                    ||| is_counted(text, " months ago"@, n)
                    ||| is_counted(text, " month ago"@, n)
                    ||| text == "last month"@ && n == 1
                },
            }
        }),
{
    lemma_counted_is(text, " days ago"@);
    lemma_counted_is(text, " day ago"@);
    lemma_counted_is(text, " weeks ago"@);
    lemma_counted_is(text, " week ago"@);
    lemma_counted_is(text, " months ago"@);
    lemma_counted_is(text, " month ago"@);
}

proof fn lemma_counted_is(text: Seq<char>, unit: Seq<char>)
    ensures
        counted(text, unit) is Some ==> is_counted(text, unit, counted(text, unit)->0),
{
    if counted(text, unit) is Some {
        let count = before_suffix(text, unit);
        assert(text == count + unit);
        assert(i64_text(trimmed(count)) == counted(text, unit));
    }
}

/// A day has 86400 seconds, a week seven days, and a month thirty.
pub proof fn law_lengths_of_spans(n: i64)
    ensures
        span_seconds((n, DurationUnit::Day)) == n * 86_400,
        span_seconds((n, DurationUnit::Week)) == n * 604_800,
        span_seconds((n, DurationUnit::Month)) == n * 2_592_000,
{
}

/// A text is read without the white space around it, in lower case.
pub proof fn law_read_spans(input: Seq<char>)
    ensures
        natural_seconds(input) is Some <==> relative_span(lowercase(trimmed(input))) is Some,
        natural_seconds(input) is Some ==> natural_seconds(input)->0 == span_seconds(
            relative_span(lowercase(trimmed(input)))->0,
        ),
{
}

/// A text that is a count and a unit names so many days of 86400 seconds, weeks of seven days, or
/// months of thirty.
pub proof fn law_counted_texts(input: Seq<char>, count: Seq<char>, unit: Seq<char>)
    requires
        i64_text(trimmed(count)) is Some,
        lowercase(trimmed(input)) == count + unit,
    ensures
        ({
            let n = i64_text(trimmed(count))->0;
            &&& unit == " days ago"@ || unit == " day ago"@ ==> natural_seconds(input) == Some(
                n * 86_400,
            )
            &&& unit == " weeks ago"@ || unit == " week ago"@ ==> natural_seconds(input) == Some(
                n * 604_800,
            )
            &&& unit == " months ago"@ || unit == " month ago"@ ==> natural_seconds(input)
                == Some(n * 2_592_000)
        }),
{
    let n = i64_text(trimmed(count))->0;
    lemma_one_span(count, unit);
    if unit == " days ago"@ || unit == " day ago"@ {
        lemma_seconds_of_span(input, count + unit, (n, DurationUnit::Day));
    }
    if unit == " weeks ago"@ || unit == " week ago"@ {
        lemma_seconds_of_span(input, count + unit, (n, DurationUnit::Week));
    }
    if unit == " months ago"@ || unit == " month ago"@ {
        lemma_seconds_of_span(input, count + unit, (n, DurationUnit::Month));
    }
}

proof fn lemma_one_span(count: Seq<char>, unit: Seq<char>)
    requires
        i64_text(trimmed(count)) is Some,
    ensures
        ({
            let n = i64_text(trimmed(count))->0;
            let span = relative_span(count + unit);
            &&& unit == " days ago"@ || unit == " day ago"@ ==> span == Some((n, DurationUnit::Day))
            &&& unit == " weeks ago"@ || unit == " week ago"@ ==> span == Some(
                (n, DurationUnit::Week),
            )
            &&& unit == " months ago"@ || unit == " month ago"@ ==> span == Some(
                (n, DurationUnit::Month),
            )
        }),
{
    law_counted_spans(count);
}

proof fn lemma_seconds_of_span(input: Seq<char>, text: Seq<char>, span: (i64, DurationUnit))
    requires
        lowercase(trimmed(input)) == text,
        relative_span(text) == Some(span),
    ensures
        natural_seconds(input) == Some(span_seconds(span)),
{
}

/// A span is read as its seconds where a duration can have that length, and is too long
/// otherwise.
pub proof fn law_duration_readings(input: Seq<char>)
    ensures
        match natural_seconds(input) {
            None => duration_reading(input) == DurationReading::NoDuration,
            Some(s) => if -9_223_372_036_854_775 <= s <= 9_223_372_036_854_775 {
                duration_reading(input) is Seconds && duration_reading(input)->Seconds_0 == s
            } else {
                duration_reading(input) == DurationReading::TooLong
            },
        },
{
}

// ---- The ends of ranges ----

/// A text is read as an RFC 3339 instant where it is one; else as the first instant of a day,
/// where it is one; else as a span, where it names one; else it may name a revision.
pub proof fn law_date_readings(input: Seq<char>)
    ensures
        rfc3339_instant(input) is Some ==> date_reading(input) == DateReading::At(
            rfc3339_instant(input)->0,
        ),
        rfc3339_instant(input) is None ==> match date_day(input, "%Y-%m-%d"@) {
            Some(day) => MIN_DAY <= day <= MAX_DAY ==> {
                &&& date_reading(input) is At
                &&& date_reading(input)->At_0.secs == (day - 719_163) * 86_400
                &&& date_reading(input)->At_0.nanos == 0
            },
            None => match natural_seconds(input) {
                None => date_reading(input) == DateReading::Revision,
                Some(s) => if -9_223_372_036_854_775 <= s <= 9_223_372_036_854_775 {
                    date_reading(input) is Ago && date_reading(input)->Ago_0 == s
                } else {
                    date_reading(input) == DateReading::TooLong
                },
            },
        },
{
}

/// An end names the instant that it is read as, or the one so many seconds before now, and is
/// representable where that is.
pub proof fn law_ends_that_are_dates(bound: Bound, now: Timestamp)
    ensures
        match date_reading(bound.text@) {
            DateReading::At(at) => {
                &&& bound.representable(now)
                &&& bound.instant(now) == Ok::<Timestamp, ErrorView>(at)
            },
            DateReading::Ago(s) => {
                &&& bound.representable(now) <==> MIN_SECONDS <= now.secs - s <= MAX_SECONDS
                &&& bound.representable(now) ==> {
                    &&& bound.instant(now) is Ok
                    &&& bound.instant(now)->Ok_0.secs == now.secs - s
                    &&& bound.instant(now)->Ok_0.nanos == now.nanos
                }
            },
            DateReading::TooLong => !bound.representable(now),
            DateReading::Revision => bound.representable(now),
        },
{
}

/// An end that is no date names the committer's second of the commit that the repository finds
/// for it, and a range with that end alone has exactly that instant for it.
pub proof fn law_ends_that_are_revisions(bound: Bound, data: Vec<u8>, secs: i64, now: Timestamp)
    requires
        rfc3339_instant(bound.text@) is None,
        date_day(bound.text@, "%Y-%m-%d"@) is None,
        natural_seconds(bound.text@) is None,
        bound.revision == RevisionLookup::Commit(data),
        commit_seconds(data@) == Ok::<i64, Seq<char>>(secs),
        MIN_SECONDS <= secs <= MAX_SECONDS,
    ensures
        bound.representable(now),
        bound.instant(now) == Ok::<Timestamp, ErrorView>(Timestamp { secs, nanos: 0 }),
        range_between(Some(bound), None, now, now) == Ok::<DateRange, ErrorView>(
            DateRange { since: Some(Timestamp { secs, nanos: 0 }), until: None },
        ),
        range_between(None, Some(bound), now, now) == Ok::<DateRange, ErrorView>(
            DateRange { since: None, until: Some(Timestamp { secs, nanos: 0 }) },
        ),
{
}

/// An end that is no date, and for which the repository finds no commit whose time can be read,
/// is an error that says so.
pub proof fn law_ends_that_name_nothing(bound: Bound, now: Timestamp)
    requires
        date_reading(bound.text@) is Revision,
    ensures
        match bound.revision {
            RevisionLookup::Unknown(m) => bound.instant(now) == Err::<Timestamp, ErrorView>(
                ErrorView::Parse("Invalid commit or date '"@ + bound.text@ + "': "@ + m@),
            ),
            RevisionLookup::Unreadable(m) => bound.instant(now) == Err::<Timestamp, ErrorView>(
                ErrorView::Git(m@),
            ),
            RevisionLookup::NotACommit => bound.instant(now) == Err::<Timestamp, ErrorView>(
                ErrorView::Parse("Not a commit: "@ + bound.text@),
            ),
            RevisionLookup::Commit(data) => match commit_seconds(data@) {
                Err(e) => bound.instant(now) == Err::<Timestamp, ErrorView>(ErrorView::Git(e)),
                Ok(secs) => secs < MIN_SECONDS || secs > MAX_SECONDS ==> bound.instant(now)
                    == Err::<Timestamp, ErrorView>(
                    ErrorView::InvalidDate("Invalid timestamp: "@ + decimal(secs as int)),
                ),
            },
        },
{
}

/// A range has the instants that its ends name as its ends, and none where it has no such end.
/// An end that is in error makes the range that error, the first before the second; a start
/// that is later than the end is an error that names both.
pub proof fn law_resolved_ranges(
    since: Option<Bound>,
    until: Option<Bound>,
    since_now: Timestamp,
    until_now: Timestamp,
)
    ensures
        ({
            let r = range_between(since, until, since_now, until_now);
            let first = since->0.instant(since_now);
            let second = until->0.instant(until_now);
            let first_fails = since is Some && first is Err;
            let second_fails = until is Some && second is Err;
            let wrong_way = since is Some && until is Some && !at_or_before(
                first->Ok_0,
                second->Ok_0,
            );
            &&& first_fails ==> r == Err::<DateRange, ErrorView>(first->Err_0)
            &&& !first_fails && second_fails ==> r == Err::<DateRange, ErrorView>(second->Err_0)
            &&& !first_fails && !second_fails && wrong_way ==> r == Err::<DateRange, ErrorView>(
                ErrorView::InvalidDate(
                    "Invalid range: since ("@ + instant_text(first->Ok_0) + ") is after until ("@
                        + instant_text(second->Ok_0) + ")"@,
                ),
            )
            &&& !first_fails && !second_fails && !wrong_way ==> {
                &&& r is Ok
                &&& since is Some ==> r->Ok_0.since == Some(first->Ok_0)
                &&& since is None ==> r->Ok_0.since is None
                &&& until is Some ==> r->Ok_0.until == Some(second->Ok_0)
                &&& until is None ==> r->Ok_0.until is None
            }
        }),
        ends_representable(since, until, since_now, until_now) <==> {
            &&& since is Some ==> since->0.representable(since_now)
            &&& until is Some && (since is None || since->0.instant(since_now) is Ok)
                ==> until->0.representable(until_now)
        },
{
}

// ---- Contents of values ----

/// The contents of file statistics are their fields.
pub proof fn law_contents_of_files(files: Seq<FileStats>, i: int)
    requires
        0 <= i < files.len(),
    ensures
        files_view(files).len() == files.len(),
        files_view(files)[i].path == files[i].path@,
        files_view(files)[i].added_lines == files[i].added_lines,
        files_view(files)[i].deleted_lines == files[i].deleted_lines,
        files_view(files)[i].is_binary == files[i].is_binary,
{
}

/// The contents of commit statistics are their fields, one entry for each commit.
pub proof fn law_contents_of_statistics(commits: Seq<CommitStats>, i: int, j: int)
    requires
        0 <= i < commits.len(),
    ensures
        stats_view(commits).len() == commits.len(),
        stats_view(commits)[i].commit_id == commits[i].commit_id@,
        stats_view(commits)[i].files.len() == commits[i].files@.len(),
        0 <= j < commits[i].files@.len() ==> {
            let file = commits[i].files@[j];
            stats_view(commits)[i].files[j] == (FileView {
                path: file.path@,
                added_lines: file.added_lines,
                deleted_lines: file.deleted_lines,
                is_binary: file.is_binary,
            })
        },
{
}

/// The contents of what is shown of a commit are its fields, with every parent.
pub proof fn law_contents_of_info(info: CommitInfo, meta: CommitMeta)
    ensures
        info@.id == info.id@,
        info@.author_name == info.author_name@,
        info@.author_email == info.author_email@,
        info@.message == info.message@,
        info@.timestamp == info.timestamp,
        info@.parent_ids.len() == info.parent_ids@.len(),
        forall|i: int|
            0 <= i < info.parent_ids@.len() ==> #[trigger] info@.parent_ids[i]
                == info.parent_ids@[i]@,
        meta@.timestamp == meta.timestamp,
        meta@.author_name == meta.author_name@,
        meta@.author_email == meta.author_email@,
        meta@.message_title == meta.message_title@,
        meta@.parent_ids == meta.parent_ids@,
{
}

/// The contents of changes and of the data of their objects are what they hold, in order.
pub proof fn law_contents_of_changes(changes: Seq<Change>, contents: Seq<Vec<u8>>, i: int)
    ensures
        changes_view(changes).len() == changes.len(),
        data_view(contents).len() == contents.len(),
        0 <= i < contents.len() ==> data_view(contents)[i] == contents[i]@,
        0 <= i < changes.len() ==> match changes[i] {
            Change::Addition { id, location } => changes_view(changes)[i] == (
            ChangeView::Addition { id, location: location@ }),
            Change::Deletion { id, location } => changes_view(changes)[i] == (
            ChangeView::Deletion { id, location: location@ }),
            Change::Modification { previous_id, id, location } => changes_view(changes)[i] == (
            ChangeView::Modification { previous_id, id, location: location@ }),
            Change::Rewrite { source_id, id, source_location, location, copy } => changes_view(
                changes,
            )[i] == (ChangeView::Rewrite {
                source_id,
                id,
                source_location: source_location@,
                location: location@,
                copy,
            }),
        },
{
}

/// The contents of a result are what it succeeded with, or its error with its message.
pub proof fn law_contents_of_results(r: Result<CommitInfo, GmapError>, t: Result<(), GmapError>)
    ensures
        r is Ok ==> outcome_view(r) == Ok::<InfoView, ErrorView>(r->Ok_0@),
        r is Err ==> outcome_view(r) == Err::<InfoView, ErrorView>(r->Err_0@),
        t is Ok ==> outcome(t) == Ok::<(), ErrorView>(()),
        t is Err ==> match t->Err_0 {
            GmapError::InvalidDate(m) => outcome(t) == Err::<(), ErrorView>(
                ErrorView::InvalidDate(m@),
            ),
            GmapError::Parse(m) => outcome(t) == Err::<(), ErrorView>(ErrorView::Parse(m@)),
            GmapError::Other(m) => outcome(t) == Err::<(), ErrorView>(ErrorView::Other(m@)),
            GmapError::Git(m) => outcome(t) == Err::<(), ErrorView>(ErrorView::Git(m@)),
        },
{
}

} // verus!
