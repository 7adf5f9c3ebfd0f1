//! File contents: telling text from binary data, counting lines and comparing texts.

use crate::text::utf8_text;
use vstd::arithmetic::div_mod::lemma_add_mod_noop;
use vstd::prelude::*;
use vstd::utf8::{decode_utf8, valid_utf8};

verus! {

/// How much of an object's data is searched for a zero byte.
pub const BINARY_PROBE: usize = 8192;

/// One more than the largest line count.
pub const COUNT_MODULUS: u64 = 0x1_0000_0000;

/// Whether data is taken for binary: it has a zero byte near its start.
pub open spec fn looks_binary(data: Seq<u8>) -> bool {
    exists|i: int| 0 <= i < data.len() && i < BINARY_PROBE && #[trigger] data[i] == 0
}

/// Whether data is taken for binary: whether one of its first 8192 bytes is zero.
pub fn is_binary_object(data: &[u8]) -> (r: bool)
    ensures
        r == looks_binary(data@),
        r <==> data@.take(
            if data@.len() < 8192 {
                data@.len() as int
            } else {
                8192
            },
        ).contains(0u8),
{
    let mut i: usize = 0;
    while i < data.len() && i < BINARY_PROBE
        invariant
            i <= data@.len(),
            i <= BINARY_PROBE,
            forall|j: int| 0 <= j < i ==> #[trigger] data@[j] != 0,
        decreases data@.len() - i,
    {
        if data[i] == 0 {
            proof {
                let end: int = if data@.len() < 8192 {
                    data@.len() as int
                } else {
                    8192
                };
                assert(data@.take(end)[i as int] == 0);
            }
            return true;
        }
        i += 1;
    }
    false
}

/// The number of times that `c` occurs in `s`.
pub open spec fn occurrences(s: Seq<char>, c: char) -> nat
    decreases s.len(),
{
    if s.len() == 0 {
        0
    } else {
        occurrences(s.drop_last(), c) + if s.last() == c {
            1nat
        } else {
            0nat
        }
    }
}

/// The number of lines of a text: lines end with a line feed, which the last may lack.
pub open spec fn line_count(s: Seq<char>) -> nat {
    occurrences(s, '\n') + if s.len() > 0 && s.last() != '\n' {
        1nat
    } else {
        0nat
    }
}

/// The text that data encodes, or the empty text where it is not UTF-8.
pub open spec fn text_of(data: Seq<u8>) -> Seq<char> {
    if valid_utf8(data) {
        decode_utf8(data)
    } else {
        Seq::empty()
    }
}

/// A count as it is kept: modulo two to the thirty-second.
pub open spec fn kept(n: nat) -> u32 {
    (n % (COUNT_MODULUS as nat)) as u32
}

/// The text that data encodes, or the empty text where it is not UTF-8.
fn text_or_empty(data: &[u8]) -> (r: &str)
    ensures
        r@ == text_of(data@),
{
    match utf8_text(data) {
        Some(s) => s,
        None => {
            proof {
                reveal_strlit("");
                assert(""@ == Seq::<char>::empty());
            }
            ""
        },
    }
}

/// The number of lines of an object's data; zero where it is not UTF-8.
pub fn count_lines(data: &[u8]) -> (r: u32)
    ensures
        r == kept(line_count(text_of(data@))),
        !valid_utf8(data@) ==> r == 0,
{
    let text = text_or_empty(data);
    let mut feeds: u64 = 0;
    let mut open_line: bool = false;
    for c in it: text.chars()
        invariant
            it.seq() == text@,
            feeds == occurrences(text@.take(it.index() as int), '\n') % COUNT_MODULUS as nat,
            open_line == (it.index() > 0 && text@[it.index() - 1] != '\n'),
    {
        proof {
            let i = it.index() as int;
            assert(text@.take(i + 1).drop_last() == text@.take(i));
            lemma_add_mod_noop(occurrences(text@.take(i), '\n') as int, 1, COUNT_MODULUS as int);
        }
        if c == '\n' {
            feeds = (feeds + 1) % COUNT_MODULUS;
            open_line = false;
        } else {
            open_line = true;
        }
    }
    proof {
        assert(text@.take(text@.len() as int) == text@);
        lemma_add_mod_noop(occurrences(text@, '\n') as int, 1, COUNT_MODULUS as int);
    }
    if open_line {
        ((feeds + 1) % COUNT_MODULUS) as u32
    } else {
        feeds as u32
    }
}

/// What one step of a line diff does.
#[derive(Clone, Copy, Debug, PartialEq, Eq, Structural)]
pub enum LineTag {
    Equal,
    Delete,
    Insert,
    Replace,
}

/// One step of a line diff: how many lines of the old text it covers, and how many of the new.
#[derive(Clone, Copy, Debug, PartialEq, Eq, Structural)]
pub struct LineOp {
    pub tag: LineTag,
    pub old_len: usize,
    pub new_len: usize,
}

/// The steps of `TextDiff::from_lines` from one text to another.
pub uninterp spec fn line_ops(old: Seq<char>, new: Seq<char>) -> Seq<LineOp>;

/// The number of line ends in a text as the differ sees them: a line feed, a carriage return, or
/// a carriage return and a line feed together.
pub open spec fn line_ends(s: Seq<char>) -> nat
    decreases s.len(),
{
    if s.len() == 0 {
        0
    } else {
        line_ends(s.drop_last()) + if s.last() == '\r' || (s.last() == '\n' && !ends_in_return(
            s.drop_last(),
        )) {
            1nat
        } else {
            0nat
        }
    }
}

/// Whether a text ends with a carriage return.
pub open spec fn ends_in_return(s: Seq<char>) -> bool {
    s.len() > 0 && s.last() == '\r'
}

/// The number of lines into which the differ splits a text: the last may lack its end.
pub open spec fn split_count(s: Seq<char>) -> nat {
    line_ends(s) + if s.len() > 0 && s.last() != '\n' && s.last() != '\r' {
        1nat
    } else {
        0nat
    }
}

/// Whether the differ can number the lines of both texts: it gives each a number of 32 bits.
pub open spec fn diffable(old: Seq<char>, new: Seq<char>) -> bool {
    split_count(old) + split_count(new) <= u32::MAX
}

/// `TextDiff::from_lines`, with the lengths of each operation's ranges: a function of the two
/// texts. An insertion covers nothing of the old text and a deletion nothing of the new; what
/// is equal is equally long. Together the operations cover the lines of both texts. Equal texts
/// differ nowhere, and texts between which no line is added or deleted are equal.
#[verifier::external_body]
pub(crate) fn diff_lines(old: &str, new: &str) -> (r: Vec<LineOp>)
    requires
        diffable(old@, new@),
    ensures
        r@ == line_ops(old@, new@),
        forall|i: int|
            0 <= i < r@.len() ==> match (#[trigger] r@[i]).tag {
                LineTag::Equal => r@[i].old_len == r@[i].new_len,
                LineTag::Delete => r@[i].new_len == 0,
                LineTag::Insert => r@[i].old_len == 0,
                LineTag::Replace => true,
            },
        old@ == new@ ==> forall|i: int|
            0 <= i < r@.len() ==> (#[trigger] r@[i]).tag == LineTag::Equal,
        old_covered(r@) == split_count(old@),
        new_covered(r@) == split_count(new@),
        added_by(r@) == 0 && deleted_by(r@) == 0 ==> old@ == new@,
{
    let convert = |op: &similar::DiffOp| {
        let tag = match op.tag() {
            similar::DiffTag::Equal => LineTag::Equal,
            similar::DiffTag::Delete => LineTag::Delete,
            similar::DiffTag::Insert => LineTag::Insert,
            similar::DiffTag::Replace => LineTag::Replace,
        };
        LineOp { tag, old_len: op.old_range().len(), new_len: op.new_range().len() }
    };
    similar::TextDiff::from_lines(old, new).ops().iter().map(convert).collect()
}

/// The lines of the old text that the steps cover together.
pub open spec fn old_covered(ops: Seq<LineOp>) -> nat
    decreases ops.len(),
{
    if ops.len() == 0 {
        0
    } else {
        old_covered(ops.drop_last()) + ops.last().old_len as nat
    }
}

/// The lines of the new text that the steps cover together.
pub open spec fn new_covered(ops: Seq<LineOp>) -> nat
    decreases ops.len(),
{
    if ops.len() == 0 {
        0
    } else {
        new_covered(ops.drop_last()) + ops.last().new_len as nat
    }
}

/// The lines that a step adds.
pub open spec fn op_added(op: LineOp) -> nat {
    match op.tag {
        LineTag::Insert | LineTag::Replace => op.new_len as nat,
        LineTag::Equal | LineTag::Delete => 0,
    }
}

/// The lines that a step deletes.
pub open spec fn op_deleted(op: LineOp) -> nat {
    match op.tag {
        LineTag::Delete | LineTag::Replace => op.old_len as nat,
        LineTag::Equal | LineTag::Insert => 0,
    }
}

/// The lines that the steps add together.
pub open spec fn added_by(ops: Seq<LineOp>) -> nat
    decreases ops.len(),
{
    if ops.len() == 0 {
        0
    } else {
        added_by(ops.drop_last()) + op_added(ops.last())
    }
}

/// The lines that the steps delete together.
pub open spec fn deleted_by(ops: Seq<LineOp>) -> nat
    decreases ops.len(),
{
    if ops.len() == 0 {
        0
    } else {
        deleted_by(ops.drop_last()) + op_deleted(ops.last())
    }
}

/// The lines that the steps add and delete.
pub open spec fn tally(ops: Seq<LineOp>) -> (u32, u32) {
    (kept(added_by(ops)), kept(deleted_by(ops)))
}

/// The lines added and deleted from one object's data to another's.
pub open spec fn line_diff(old: Seq<u8>, new: Seq<u8>) -> (u32, u32) {
    tally(line_ops(text_of(old), text_of(new)))
}

/// `a` and `n` together, as counts are kept.
fn add_kept(a: u32, n: usize) -> (r: u32)
    ensures
        forall|before: nat| a == kept(before) ==> r == #[trigger] kept(before + n as nat),
{
    proof {
        assert forall|before: nat| a == kept(before) implies ((a as int + n as int
            % 0x1_0000_0000) % 0x1_0000_0000) as u32 == #[trigger] kept(before + n as nat) by {
            lemma_add_mod_noop(before as int, n as int, 0x1_0000_0000);
        }
    }
    ((a as u64 + n as u64 % COUNT_MODULUS) % COUNT_MODULUS) as u32
}

/// Adds up the steps of a line diff: the lines added, then the lines deleted.
pub fn tally_ops(ops: &[LineOp]) -> (r: (u32, u32))
    ensures
        r == tally(ops@),
{
    let mut added: u32 = 0;
    let mut deleted: u32 = 0;
    let mut i: usize = 0;
    while i < ops.len()
        invariant
            i <= ops@.len(),
            added == kept(added_by(ops@.take(i as int))),
            deleted == kept(deleted_by(ops@.take(i as int))),
        decreases ops@.len() - i,
    {
        let op = ops[i];
        assert(ops@.take(i + 1).drop_last() == ops@.take(i as int));
        match op.tag {
            LineTag::Insert => {
                added = add_kept(added, op.new_len);
            },
            LineTag::Delete => {
                deleted = add_kept(deleted, op.old_len);
            },
            LineTag::Replace => {
                deleted = add_kept(deleted, op.old_len);
                added = add_kept(added, op.new_len);
            },
            LineTag::Equal => {},
        }
        i += 1;
    }
    assert(ops@.take(ops@.len() as int) == ops@);
    (added, deleted)
}

/// The lines added and deleted from one object's data to another's. Data that is not UTF-8
/// counts as an empty text. The lines of the old text that are not deleted are as many as those
/// of the new text that are not added; only equal texts have neither.
pub fn compute_line_diff(old: &[u8], new: &[u8]) -> (r: (u32, u32))
    requires
        diffable(text_of(old@), text_of(new@)),
    ensures
        r == line_diff(old@, new@),
        r.0 <= split_count(text_of(new@)),
        r.1 <= split_count(text_of(old@)),
        split_count(text_of(new@)) - r.0 == split_count(text_of(old@)) - r.1,
        r == (0u32, 0u32) <==> text_of(old@) == text_of(new@),
{
    let ops = diff_lines(text_or_empty(old), text_or_empty(new));
    proof {
        lemma_covered(ops@);
        if text_of(old@) == text_of(new@) {
            lemma_equal_steps(ops@);
        }
    }
    tally_ops(ops.as_slice())
}

/// What the steps cover and do not add or delete is the same in both texts.
proof fn lemma_covered(ops: Seq<LineOp>)
    requires
        forall|i: int|
            0 <= i < ops.len() ==> match (#[trigger] ops[i]).tag {
                LineTag::Equal => ops[i].old_len == ops[i].new_len,
                LineTag::Delete => ops[i].new_len == 0,
                LineTag::Insert => ops[i].old_len == 0,
                LineTag::Replace => true,
            },
    ensures
        added_by(ops) <= new_covered(ops),
        deleted_by(ops) <= old_covered(ops),
        new_covered(ops) - added_by(ops) == old_covered(ops) - deleted_by(ops),
    decreases ops.len(),
{
    if ops.len() > 0 {
        lemma_covered(ops.drop_last());
        assert(ops.last() == ops[ops.len() - 1]);
    }
}

/// Steps over equal lines add and delete nothing.
proof fn lemma_equal_steps(ops: Seq<LineOp>)
    requires
        forall|i: int| 0 <= i < ops.len() ==> (#[trigger] ops[i]).tag == LineTag::Equal,
    ensures
        added_by(ops) == 0,
        deleted_by(ops) == 0,
    decreases ops.len(),
{
    if ops.len() > 0 {
        lemma_equal_steps(ops.drop_last());
    }
}

/// The number of lines into which the differ splits a text, where it is below 2^32.
fn count_split(text: &str) -> (r: u64)
    ensures
        split_count(text@) < COUNT_MODULUS ==> r == split_count(text@),
        split_count(text@) >= COUNT_MODULUS ==> r >= COUNT_MODULUS,
{
    let mut ends: u64 = 0;
    let mut after_return: bool = false;
    let mut open_line: bool = false;
    for c in it: text.chars()
        invariant
            it.seq() == text@,
            ends == if line_ends(text@.take(it.index() as int)) < COUNT_MODULUS {
                line_ends(text@.take(it.index() as int))
            } else {
                COUNT_MODULUS as nat
            },
            after_return == ends_in_return(text@.take(it.index() as int)),
            open_line == (it.index() > 0 && text@[it.index() - 1] != '\n' && text@[it.index() - 1]
                != '\r'),
    {
        proof {
            let i = it.index() as int;
            assert(text@.take(i + 1).drop_last() == text@.take(i));
        }
        if (c == '\r' || (c == '\n' && !after_return)) && ends < COUNT_MODULUS {
            ends += 1;
        }
        after_return = c == '\r';
        open_line = c != '\n' && c != '\r';
    }
    assert(text@.take(text@.len() as int) == text@);
    if open_line {
        ends + 1
    } else {
        ends
    }
}

/// Whether `compute_line_diff` can compare the two objects' data.
pub fn can_diff(old: &[u8], new: &[u8]) -> (r: bool)
    ensures
        r == diffable(text_of(old@), text_of(new@)),
{
    let a = count_split(text_or_empty(old));
    let b = count_split(text_or_empty(new));
    a < COUNT_MODULUS && b < COUNT_MODULUS && a + b < COUNT_MODULUS
}

/// What stands behind the first 8192 bytes does not decide whether data is taken for binary.
pub proof fn law_only_the_start_decides(start: Seq<u8>, rest: Seq<u8>)
    requires
        start.len() >= BINARY_PROBE,
    ensures
        looks_binary(start + rest) == looks_binary(start),
{
    let data = start + rest;
    if looks_binary(data) {
        let i = choose|i: int| 0 <= i < data.len() && i < BINARY_PROBE && #[trigger] data[i] == 0;
        assert(start[i] == 0);
    }
    if looks_binary(start) {
        let i = choose|i: int| 0 <= i < start.len() && i < BINARY_PROBE && #[trigger] start[i] == 0;
        assert(data[i] == 0);
    }
}

proof fn lemma_occurrences_add_up(a: Seq<char>, b: Seq<char>, c: char)
    ensures
        occurrences(a + b, c) == occurrences(a, c) + occurrences(b, c),
    decreases b.len(),
{
    if b.len() > 0 {
        assert((a + b).drop_last() == a + b.drop_last());
        lemma_occurrences_add_up(a, b.drop_last(), c);
    } else {
        assert(a + b == a);
    }
}

/// Where a text ends with a line feed, another text behind it adds its own lines.
pub proof fn law_lines_add_up(a: Seq<char>, b: Seq<char>)
    requires
        a.len() == 0 || a.last() == '\n',
    ensures
        line_count(a + b) == line_count(a) + line_count(b),
{
    lemma_occurrences_add_up(a, b, '\n');
    if b.len() > 0 {
        assert((a + b).last() == b.last());
    } else {
        assert(a + b == a);
    }
}

} // verus!
