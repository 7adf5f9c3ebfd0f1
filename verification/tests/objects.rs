//! Commits, ids and file contents.

use gmap::blob::{
    can_diff, compute_line_diff, count_lines, is_binary_object, tally_ops, LineOp, LineTag,
};
use gmap::change::{handle_change, inspect_object};
use gmap::commit::{decode_commit, read_timestamp};
use gmap::range::read_revision;
use gmap::repo::{find_commit_with_context, parse_commit_id};
use gmap::timestamp::{MAX_SECONDS, MIN_SECONDS};
use gmap::{Change, CommitInfo, FileStats, GitRepo, GmapError, ObjectId, RevisionLookup, Timestamp};

const A: &str = "aaaaaaaaaaaaaaaaaaaaaaaaaaaaaaaaaaaaaaaa";
const B: &str = "00112233445566778899aabbccddeeff01234567";

fn id(n: u8) -> ObjectId {
    ObjectId { bytes: [n; 20] }
}

fn repo() -> GitRepo<&'static str> {
    GitRepo::open(None, "/srv/bare.git")
}

fn commit(parents: &[&str], time: &str, tail: &str) -> Vec<u8> {
    let mut s = format!("tree {}\n", A);
    for p in parents {
        s.push_str(&format!("parent {}\n", p));
    }
    s.push_str("author  Ann Author  <ann@example.org> 1600000000 +0200\n");
    s.push_str(&format!("committer Cem Committer <cem@example.org> {}\n", time));
    s.push_str(tail);
    s.into_bytes()
}

#[test]
fn work_tree_or_own_directory() {
    assert_eq!(*GitRepo::open(Some("/work"), "/work/.git").path(), "/work");
    assert_eq!(*repo().path(), "/srv/bare.git");
}

#[test]
fn ids_are_read_back() {
    let got = parse_commit_id(B).unwrap();
    assert_eq!(
        got.bytes,
        [
            0x00, 0x11, 0x22, 0x33, 0x44, 0x55, 0x66, 0x77, 0x88, 0x99, 0xaa, 0xbb, 0xcc, 0xdd,
            0xee, 0xff, 0x01, 0x23, 0x45, 0x67
        ]
    );
    assert_eq!(parse_commit_id(&B.to_uppercase()), Ok(got));
    assert!(got.same(&got));
    assert!(!got.same(&id(7)));
    let task = repo().compute_commit_stats_for(got, Ok(commit(&[], "5 +0000", "\nx\n")), true);
    let mut task = task.unwrap();
    task.supply_diff(Ok(vec![])).unwrap();
    assert_eq!(task.finish().commit_id, B);
}

#[test]
fn texts_that_are_no_ids() {
    assert_eq!(
        parse_commit_id("abc"),
        Err(GmapError::Parse(
            "Invalid commit ID: A hash sized 3 hexadecimal characters is invalid".to_string()
        ))
    );
    assert_eq!(
        parse_commit_id(""),
        Err(GmapError::Parse(
            "Invalid commit ID: A hash sized 0 hexadecimal characters is invalid".to_string()
        ))
    );
    assert_eq!(
        parse_commit_id("g0112233445566778899aabbccddeeff01234567"),
        Err(GmapError::Parse("Invalid commit ID: Invalid character encountered".to_string()))
    );
    assert_eq!(
        parse_commit_id("\u{fc}112233445566778899aabbccddeeff01234567"),
        Err(GmapError::Parse("Invalid commit ID: Invalid character encountered".to_string()))
    );
}

#[test]
fn commits_are_decoded() {
    let data = commit(&[B, A], "1700000000 -0500", "\nA title\n\nAnd a body.\n");
    let meta = decode_commit(&data).unwrap();
    assert_eq!(meta.timestamp, Timestamp { secs: 1_700_000_000, nanos: 0 });
    assert_eq!(meta.author_name, "Ann Author");
    assert_eq!(meta.author_email, "ann@example.org");
    assert_eq!(meta.message_title, "A title");
    assert_eq!(meta.parent_ids, vec![parse_commit_id(B).unwrap(), id(0xaa)]);
}

#[test]
fn commit_info_keeps_the_id_as_given() {
    let given = B.to_uppercase();
    let data = commit(&[A], "1700000000 -0500", "\nA title\n");
    assert_eq!(
        repo().get_commit_info(&given, Ok(data)),
        Ok(CommitInfo {
            id: given.clone(),
            author_name: "Ann Author".to_string(),
            author_email: "ann@example.org".to_string(),
            message: "A title\n".to_string(),
            timestamp: Timestamp { secs: 1_700_000_000, nanos: 0 },
            parent_ids: vec![A.to_string()],
        })
    );
}

#[test]
fn commit_info_that_fails() {
    assert_eq!(
        repo().get_commit_info("xyz", Err("not looked for".to_string())),
        Err(GmapError::Parse(
            "Invalid commit ID: A hash sized 3 hexadecimal characters is invalid".to_string()
        ))
    );
    assert_eq!(
        repo().get_commit_info(B, Err("gone".to_string())),
        Err(GmapError::Git("gone".to_string()))
    );
    assert_eq!(
        repo().get_commit_info(B, Ok(b"no commit".to_vec())),
        Err(GmapError::Git("The commit could not be decoded fully or partially".to_string()))
    );
}

#[test]
fn bytes_that_are_not_utf8_are_replaced() {
    let mut data = commit(&[], "1 +0000", "\n");
    data.extend_from_slice(b"caf\xe9 \xf0\x9f\x98\x80");
    assert_eq!(decode_commit(&data).unwrap().message_title, "caf\u{fffd} \u{1f600}");
}

#[test]
fn times_that_cannot_be_read() {
    assert_eq!(
        read_timestamp(&commit(&[], "-", "\nx\n")),
        Err(GmapError::Git("The commit date could not be parsed".to_string()))
    );
    assert_eq!(
        read_timestamp(&commit(&[], "soon +0000", "\nx\n")),
        Err(GmapError::Git("The commit could not be decoded fully or partially".to_string()))
    );
    assert_eq!(
        read_timestamp(b"tree"),
        Err(GmapError::Git("The commit could not be decoded fully or partially".to_string()))
    );
}

#[test]
fn messages_that_cannot_be_read() {
    let data = commit(&[], "1 +0000", "broken");
    assert_eq!(read_timestamp(&data), Ok(Timestamp { secs: 1, nanos: 0 }));
    assert!(matches!(decode_commit(&data), Err(GmapError::Git(_))));
}

#[test]
fn times_out_of_range() {
    let last = commit(&[], &format!("{} +0000", MAX_SECONDS), "\nx\n");
    assert_eq!(read_timestamp(&last), Ok(Timestamp { secs: MAX_SECONDS, nanos: 0 }));
    let first = commit(&[], &format!("{} +0000", MIN_SECONDS), "\nx\n");
    assert_eq!(read_timestamp(&first), Ok(Timestamp { secs: MIN_SECONDS, nanos: 0 }));
    let late = commit(&[], &format!("{} +0000", MAX_SECONDS + 1), "\nx\n");
    let error = GmapError::InvalidDate("Invalid timestamp: 8210266876800".to_string());
    assert_eq!(read_timestamp(&late), Err(error));
    let early = commit(&[], &format!("{} +0000", MIN_SECONDS - 1), "\nx\n");
    let error = GmapError::InvalidDate("Invalid timestamp: -8334601228801".to_string());
    assert_eq!(read_revision("v1", &RevisionLookup::Commit(early)), Err(error));
}

#[test]
fn revisions_name_the_time_of_their_commit() {
    let data = commit(&[], "1234 +0100", "\nx\n");
    assert_eq!(
        read_revision("v1", &RevisionLookup::Commit(data)),
        Ok(Timestamp { secs: 1234, nanos: 0 })
    );
}

#[test]
fn missing_objects_are_reported_with_their_commit() {
    assert_eq!(find_commit_with_context(Ok(vec![1]), Some(B)), Ok(vec![1]));
    assert_eq!(
        find_commit_with_context(Err("gone".to_string()), None),
        Err(GmapError::Git("gone".to_string()))
    );
    assert_eq!(
        find_commit_with_context(Err("gone".to_string()), Some(B)),
        Err(GmapError::Other(format!(
            "Object find error: gone (referenced from commit {})",
            B
        )))
    );
}

#[test]
fn binary_data() {
    assert!(!is_binary_object(b""));
    assert!(!is_binary_object(b"text"));
    assert!(is_binary_object(b"a\0b"));
    let mut data = vec![b'x'; 8192];
    data.push(0);
    assert!(!is_binary_object(&data));
    data[8191] = 0;
    assert!(is_binary_object(&data));
}

#[test]
fn lines_are_counted() {
    assert_eq!(count_lines(b""), 0);
    assert_eq!(count_lines(b"a"), 1);
    assert_eq!(count_lines(b"a\n"), 1);
    assert_eq!(count_lines(b"a\nb"), 2);
    assert_eq!(count_lines(b"\n\n"), 2);
    assert_eq!(count_lines(b"a\r\nb\r\n"), 2);
    assert_eq!(count_lines(b"a\rb"), 1);
    assert_eq!(count_lines("\u{e9}\n\u{1f600}".as_bytes()), 2);
    assert_eq!(count_lines(b"\xff\n\n"), 0);
    for text in ["", "a", "a\n", "a\nb", "\n", "\r\n", "a\r\n\nb\r", "x\u{2028}y\n"] {
        assert_eq!(count_lines(text.as_bytes()), text.lines().count() as u32);
    }
}

#[test]
fn lines_add_up() {
    let (a, b) = ("one\ntwo\n", "three\nfour");
    let both = format!("{}{}", a, b);
    assert_eq!(
        count_lines(both.as_bytes()),
        count_lines(a.as_bytes()) + count_lines(b.as_bytes())
    );
}

#[test]
fn objects_are_inspected() {
    assert_eq!(inspect_object(b"a\nb\n"), (false, 2));
    assert_eq!(inspect_object(b"a\n\0\n"), (true, 0));
}

#[test]
fn texts_are_compared() {
    assert_eq!(compute_line_diff(b"a\nb\nc\n", b"a\nx\nc\nd\n"), (2, 1));
    assert_eq!(compute_line_diff(b"", b"a\nb\n"), (2, 0));
    assert_eq!(compute_line_diff(b"a\nb\n", b""), (0, 2));
    assert_eq!(compute_line_diff(b"a\nb\n", b"a\nb\n"), (0, 0));
    assert_eq!(compute_line_diff(b"a\nb\nc\n", b"a\nc\n"), (0, 1));
    assert_eq!(compute_line_diff(b"a", b"a\n"), (1, 1));
    assert_eq!(compute_line_diff(b"a\rb\r", b"a\rc\r"), (1, 1));
    assert_eq!(compute_line_diff(b"\xff\n", b"a\n"), (1, 0));
    assert_eq!(compute_line_diff(b"a\n", b"\xff\n"), (0, 1));
    assert!(can_diff(b"a\nb\n", b"\xff\n"));
}

#[test]
fn line_ends_of_the_differ() {
    // A line feed, a carriage return, or both together end a line.
    for (text, lines) in [
        ("", 0),
        ("a", 1),
        ("a\n", 1),
        ("a\r\n", 1),
        ("a\r\nb\r", 2),
        ("\r\r\n\n\r", 4),
        ("a\rb\nc", 3),
    ] {
        assert_eq!(compute_line_diff(text.as_bytes(), b""), (0, lines));
        assert_eq!(compute_line_diff(b"", text.as_bytes()), (lines, 0));
    }
}

#[test]
fn what_is_kept_is_as_long_in_both_texts() {
    let texts = ["", "a\n", "b\na\n", "a\nb\nc\n", "c\nb\na", "x\n\nx\n", "a\nb\nc\nd\na\nb"];
    for old in texts {
        for new in texts {
            let (added, deleted) = compute_line_diff(old.as_bytes(), new.as_bytes());
            let lines = |s: &str| s.lines().count() as u32;
            assert_eq!(lines(new) - added, lines(old) - deleted);
            assert_eq!((added, deleted) == (0, 0), old == new);
        }
    }
}

#[test]
fn long_texts_are_compared() {
    let old: String = (0..400).map(|i| format!("line {}\n", i)).collect();
    let new: String =
        (0..400).filter(|i| i % 100 != 7).map(|i| format!("line {}\n", i)).collect();
    assert_eq!(compute_line_diff(old.as_bytes(), new.as_bytes()), (0, 4));
    assert_eq!(compute_line_diff(new.as_bytes(), old.as_bytes()), (4, 0));
}

#[test]
fn steps_are_tallied() {
    let op = |tag, old_len, new_len| LineOp { tag, old_len, new_len };
    let ops = [
        op(LineTag::Equal, 5, 5),
        op(LineTag::Insert, 0, 2),
        op(LineTag::Delete, 3, 0),
        op(LineTag::Replace, 10, 20),
    ];
    assert_eq!(tally_ops(&ops), (22, 13));
    assert_eq!(tally_ops(&[]), (0, 0));
    let many = [op(LineTag::Insert, 0, u32::MAX as usize), op(LineTag::Insert, 0, 3)];
    assert_eq!(tally_ops(&many), (2, 0));
}

fn files(change: Change, contents: &[&[u8]], binary: bool) -> Vec<FileStats> {
    let mut files = vec![];
    let contents = contents.iter().map(|d| d.to_vec()).collect();
    handle_change(&change, &contents, binary, &mut files);
    files
}

fn file(path: &str, added_lines: u32, deleted_lines: u32, is_binary: bool) -> FileStats {
    FileStats { path: path.to_string(), added_lines, deleted_lines, is_binary }
}

fn modification() -> Change {
    Change::Modification { previous_id: id(1), id: id(2), location: b"m".to_vec() }
}

fn rewrite(copy: bool) -> Change {
    Change::Rewrite {
        source_id: id(1),
        id: id(2),
        source_location: b"old".to_vec(),
        location: b"new".to_vec(),
        copy,
    }
}

#[test]
fn additions_and_deletions() {
    let addition = || Change::Addition { id: id(1), location: b"src/a.rs".to_vec() };
    let deletion = || Change::Deletion { id: id(1), location: b"src/a.rs".to_vec() };
    assert_eq!(files(addition(), &[b"a\nb\n"], false), vec![file("src/a.rs", 2, 0, false)]);
    assert_eq!(files(deletion(), &[b"a\nb\n"], false), vec![file("src/a.rs", 0, 2, false)]);
    assert_eq!(files(addition(), &[b"a\n\0"], true), vec![file("src/a.rs", 0, 0, true)]);
    assert_eq!(files(deletion(), &[b"a\n\0"], true), vec![file("src/a.rs", 0, 0, true)]);
    assert_eq!(files(addition(), &[b"a\n\0"], false), vec![]);
    assert_eq!(files(deletion(), &[b"a\n\0"], false), vec![]);
    let odd = Change::Addition { id: id(1), location: b"\xffx".to_vec() };
    assert_eq!(files(odd, &[b""], false), vec![file("\u{fffd}x", 0, 0, false)]);
}

#[test]
fn modifications() {
    assert_eq!(files(modification(), &[b"a\nb\n", b"a\nc\nd\n"], false), vec![file("m", 2, 1, false)]);
    assert_eq!(files(modification(), &[b"a\n\0", b"a\n"], true), vec![file("m", 0, 0, true)]);
    assert_eq!(files(modification(), &[b"a\n", b"a\n\0"], true), vec![file("m", 0, 0, true)]);
    assert_eq!(files(modification(), &[b"a\n", b"a\n\0"], false), vec![]);
}

#[test]
fn renames_and_copies() {
    let (old, new): (&[u8], &[u8]) = (b"a\nb\n", b"a\nc\nd\n");
    assert_eq!(
        files(rewrite(false), &[old, new], false),
        vec![file("old", 0, 1, false), file("new", 0, 0, false)]
    );
    assert_eq!(
        files(rewrite(true), &[old, new], false),
        vec![file("old", 0, 0, false), file("new", 2, 0, false)]
    );
    assert_eq!(
        files(rewrite(true), &[b"\0", new], true),
        vec![file("old", 0, 0, true), file("new", 0, 0, true)]
    );
    assert_eq!(files(rewrite(false), &[old, b"\0"], false), vec![]);
}
