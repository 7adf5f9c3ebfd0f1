//! Listings, collections and statistics over a history held in memory.

use gmap::{
    Change, CollectRequest, CollectTask, CommitStats, DateRange, DiffFailure, FileStats, GitRepo,
    GmapError, ListTask, ObjectId, StatsRequest, StatsTask, Timestamp,
};
use std::collections::HashMap;

fn id(n: u8) -> ObjectId {
    ObjectId { bytes: [n; 20] }
}

fn hex(n: u8) -> String {
    format!("{:02x}", n).repeat(20)
}

fn commit(time: i64, parents: &[u8]) -> Vec<u8> {
    let mut s = format!("tree {}\n", hex(0xee));
    for p in parents {
        s.push_str(&format!("parent {}\n", hex(*p)));
    }
    s.push_str("author A <a@x> 1 +0000\n");
    s.push_str(&format!("committer C <c@x> {} +0000\n\nmessage\n", time));
    s.into_bytes()
}

struct Store {
    commits: HashMap<ObjectId, Vec<u8>>,
    objects: HashMap<ObjectId, Vec<u8>>,
}

// Commit 1 is the root; 2 and 3 follow it; 4 merges them (2 first); 5 follows 4.
fn store() -> Store {
    let mut commits = HashMap::new();
    commits.insert(id(1), commit(100, &[]));
    commits.insert(id(2), commit(200, &[1]));
    commits.insert(id(3), commit(300, &[1]));
    commits.insert(id(4), commit(400, &[2, 3]));
    commits.insert(id(5), commit(500, &[4]));
    let mut objects = HashMap::new();
    objects.insert(id(0x41), b"a\nb\n".to_vec());
    objects.insert(id(0x42), b"a\nc\nd\n".to_vec());
    objects.insert(id(0x43), b"\0\n".to_vec());
    Store { commits, objects }
}

impl Store {
    fn commit(&self, id: ObjectId) -> Result<Vec<u8>, String> {
        self.commits.get(&id).cloned().ok_or("no such commit".to_string())
    }

    fn object(&self, id: ObjectId) -> Result<Vec<u8>, String> {
        self.objects.get(&id).cloned().ok_or("no such object".to_string())
    }

    fn diff(&self, commit: ObjectId, parent: Option<ObjectId>) -> Result<Vec<Change>, DiffFailure> {
        match parent {
            None => Ok(vec![
                Change::Addition { id: id(0x41), location: b"text".to_vec() },
                Change::Addition { id: id(0x43), location: b"image".to_vec() },
            ]),
            Some(p) if self.commits.contains_key(&p) => Ok(vec![Change::Modification {
                previous_id: id(0x41),
                id: id(0x42),
                location: format!("{}-{}", p.bytes[0], commit.bytes[0]).into_bytes(),
            }]),
            Some(_) => Err(DiffFailure::MissingCommit("no such commit".to_string())),
        }
    }
}

fn list(store: &Store, mut task: ListTask) -> Result<Vec<ObjectId>, GmapError> {
    while let Some(id) = task.next() {
        task.supply_commit(store.commit(id))?;
    }
    Ok(task.finish())
}

fn collect(store: &Store, mut task: CollectTask) -> Result<Vec<CommitStats>, GmapError> {
    loop {
        match task.request() {
            CollectRequest::Commit(id) => task.supply_commit(store.commit(id))?,
            CollectRequest::Diff { commit, parent } => {
                task.supply_diff(store.diff(commit, parent))?
            }
            CollectRequest::Object(id) => {
                let data = store.object(id);
                if let Ok(data) = &data {
                    assert!(task.can_accept(data));
                }
                task.supply_object(data)?
            }
            CollectRequest::Done => return Ok(task.finish()),
        }
    }
}

fn compute(store: &Store, mut task: StatsTask) -> Result<CommitStats, GmapError> {
    loop {
        match task.request() {
            StatsRequest::Diff { commit, parent } => task.supply_diff(store.diff(commit, parent))?,
            StatsRequest::Object(id) => {
                let data = store.object(id);
                if let Ok(data) = &data {
                    assert!(task.can_accept(data));
                }
                task.supply_object(data)?
            }
            StatsRequest::Done => return Ok(task.finish()),
        }
    }
}

fn repo() -> GitRepo<&'static str> {
    GitRepo::open(None, "/r")
}

fn listed(range: &DateRange, merges: bool) -> Vec<u8> {
    let task = repo().list_commit_ids(Ok(id(5)), range, merges).unwrap();
    list(&store(), task).unwrap().iter().map(|i| i.bytes[0]).collect()
}

fn at(secs: i64) -> Timestamp {
    Timestamp { secs, nanos: 0 }
}

#[test]
fn every_commit_is_listed_once() {
    assert_eq!(listed(&DateRange::new(), true), vec![5, 4, 3, 1, 2]);
}

#[test]
fn merges_are_left_out_and_walked_through() {
    assert_eq!(listed(&DateRange::new(), false), vec![5, 3, 1, 2]);
}

#[test]
fn commits_out_of_range_are_walked_through() {
    let range = DateRange::new().with_since(at(100)).with_until(at(300));
    assert_eq!(listed(&range, true), vec![3, 1, 2]);
    let range = DateRange::new().with_since(at(101));
    assert_eq!(listed(&range, true), vec![5, 4, 3, 2]);
    let range = DateRange::new().with_since(at(501));
    assert_eq!(listed(&range, true), Vec::<u8>::new());
}

#[test]
fn each_commit_is_asked_for_once() {
    let store = store();
    let mut task = repo().list_commit_ids(Ok(id(5)), &DateRange::new(), true).unwrap();
    let mut asked = vec![];
    while let Some(id) = task.next() {
        asked.push(id.bytes[0]);
        task.supply_commit(store.commit(id)).unwrap();
    }
    assert_eq!(asked, vec![5, 4, 3, 1, 2]);
    assert_eq!(task.next(), None);
}

#[test]
fn ids_that_look_alike_are_told_apart() {
    let mut a = id(7);
    let b = id(7);
    a.bytes[19] = 8;
    let mut c = id(7);
    c.bytes[0] = 9;
    let mut commits = HashMap::new();
    let data = |parents: &[ObjectId]| {
        let mut s = format!("tree {}\n", hex(0xee));
        for p in parents {
            let text: String = p.bytes.iter().map(|b| format!("{:02x}", b)).collect();
            s.push_str(&format!("parent {}\n", text));
        }
        s.push_str("author A <a@x> 1 +0000\ncommitter C <c@x> 1 +0000\n\nm\n");
        s.into_bytes()
    };
    commits.insert(a, data(&[b, c, b]));
    commits.insert(b, data(&[]));
    commits.insert(c, data(&[a]));
    let store = Store { commits, objects: HashMap::new() };
    let task = repo().list_commit_ids(Ok(a), &DateRange::new(), true).unwrap();
    assert_eq!(list(&store, task), Ok(vec![a, b, c]));
}

#[test]
fn a_missing_commit_ends_a_listing() {
    let mut store = store();
    store.commits.remove(&id(3));
    let task = repo().list_commit_ids(Ok(id(5)), &DateRange::new(), true).unwrap();
    assert_eq!(list(&store, task), Err(GmapError::Git("no such commit".to_string())));
}

#[test]
fn a_bad_time_ends_a_listing() {
    let mut store = store();
    store.commits.insert(id(3), commit(99_999_999_999_999, &[]));
    let error = GmapError::InvalidDate("Invalid timestamp: 99999999999999".to_string());
    let task = repo().list_commit_ids(Ok(id(5)), &DateRange::new(), true).unwrap();
    assert_eq!(list(&store, task), Err(error));
}

#[test]
fn a_missing_head() {
    let head = || Err("no head".to_string());
    let range = DateRange::new();
    let error = GmapError::Git("no head".to_string());
    assert_eq!(repo().list_commit_ids(head(), &range, true).err(), Some(error));
    let error = GmapError::Git("no head".to_string());
    assert_eq!(repo().collect_commits(head(), &range, true, true).err(), Some(error));
    let error = GmapError::Git("gone".to_string());
    let found = Err("gone".to_string());
    assert_eq!(repo().compute_commit_stats_for(id(1), found, true).err(), Some(error));
}

fn file(path: &str, added_lines: u32, deleted_lines: u32, is_binary: bool) -> FileStats {
    FileStats { path: path.to_string(), added_lines, deleted_lines, is_binary }
}

fn stats(n: u8, files: Vec<FileStats>) -> CommitStats {
    CommitStats { commit_id: hex(n), files }
}

#[test]
fn statistics_are_collected() {
    let task = repo().collect_commits(Ok(id(5)), &DateRange::new(), true, true).unwrap();
    assert_eq!(
        collect(&store(), task),
        Ok(vec![
            stats(5, vec![file("4-5", 2, 1, false)]),
            stats(4, vec![file("2-4", 2, 1, false)]),
            stats(3, vec![file("1-3", 2, 1, false)]),
            stats(1, vec![file("text", 2, 0, false), file("image", 0, 0, true)]),
            stats(2, vec![file("1-2", 2, 1, false)]),
        ])
    );
}

#[test]
fn binary_files_are_left_out() {
    let range = DateRange::new().with_until(at(100));
    let task = repo().collect_commits(Ok(id(5)), &range, true, false).unwrap();
    assert_eq!(collect(&store(), task), Ok(vec![stats(1, vec![file("text", 2, 0, false)])]));
}

#[test]
fn collections_follow_listings() {
    let store = store();
    let ranges = [
        DateRange::new(),
        DateRange::new().with_since(at(200)),
        DateRange::new().with_until(at(300)),
        DateRange::new().with_since(at(150)).with_until(at(450)),
    ];
    for range in ranges.iter() {
        for merges in [true, false] {
            for binary in [true, false] {
                let ids = repo().list_commit_ids(Ok(id(5)), range, merges).unwrap();
                let ids = list(&store, ids).unwrap();
                let all = repo().collect_commits(Ok(id(5)), range, merges, binary).unwrap();
                let all = collect(&store, all).unwrap();
                let each: Vec<CommitStats> = ids
                    .iter()
                    .map(|i| {
                        let found = store.commit(*i);
                        let task = repo().compute_commit_stats_for(*i, found, binary).unwrap();
                        compute(&store, task).unwrap()
                    })
                    .collect();
                assert_eq!(all, each);
            }
        }
    }
}

#[test]
fn a_missing_object_is_reported_with_its_commit() {
    let mut store = store();
    store.objects.remove(&id(0x42));
    let text = format!("Object find error: no such object (referenced from commit {})", hex(5));
    let task = repo().collect_commits(Ok(id(5)), &DateRange::new(), true, true).unwrap();
    assert_eq!(collect(&store, task), Err(GmapError::Other(text.clone())));
    let task = repo().compute_commit_stats_for(id(5), store.commit(id(5)), true).unwrap();
    assert_eq!(compute(&store, task), Err(GmapError::Other(text)));
}

#[test]
fn a_failed_comparison_is_reported() {
    let task = || repo().compute_commit_stats_for(id(9), Ok(commit(1, &[8])), true).unwrap();
    let text = format!("Object find error: no such commit (referenced from commit {})", hex(9));
    assert_eq!(compute(&store(), task()), Err(GmapError::Other(text)));
    let mut other = task();
    assert_eq!(other.request(), StatsRequest::Diff { commit: id(9), parent: Some(id(8)) });
    assert_eq!(
        other.supply_diff(Err(DiffFailure::Unreadable("bad tree".to_string()))),
        Err(GmapError::Git("bad tree".to_string()))
    );
}

#[test]
fn collection_errors_of_the_walk() {
    let mut store = store();
    store.commits.remove(&id(1));
    let range = DateRange::new().with_since(at(1000));
    let task = repo().collect_commits(Ok(id(5)), &range, true, true).unwrap();
    assert_eq!(collect(&store, task), Err(GmapError::Git("no such commit".to_string())));
    store.commits.insert(id(1), b"tree\n".to_vec());
    let task = repo().collect_commits(Ok(id(5)), &range, true, true).unwrap();
    let error = "The commit could not be decoded fully or partially".to_string();
    assert_eq!(collect(&store, task), Err(GmapError::Git(error)));
}

#[test]
fn rewrites_ask_for_both_objects() {
    let mut task = repo().compute_commit_stats_for(id(1), Ok(commit(1, &[])), false).unwrap();
    assert_eq!(task.request(), StatsRequest::Diff { commit: id(1), parent: None });
    task.supply_diff(Ok(vec![
        Change::Rewrite {
            source_id: id(0x41),
            id: id(0x42),
            source_location: b"from".to_vec(),
            location: b"to".to_vec(),
            copy: false,
        },
        Change::Deletion { id: id(0x42), location: b"gone".to_vec() },
    ]))
    .unwrap();
    assert_eq!(task.request(), StatsRequest::Object(id(0x41)));
    task.supply_object(store().object(id(0x41))).unwrap();
    assert_eq!(task.request(), StatsRequest::Object(id(0x42)));
    task.supply_object(store().object(id(0x42))).unwrap();
    assert_eq!(task.request(), StatsRequest::Object(id(0x42)));
    task.supply_object(store().object(id(0x42))).unwrap();
    assert_eq!(task.request(), StatsRequest::Done);
    assert_eq!(
        task.finish(),
        stats(1, vec![file("from", 0, 1, false), file("to", 0, 0, false), file("gone", 0, 3, false)])
    );
}

#[test]
fn a_collection_asks_for_each_commit_once_and_ends() {
    let store = store();
    let mut task = repo().collect_commits(Ok(id(5)), &DateRange::new(), true, true).unwrap();
    let mut asked = vec![];
    let mut answers = 0;
    loop {
        match task.request() {
            CollectRequest::Commit(id) => {
                asked.push(id.bytes[0]);
                task.supply_commit(store.commit(id)).unwrap();
            }
            CollectRequest::Diff { commit, parent } => {
                task.supply_diff(store.diff(commit, parent)).unwrap()
            }
            CollectRequest::Object(id) => task.supply_object(store.object(id)).unwrap(),
            CollectRequest::Done => break,
        }
        answers += 1;
    }
    assert_eq!(asked, vec![5, 4, 3, 1, 2]);
    // Five commits, each with its changes and two objects.
    assert_eq!(answers, 5 * 4);
    assert_eq!(task.request(), CollectRequest::Done);
}

#[test]
fn leaving_out_binary_files_leaves_the_rest() {
    let store = store();
    let range = DateRange::new();
    let run = |binary| {
        collect(&store, repo().collect_commits(Ok(id(5)), &range, true, binary).unwrap()).unwrap()
    };
    let mut all = run(true);
    for entry in all.iter_mut() {
        entry.files.retain(|f| !f.is_binary);
    }
    assert_eq!(run(false), all);
}

#[test]
fn leaving_out_merges_leaves_the_rest() {
    let store = store();
    let range = DateRange::new();
    let run = |merges| {
        collect(&store, repo().collect_commits(Ok(id(5)), &range, merges, true).unwrap()).unwrap()
    };
    let mut all = run(true);
    all.retain(|entry| entry.commit_id != hex(4));
    assert_eq!(run(false), all);
    assert_eq!(all.len(), 4);
}

#[test]
fn a_range_filters_the_whole_history() {
    let all = listed(&DateRange::new(), true);
    let times = |n: u8| n as i64 * 100;
    for (since, until) in [(0, 600), (150, 450), (200, 200), (350, 600), (600, 700)] {
        let range = DateRange::new().with_since(at(since)).with_until(at(until));
        let wanted: Vec<u8> =
            all.iter().copied().filter(|n| since <= times(*n) && times(*n) <= until).collect();
        assert_eq!(listed(&range, true), wanted);
        let plain: Vec<u8> = wanted.iter().copied().filter(|n| *n != 4).collect();
        assert_eq!(listed(&range, false), plain);
    }
}

#[test]
fn a_bad_time_ends_a_listing_whatever_the_range() {
    let mut store = store();
    store.commits.insert(id(1), commit(99_999_999_999_999, &[]));
    for since in [0, 450, 1000] {
        let range = DateRange::new().with_since(at(since));
        let task = repo().list_commit_ids(Ok(id(5)), &range, true).unwrap();
        assert!(matches!(list(&store, task), Err(GmapError::InvalidDate(_))));
    }
}
