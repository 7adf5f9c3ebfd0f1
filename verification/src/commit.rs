//! Commits: what the library reads in the raw data of a commit object.

use crate::error::{outcome, outcome_view, ErrorView, GmapError};
use crate::oid::{hex_text, to_hex, ObjectId};
use crate::text::{decimal, i64_to_string, join2};
use crate::timestamp::{from_seconds, timestamp_opt, Timestamp};
use vstd::prelude::*;
use vstd::utf8::{decode_utf8, valid_utf8};

verus! {

/// The committer's second count in the data of a commit, or why it could not be read, in the
/// words of `gix`.
pub uninterp spec fn commit_seconds(data: Seq<u8>) -> Result<i64, Seq<char>>;

/// `Commit::time` of `gix`, on the commit's data: the second count of the committer's
/// signature. It and its error are functions of the data alone.
#[verifier::external_body]
pub(crate) fn read_seconds(data: &[u8]) -> (r: Result<i64, String>)
    ensures
        match r {
            Ok(secs) => commit_seconds(data@) == Ok::<i64, Seq<char>>(secs),
            Err(e) => commit_seconds(data@) == Err::<i64, Seq<char>>(e@),
        },
{
    let committer = gix::objs::CommitRefIter::from_bytes(data)
        .committer()
        .map_err(|e| gix::object::commit::Error::from(e).to_string())?;
    let time = committer.trim().time();
    time.map(|t| t.seconds).map_err(|e| gix::object::commit::Error::from(e).to_string())
}

/// The author's name and email in the data of a commit, or why they could not be read.
pub uninterp spec fn commit_author(data: Seq<u8>) -> Result<(Seq<u8>, Seq<u8>), Seq<char>>;

/// `Commit::author` of `gix`, on the commit's data: the author's name and email without white
/// space around them. They and the error are functions of the data alone.
#[verifier::external_body]
pub(crate) fn read_author(data: &[u8]) -> (r: Result<(Vec<u8>, Vec<u8>), String>)
    ensures
        match r {
            Ok((name, email)) => commit_author(data@) == Ok::<(Seq<u8>, Seq<u8>), Seq<char>>(
                (name@, email@),
            ),
            Err(e) => commit_author(data@) == Err::<(Seq<u8>, Seq<u8>), Seq<char>>(e@),
        },
{
    match gix::objs::CommitRefIter::from_bytes(data).author().map(|s| s.trim()) {
        Ok(author) => Ok((author.name.to_vec(), author.email.to_vec())),
        Err(e) => Err(e.to_string()),
    }
}

/// The title of the message in the data of a commit, or why it could not be read.
pub uninterp spec fn commit_title(data: Seq<u8>) -> Result<Seq<u8>, Seq<char>>;

/// `Commit::message` of `gix`, on the commit's data: the message's title. It and the error are
/// functions of the data alone.
#[verifier::external_body]
pub(crate) fn read_title(data: &[u8]) -> (r: Result<Vec<u8>, String>)
    ensures
        match r {
            Ok(title) => commit_title(data@) == Ok::<Seq<u8>, Seq<char>>(title@),
            Err(e) => commit_title(data@) == Err::<Seq<u8>, Seq<char>>(e@),
        },
{
    match gix::objs::CommitRefIter::from_bytes(data).message() {
        Ok(message) => Ok(gix::objs::commit::MessageRef::from_bytes(message).title.to_vec()),
        Err(e) => Err(e.to_string()),
    }
}

/// The ids of the parents in the data of a commit.
pub uninterp spec fn commit_parents(data: Seq<u8>) -> Seq<ObjectId>;

/// `Commit::parent_ids` of `gix`, on the commit's data: the parents in the order of the data.
/// They are a function of the data alone; what cannot be read is left out.
#[verifier::external_body]
pub(crate) fn read_parents(data: &[u8]) -> (r: Vec<ObjectId>)
    ensures
        r@ == commit_parents(data@),
{
    let ids = gix::objs::CommitRefIter::from_bytes(data).parent_ids();
    ids.map(|gix::ObjectId::Sha1(bytes)| ObjectId { bytes }).collect()
}

/// The text of `ToString` for a byte string of `gix`.
pub uninterp spec fn bstr_text(bytes: Seq<u8>) -> Seq<char>;

/// `ToString` for a byte string of `gix`: a function of the bytes alone, and the text that
/// they encode where they are UTF-8.
#[verifier::external_body]
pub(crate) fn bstr_to_string(bytes: &[u8]) -> (r: String)
    ensures
        r@ == bstr_text(bytes@),
        valid_utf8(bytes@) ==> r@ == decode_utf8(bytes@),
{
    gix::bstr::BStr::new(bytes).to_string()
}

/// The text that bytes are shown as: the text that they encode, where they are UTF-8.
pub open spec fn shown_text(bytes: Seq<u8>) -> Seq<char> {
    if valid_utf8(bytes) {
        decode_utf8(bytes)
    } else {
        bstr_text(bytes)
    }
}

/// What the walk over history keeps of a commit.
#[derive(Debug)]
pub struct CommitMeta {
    pub timestamp: Timestamp,
    pub author_name: String,
    pub author_email: String,
    pub message_title: String,
    pub parent_ids: Vec<ObjectId>,
}

/// The contents of a `CommitMeta`.
#[verifier::ext_equal]
pub ghost struct MetaView {
    pub timestamp: Timestamp,
    pub author_name: Seq<char>,
    pub author_email: Seq<char>,
    pub message_title: Seq<char>,
    pub parent_ids: Seq<ObjectId>,
}

impl View for CommitMeta {
    type V = MetaView;

    open spec fn view(&self) -> MetaView {
        MetaView {
            timestamp: self.timestamp,
            author_name: self.author_name@,
            author_email: self.author_email@,
            message_title: self.message_title@,
            parent_ids: self.parent_ids@,
        }
    }
}

/// A commit as it is shown to a user. Ids are in hexadecimal.
#[derive(Debug, PartialEq, Eq)]
pub struct CommitInfo {
    pub id: String,
    pub author_name: String,
    pub author_email: String,
    pub message: String,
    pub timestamp: Timestamp,
    pub parent_ids: Vec<String>,
}

/// The contents of a `CommitInfo`.
#[verifier::ext_equal]
pub ghost struct InfoView {
    pub id: Seq<char>,
    pub author_name: Seq<char>,
    pub author_email: Seq<char>,
    pub message: Seq<char>,
    pub timestamp: Timestamp,
    pub parent_ids: Seq<Seq<char>>,
}

/// The contents of strings.
pub open spec fn texts(v: Seq<String>) -> Seq<Seq<char>> {
    v.map_values(|s: String| s@)
}

impl View for CommitInfo {
    type V = InfoView;

    open spec fn view(&self) -> InfoView {
        InfoView {
            id: self.id@,
            author_name: self.author_name@,
            author_email: self.author_email@,
            message: self.message@,
            timestamp: self.timestamp,
            parent_ids: texts(self.parent_ids@),
        }
    }
}

/// Ids in hexadecimal.
pub open spec fn hex_texts(ids: Seq<ObjectId>) -> Seq<Seq<char>> {
    ids.map_values(|id: ObjectId| hex_text(id@))
}

/// What a commit shows to a user, under the id `id`.
pub open spec fn info_of(id: Seq<char>, meta: MetaView) -> InfoView {
    InfoView {
        id,
        author_name: meta.author_name,
        author_email: meta.author_email,
        message: meta.message_title,
        timestamp: meta.timestamp,
        parent_ids: hex_texts(meta.parent_ids),
    }
}

/// When a commit was made, or the error of reading it.
pub open spec fn committed_at(data: Seq<u8>) -> Result<Timestamp, ErrorView> {
    match commit_seconds(data) {
        Ok(secs) => match from_seconds(secs) {
            Some(t) => Ok(t),
            None => Err(ErrorView::InvalidDate("Invalid timestamp: "@ + decimal(secs as int))),
        },
        Err(e) => Err(ErrorView::Git(e)),
    }
}

/// Everything the library reads in a commit, or the first error of reading it: the time is
/// read first, then the author, then the message.
pub open spec fn decoded(data: Seq<u8>) -> Result<MetaView, ErrorView> {
    match committed_at(data) {
        Err(e) => Err(e),
        Ok(timestamp) => match commit_author(data) {
            Err(e) => Err(ErrorView::Git(e)),
            Ok((name, email)) => match commit_title(data) {
                Err(e) => Err(ErrorView::Git(e)),
                Ok(title) => Ok(
                    MetaView {
                        timestamp,
                        author_name: shown_text(name),
                        author_email: shown_text(email),
                        message_title: shown_text(title),
                        parent_ids: commit_parents(data),
                    },
                ),
            },
        },
    }
}

/// When a commit was made.
pub fn read_timestamp(data: &[u8]) -> (r: Result<Timestamp, GmapError>)
    ensures
        outcome(r) == committed_at(data@),
        r is Ok ==> commit_seconds(data@) == Ok::<i64, Seq<char>>(r->Ok_0.secs),
        r is Ok ==> r->Ok_0.nanos == 0,
{
    match read_seconds(data) {
        Ok(secs) => match timestamp_opt(secs) {
            Some(t) => Ok(t),
            None => {
                let n = i64_to_string(secs);
                Err(GmapError::InvalidDate(join2("Invalid timestamp: ", n.as_str())))
            },
        },
        Err(e) => Err(GmapError::Git(e)),
    }
}

/// Reads a commit.
pub fn decode_commit(data: &[u8]) -> (r: Result<CommitMeta, GmapError>)
    ensures
        outcome_view(r) == decoded(data@),
        r is Ok ==> r->Ok_0.parent_ids@ == commit_parents(data@),
        r is Ok ==> commit_seconds(data@) == Ok::<i64, Seq<char>>(r->Ok_0.timestamp.secs),
        r is Ok ==> r->Ok_0.timestamp.nanos == 0,
{
    let timestamp = match read_timestamp(data) {
        Ok(t) => t,
        Err(e) => return Err(e),
    };
    let (name, email) = match read_author(data) {
        Ok(author) => author,
        Err(e) => return Err(GmapError::Git(e)),
    };
    let title = match read_title(data) {
        Ok(title) => title,
        Err(e) => return Err(GmapError::Git(e)),
    };
    Ok(
        CommitMeta {
            timestamp,
            author_name: bstr_to_string(name.as_slice()),
            author_email: bstr_to_string(email.as_slice()),
            message_title: bstr_to_string(title.as_slice()),
            parent_ids: read_parents(data),
        },
    )
}

/// What a commit shows to a user, under the id `id`.
pub fn describe(id: String, meta: CommitMeta) -> (r: CommitInfo)
    ensures
        r@ == info_of(id@, meta@),
        r.id@ == id@,
        r.author_name@ == meta.author_name@,
        r.author_email@ == meta.author_email@,
        r.message@ == meta.message_title@,
        r.timestamp == meta.timestamp,
        r.parent_ids@.len() == meta.parent_ids@.len(),
        forall|i: int|
            0 <= i < meta.parent_ids@.len() ==> (#[trigger] r.parent_ids@[i])@ == hex_text(
                meta.parent_ids@[i]@,
            ),
{
    let mut parent_ids: Vec<String> = Vec::new();
    let mut i: usize = 0;
    while i < meta.parent_ids.len()
        invariant
            i <= meta.parent_ids@.len(),
            parent_ids@.len() == i,
            forall|j: int|
                0 <= j < i ==> (#[trigger] parent_ids@[j])@ == hex_text(meta.parent_ids@[j]@),
            texts(parent_ids@) == hex_texts(meta.parent_ids@.take(i as int)),
        decreases meta.parent_ids@.len() - i,
    {
        let ghost before = parent_ids@;
        parent_ids.push(to_hex(&meta.parent_ids[i]));
        proof {
            let ids = meta.parent_ids@;
            assert(ids.take(i + 1) == ids.take(i as int).push(ids[i as int]));
            assert(hex_texts(ids.take(i + 1)) == hex_texts(ids.take(i as int)).push(
                hex_text(ids[i as int]@),
            ));
            assert(texts(parent_ids@) == texts(before).push(parent_ids@.last()@));
        }
        i += 1;
    }
    assert(meta.parent_ids@.take(i as int) == meta.parent_ids@);
    CommitInfo {
        id,
        author_name: meta.author_name,
        author_email: meta.author_email,
        message: meta.message_title,
        timestamp: meta.timestamp,
        parent_ids,
    }
}

} // verus!
