//! Changes between two trees, and the line counts they give for each file.

use crate::blob::{
    compute_line_diff, count_lines, diffable, is_binary_object, kept, line_count, line_diff,
    looks_binary, split_count, text_of,
};
use crate::commit::{bstr_to_string, shown_text};
use crate::oid::ObjectId;
use vstd::prelude::*;

verus! {

/// A change between two trees. Locations are paths as the repository holds them.
#[derive(Debug)]
pub enum Change {
    Addition { id: ObjectId, location: Vec<u8> },
    Deletion { id: ObjectId, location: Vec<u8> },
    Modification { previous_id: ObjectId, id: ObjectId, location: Vec<u8> },
    /// A rename, or a copy where `copy` is set.
    Rewrite {
        source_id: ObjectId,
        id: ObjectId,
        source_location: Vec<u8>,
        location: Vec<u8>,
        copy: bool,
    },
}

/// The contents of a `Change`.
#[verifier::ext_equal]
pub ghost enum ChangeView {
    Addition { id: ObjectId, location: Seq<u8> },
    Deletion { id: ObjectId, location: Seq<u8> },
    Modification { previous_id: ObjectId, id: ObjectId, location: Seq<u8> },
    Rewrite {
        source_id: ObjectId,
        id: ObjectId,
        source_location: Seq<u8>,
        location: Seq<u8>,
        copy: bool,
    },
}

impl View for Change {
    type V = ChangeView;

    open spec fn view(&self) -> ChangeView {
        match self {
            Change::Addition { id, location } => ChangeView::Addition {
                id: *id,
                location: location@,
            },
            Change::Deletion { id, location } => ChangeView::Deletion {
                id: *id,
                location: location@,
            },
            Change::Modification { previous_id, id, location } => ChangeView::Modification {
                previous_id: *previous_id,
                id: *id,
                location: location@,
            },
            Change::Rewrite { source_id, id, source_location, location, copy } => {
                ChangeView::Rewrite {
                    source_id: *source_id,
                    id: *id,
                    source_location: source_location@,
                    location: location@,
                    copy: *copy,
                }
            },
        }
    }
}

/// How many lines a commit added to and deleted from a file. Binary files count no lines.
#[derive(Debug, PartialEq, Eq)]
pub struct FileStats {
    pub path: String,
    pub added_lines: u32,
    pub deleted_lines: u32,
    pub is_binary: bool,
}

/// The contents of a `FileStats`.
#[verifier::ext_equal]
pub ghost struct FileView {
    pub path: Seq<char>,
    pub added_lines: u32,
    pub deleted_lines: u32,
    pub is_binary: bool,
}

impl View for FileStats {
    type V = FileView;

    open spec fn view(&self) -> FileView {
        FileView {
            path: self.path@,
            added_lines: self.added_lines,
            deleted_lines: self.deleted_lines,
            is_binary: self.is_binary,
        }
    }
}

/// The contents of file statistics.
pub open spec fn files_view(files: Seq<FileStats>) -> Seq<FileView> {
    files.map_values(|f: FileStats| f@)
}

/// The objects that a change is about, in the order in which they are read.
pub open spec fn objects_of(change: ChangeView) -> Seq<ObjectId> {
    match change {
        ChangeView::Addition { id, .. } => seq![id],
        ChangeView::Deletion { id, .. } => seq![id],
        ChangeView::Modification { previous_id, id, .. } => seq![previous_id, id],
        ChangeView::Rewrite { source_id, id, .. } => seq![source_id, id],
    }
}

/// The lines of an object's data; binary data has none.
pub open spec fn lines_of(data: Seq<u8>) -> u32 {
    if looks_binary(data) {
        0
    } else {
        kept(line_count(text_of(data)))
    }
}

/// The lines added and deleted between two objects; none where one of them is binary.
pub open spec fn lines_between(old: Seq<u8>, new: Seq<u8>) -> (u32, u32) {
    if looks_binary(old) || looks_binary(new) {
        (0, 0)
    } else {
        line_diff(old, new)
    }
}

/// The file statistics that a change gives, from the data of its objects. Binary files are
/// shown only where `binary` is set.
pub open spec fn change_files(
    change: ChangeView,
    contents: Seq<Seq<u8>>,
    binary: bool,
) -> Seq<FileView> {
    let is_binary = exists|i: int|
        0 <= i < objects_of(change).len() && looks_binary(#[trigger] contents[i]);
    if is_binary && !binary {
        Seq::empty()
    } else {
        match change {
            ChangeView::Addition { location, .. } => seq![
                FileView {
                    path: shown_text(location),
                    added_lines: lines_of(contents[0]),
                    deleted_lines: 0,
                    is_binary,
                },
            ],
            ChangeView::Deletion { location, .. } => seq![
                FileView {
                    path: shown_text(location),
                    added_lines: 0,
                    deleted_lines: lines_of(contents[0]),
                    is_binary,
                },
            ],
            ChangeView::Modification { location, .. } => seq![
                FileView {
                    path: shown_text(location),
                    added_lines: lines_between(contents[0], contents[1]).0,
                    deleted_lines: lines_between(contents[0], contents[1]).1,
                    is_binary,
                },
            ],
            ChangeView::Rewrite { source_location, location, copy, .. } => seq![
                FileView {
                    path: shown_text(source_location),
                    added_lines: 0,
                    deleted_lines: if copy {
                        0
                    } else {
                        lines_between(contents[0], contents[1]).1
                    },
                    is_binary,
                },
                FileView {
                    path: shown_text(location),
                    added_lines: if copy {
                        lines_between(contents[0], contents[1]).0
                    } else {
                        0
                    },
                    deleted_lines: 0,
                    is_binary,
                },
            ],
        }
    }
}

/// Whether the objects of a change can be compared: where it takes a line diff, the differ can
/// number the lines.
pub open spec fn comparable(contents: Seq<Seq<u8>>) -> bool {
    contents.len() == 2 && !looks_binary(contents[0]) && !looks_binary(contents[1]) ==> diffable(
        text_of(contents[0]),
        text_of(contents[1]),
    )
}

/// The data of objects.
pub open spec fn data_view(contents: Seq<Vec<u8>>) -> Seq<Seq<u8>> {
    contents.map_values(|d: Vec<u8>| d@)
}

/// Whether data is binary, and how many lines it has if it is not.
pub fn inspect_object(data: &[u8]) -> (r: (bool, u32))
    ensures
        r == (looks_binary(data@), lines_of(data@)),
{
    let is_binary = is_binary_object(data);
    let lines = if is_binary {
        0
    } else {
        count_lines(data)
    };
    (is_binary, lines)
}

/// Adds to `files` the statistics that a change gives, from the data of its objects.
pub fn handle_change(
    change: &Change,
    contents: &Vec<Vec<u8>>,
    binary: bool,
    files: &mut Vec<FileStats>,
)
    requires
        contents@.len() == objects_of(change@).len(),
        comparable(data_view(contents@)),
    ensures
        files_view(final(files)@) == files_view(old(files)@) + change_files(
            change@,
            data_view(contents@),
            binary,
        ),
        // Between two texts, what is neither added nor deleted is as long in both, in lines as
        // the differ splits them.
        match *change {
            Change::Modification { .. } => {
                !looks_binary(contents@[0]@) && !looks_binary(contents@[1]@) ==> {
                    let file = final(files)@.last();
                    let old_lines = split_count(text_of(contents@[0]@));
                    let new_lines = split_count(text_of(contents@[1]@));
                    &&& final(files)@.len() == old(files)@.len() + 1
                    &&& file.deleted_lines <= old_lines
                    &&& file.added_lines <= new_lines
                    &&& new_lines - file.added_lines == old_lines - file.deleted_lines
                    &&& file.added_lines == 0 && file.deleted_lines == 0 <==> text_of(
                        contents@[0]@,
                    ) == text_of(contents@[1]@)
                    &&& !file.is_binary
                }
            },
            Change::Rewrite { copy, .. } => {
                !looks_binary(contents@[0]@) && !looks_binary(contents@[1]@) ==> {
                    let from = final(files)@[old(files)@.len() as int];
                    let to = final(files)@[old(files)@.len() as int + 1];
                    let old_lines = split_count(text_of(contents@[0]@));
                    let new_lines = split_count(text_of(contents@[1]@));
                    &&& final(files)@.len() == old(files)@.len() + 2
                    &&& from.added_lines == 0
                    &&& to.deleted_lines == 0
                    &&& copy ==> from.deleted_lines == 0
                    &&& copy ==> to.added_lines <= new_lines <= to.added_lines + old_lines
                    &&& !copy ==> to.added_lines == 0
                    &&& !copy ==> from.deleted_lines <= old_lines <= from.deleted_lines
                        + new_lines
                    &&& !from.is_binary && !to.is_binary
                }
            },
            Change::Addition { .. } | Change::Deletion { .. } => true,
        },
{
    let ghost data = data_view(contents@);
    let ghost before = files@;
    match change {
        Change::Addition { location, .. } => {
            let (is_binary, lines) = inspect_object(contents[0].as_slice());
            assert(looks_binary(data[0]) == is_binary);
            if binary || !is_binary {
                files.push(
                    FileStats {
                        path: bstr_to_string(location.as_slice()),
                        added_lines: lines,
                        deleted_lines: 0,
                        is_binary,
                    },
                );
            }
        },
        Change::Deletion { location, .. } => {
            let (is_binary, lines) = inspect_object(contents[0].as_slice());
            assert(looks_binary(data[0]) == is_binary);
            if binary || !is_binary {
                files.push(
                    FileStats {
                        path: bstr_to_string(location.as_slice()),
                        added_lines: 0,
                        deleted_lines: lines,
                        is_binary,
                    },
                );
            }
        },
        Change::Modification { location, .. } => {
            let old_is_binary = is_binary_object(contents[0].as_slice());
            let new_is_binary = is_binary_object(contents[1].as_slice());
            let is_binary = old_is_binary || new_is_binary;
            assert(looks_binary(data[0]) == old_is_binary && looks_binary(data[1]) == new_is_binary);
            if binary || !is_binary {
                let (added, deleted) = if is_binary {
                    (0, 0)
                } else {
                    compute_line_diff(contents[0].as_slice(), contents[1].as_slice())
                };
                files.push(
                    FileStats {
                        path: bstr_to_string(location.as_slice()),
                        added_lines: added,
                        deleted_lines: deleted,
                        is_binary,
                    },
                );
            }
        },
        Change::Rewrite { source_location, location, copy, .. } => {
            let old_is_binary = is_binary_object(contents[0].as_slice());
            let new_is_binary = is_binary_object(contents[1].as_slice());
            let is_binary = old_is_binary || new_is_binary;
            assert(looks_binary(data[0]) == old_is_binary && looks_binary(data[1]) == new_is_binary);
            if binary || !is_binary {
                let (added, deleted) = if is_binary {
                    (0, 0)
                } else {
                    compute_line_diff(contents[0].as_slice(), contents[1].as_slice())
                };
                files.push(
                    FileStats {
                        path: bstr_to_string(source_location.as_slice()),
                        added_lines: 0,
                        deleted_lines: if *copy {
                            0
                        } else {
                            deleted
                        },
                        is_binary,
                    },
                );
                files.push(
                    FileStats {
                        path: bstr_to_string(location.as_slice()),
                        added_lines: if *copy {
                            added
                        } else {
                            0
                        },
                        deleted_lines: 0,
                        is_binary,
                    },
                );
            }
        },
    }
    assert(files_view(files@) =~= files_view(before) + change_files(change@, data, binary));
}

} // verus!
