//! The code map: the sources of all modules laid out in one range of
//! byte positions, so that a position names a file and a place in it.
//! The map is that of the crate `codespan`; what this module states of
//! it is taken on trust from the source of that crate.

use vstd::prelude::*;

verus! {

/// Declares the type `CodeMap` of the crate `codespan` as a type whose
/// inside the proofs do not see. What a code map holds is named by
/// `code_map_files`.
#[verifier::external_type_specification]
#[verifier::external_body]
#[verifier::reject_recursive_types(S)]
pub struct ExCodeMap<S>(codespan::CodeMap<S>);

/// A file of the code map: its name, its source, and the first and the
/// last byte position of its span. The position after the last byte of
/// the source belongs to the span.
#[derive(Clone, Debug, PartialEq, Eq)]
pub struct FileMap {
    pub name: String,
    pub src: String,
    pub start: u32,
    pub end: u32,
}

/// A file as the contracts speak of it: start, end, name and source.
pub type FileEntry = (u32, u32, Seq<char>, Seq<char>);

impl View for FileMap {
    type V = FileEntry;

    open spec fn view(&self) -> FileEntry {
        (self.start, self.end, self.name@, self.src@)
    }
}

impl FileMap {
    pub fn duplicate(&self) -> (r: FileMap)
        ensures
            r@ == self@,
    {
        FileMap { name: self.name.clone(), src: self.src.clone(), start: self.start, end: self.end }
    }
}

/// The files of a code map, in the order in which the map holds them.
pub uninterp spec fn code_map_files(map: codespan::CodeMap<String>) -> Seq<
    (u32, u32, Seq<char>, Seq<char>),
>;

/// The number of bytes of a text.
pub open spec fn byte_len(s: Seq<char>) -> nat {
    vstd::utf8::encode_utf8(s).len()
}

/// Whether the position `index` lies in the span of the file `f`.
pub open spec fn in_span(f: FileEntry, index: u32) -> bool {
    f.0 <= index <= f.1
}

/// Whether the spans of the files are in order and apart: each span
/// ends before the next one starts, and the first starts after the
/// position 0, which is no position of a file.
pub open spec fn spaced(files: Seq<FileEntry>) -> bool {
    &&& forall|i: int| 0 <= i < files.len() ==> 1 <= (#[trigger] files[i]).0 <= files[i].1
    &&& forall|i: int, j: int|
        0 <= i < j < files.len() ==> (#[trigger] files[i]).1 < (#[trigger] files[j]).0
}

/// Whether a file of the map can be given another place: each file
/// starts after the position 0, and no file starts at the position at
/// which one of the two files before it in the map ends.
pub open spec fn movable(files: Seq<FileEntry>) -> bool {
    &&& forall|i: int| 0 <= i < files.len() ==> 1 <= (#[trigger] files[i]).0
    &&& forall|i: int, j: int|
        0 <= i < j < files.len() && j <= i + 2 ==> (#[trigger] files[i]).1 != (
        #[trigger] files[j]).0
}

/// The position at which a file that is added to the map starts: one
/// byte after the end of the last file.
pub open spec fn next_start(files: Seq<FileEntry>) -> int {
    if files.len() == 0 {
        1
    } else {
        files.last().1 + 1
    }
}

/// Calls `CodeMap::new` of the crate `codespan`. The contract claims
/// that the new map holds no file.
#[verifier::external_body]
pub(crate) fn code_map_new() -> (r: codespan::CodeMap<String>)
    ensures
        code_map_files(r) == Seq::<FileEntry>::empty(),
{
    codespan::CodeMap::new()
}

/// Calls `CodeMap::add_filemap` of the crate `codespan` with a virtual
/// file name. The contract claims that the map holds one more file, at
/// its end, with the given name and source, and that this file is the
/// result; and that the file starts one byte after the end of the file
/// that was the last and spans the bytes of the source, where these
/// positions fit the 32 bits of a position.
#[verifier::external_body]
pub(crate) fn code_map_add(map: &mut codespan::CodeMap<String>, name: String, src: String) -> (r:
    FileMap)
    ensures
        code_map_files(*final(map)) == code_map_files(*old(map)).push(r@),
        r.name@ == name@,
        r.src@ == src@,
        r.start <= r.end,
        next_start(code_map_files(*old(map))) + byte_len(src@) <= u32::MAX ==> r.start
            == next_start(code_map_files(*old(map))) && r.end == r.start + byte_len(src@),
{
    let file = map.add_filemap(codespan::FileName::virtual_(name.clone()), src);
    FileMap {
        name,
        src: file.src().to_string(),
        start: file.span().start().0,
        end: file.span().end().0,
    }
}

/// Calls `CodeMap::find_file` of the crate `codespan`, a binary search
/// for a file whose span holds the position. The contract claims that a
/// file that is found is one of the map and holds the position in its
/// span, and that none is found only where no span holds the position,
/// provided that the spans are in order and apart.
#[verifier::external_body]
pub(crate) fn code_map_find(map: &codespan::CodeMap<String>, index: u32) -> (r: Option<FileMap>)
    ensures
        match r {
            Some(f) => in_span(f@, index) && code_map_files(*map).contains(f@),
            None => spaced(code_map_files(*map)) ==> forall|i: int|
                0 <= i < code_map_files(*map).len() ==> !in_span(
                    #[trigger] code_map_files(*map)[i],
                    index,
                ),
        },
{
    map.find_file(codespan::ByteIndex(index)).map(
        |file|
            FileMap {
                name: match file.name() {
                    codespan::FileName::Virtual(name) => name.to_string(),
                    codespan::FileName::Real(path) => path.display().to_string(),
                },
                src: file.src().to_string(),
                start: file.span().start().0,
                end: file.span().end().0,
            },
    )
}

/// Calls `CodeMap::update` of the crate `codespan`, which searches as
/// `CodeMap::find_file` does for the file whose span holds the position,
/// gives it a new source, and moves the file where the source does not
/// fit between its neighbours. To find a place for a file that moves,
/// the call subtracts 1 from the start of the first of the other files
/// and from the gap between each two of them that lie side by side: the
/// contract asks that no start and no such gap is 0, without which the
/// call can overflow. It claims that a file that is returned has the
/// new source and the name of a file that held the position, and has
/// taken the place of that file in the map; and that otherwise nothing
/// changes, which happens only where no span holds the position,
/// provided that the spans are in order and apart. It claims nothing of
/// where the new file lies.
#[verifier::external_body]
pub(crate) fn code_map_update(map: &mut codespan::CodeMap<String>, index: u32, src: String) -> (r:
    Option<FileMap>)
    requires
        movable(code_map_files(*old(map))),
    ensures
        match r {
            Some(f) => f.src@ == src@ && f.start <= f.end && exists|i: int|
                0 <= i < code_map_files(*old(map)).len() && in_span(
                    #[trigger] code_map_files(*old(map))[i],
                    index,
                ) && f.name@ == code_map_files(*old(map))[i].2 && code_map_files(
                    *final(map),
                ).to_multiset() == code_map_files(*old(map)).to_multiset().remove(
                    code_map_files(*old(map))[i],
                ).insert(f@),
            None => code_map_files(*final(map)) == code_map_files(*old(map)) && (spaced(
                code_map_files(*old(map)),
            ) ==> forall|i: int|
                0 <= i < code_map_files(*old(map)).len() ==> !in_span(
                    #[trigger] code_map_files(*old(map))[i],
                    index,
                )),
        },
{
    map.update(codespan::ByteIndex(index), src).map(
        |file|
            FileMap {
                name: match file.name() {
                    codespan::FileName::Virtual(name) => name.to_string(),
                    codespan::FileName::Real(path) => path.display().to_string(),
                },
                src: file.src().to_string(),
                start: file.span().start().0,
                end: file.span().end().0,
            },
    )
}

/// Calls `Clone::clone` of `CodeMap` of the crate `codespan`. The
/// contract claims that the copy holds the files of the map.
#[verifier::external_body]
pub(crate) fn code_map_clone(map: &codespan::CodeMap<String>) -> (r: codespan::CodeMap<String>)
    ensures
        code_map_files(r) == code_map_files(*map),
{
    map.clone()
}

/// Calls `CodeMap::iter` of the crate `codespan` and reads the span of
/// each file. The contract claims that the result holds, for each file
/// of the map in order, the start and the end of its span.
#[verifier::external_body]
pub(crate) fn code_map_spans(map: &codespan::CodeMap<String>) -> (r: Vec<(u32, u32)>)
    ensures
        r@.len() == code_map_files(*map).len(),
        forall|i: int|
            0 <= i < r@.len() ==> (#[trigger] r@[i]) == (
                code_map_files(*map)[i].0,
                code_map_files(*map)[i].1,
            ),
{
    map.iter().map(|file| (file.span().start().0, file.span().end().0)).collect()
}

/// Whether spans are in order and apart: each starts after the position
/// 0 and ends before the next one starts.
pub open spec fn spans_spaced(spans: Seq<(u32, u32)>) -> bool {
    &&& forall|i: int| 0 <= i < spans.len() ==> 1 <= (#[trigger] spans[i]).0 <= spans[i].1
    &&& forall|i: int, j: int|
        0 <= i < j < spans.len() ==> (#[trigger] spans[i]).1 < (#[trigger] spans[j]).0
}

/// The spans of files.
pub open spec fn spans_of(files: Seq<FileEntry>) -> Seq<(u32, u32)> {
    Seq::new(files.len(), |i: int| (files[i].0, files[i].1))
}

/// Files are in order and apart exactly where their spans are.
pub proof fn lemma_spans_spaced(files: Seq<FileEntry>)
    ensures
        spans_spaced(spans_of(files)) == spaced(files),
{
    let spans = spans_of(files);
    if spaced(files) {
        assert forall|i: int| 0 <= i < spans.len() implies 1 <= (#[trigger] spans[i]).0
            <= spans[i].1 by {
            assert(1 <= files[i].0 <= files[i].1);
        }
        assert forall|i: int, j: int| 0 <= i < j < spans.len() implies (#[trigger] spans[i]).1 < (
        #[trigger] spans[j]).0 by {
            assert(files[i].1 < files[j].0);
        }
    }
    if spans_spaced(spans) {
        assert forall|i: int| 0 <= i < files.len() implies 1 <= (#[trigger] files[i]).0
            <= files[i].1 by {
            assert(1 <= spans[i].0 <= spans[i].1);
        }
        assert forall|i: int, j: int| 0 <= i < j < files.len() implies (#[trigger] files[i]).1 < (
        #[trigger] files[j]).0 by {
            assert(spans[i].1 < spans[j].0);
        }
    }
}

/// Whether spans are in order and apart.
pub fn spans_in_order(spans: &Vec<(u32, u32)>) -> (r: bool)
    ensures
        r == spans_spaced(spans@),
{
    let mut k: usize = 0;
    while k < spans.len()
        invariant
            k <= spans@.len(),
            forall|i: int| 0 <= i < k ==> 1 <= (#[trigger] spans@[i]).0 <= spans@[i].1,
            forall|i: int, j: int|
                0 <= i < j < k ==> (#[trigger] spans@[i]).1 < (#[trigger] spans@[j]).0,
        decreases spans.len() - k,
    {
        let (start, end) = spans[k];
        if start < 1 || end < start {
            assert(!(1 <= spans@[k as int].0 <= spans@[k as int].1));
            return false;
        }
        if k > 0 {
            if spans[k - 1].1 >= start {
                assert(!(spans@[k - 1].1 < spans@[k as int].0));
                return false;
            }
            assert forall|i: int, j: int| 0 <= i < j < k + 1 implies (#[trigger] spans@[i]).1 < (
            #[trigger] spans@[j]).0 by {
                if j == k && i < k - 1 {
                    assert(spans@[i].1 < spans@[k - 1].0);
                }
            }
        }
        k += 1;
    }
    true
}

/// Whether no span starts at the position 0 or at the position at which
/// one of the two spans before it ends.
pub open spec fn spans_movable(spans: Seq<(u32, u32)>) -> bool {
    &&& forall|i: int| 0 <= i < spans.len() ==> 1 <= (#[trigger] spans[i]).0
    &&& forall|i: int, j: int|
        0 <= i < j < spans.len() && j <= i + 2 ==> (#[trigger] spans[i]).1 != (
        #[trigger] spans[j]).0
}

/// A file of a map can be given another place exactly where the spans
/// of the map allow it.
pub proof fn lemma_spans_movable(files: Seq<FileEntry>)
    ensures
        spans_movable(spans_of(files)) == movable(files),
{
    let spans = spans_of(files);
    if movable(files) {
        assert forall|i: int| 0 <= i < spans.len() implies 1 <= (#[trigger] spans[i]).0 by {
            assert(1 <= files[i].0);
        }
        assert forall|i: int, j: int| 0 <= i < j < spans.len() && j <= i + 2 implies (
        #[trigger] spans[i]).1 != (#[trigger] spans[j]).0 by {
            assert(files[i].1 != files[j].0);
        }
    }
    if spans_movable(spans) {
        assert forall|i: int| 0 <= i < files.len() implies 1 <= (#[trigger] files[i]).0 by {
            assert(1 <= spans[i].0);
        }
        assert forall|i: int, j: int| 0 <= i < j < files.len() && j <= i + 2 implies (
        #[trigger] files[i]).1 != (#[trigger] files[j]).0 by {
            assert(spans[i].1 != spans[j].0);
        }
    }
}

/// Whether no span starts at the position 0 or at the position at which
/// one of the two spans before it ends.
pub fn spans_can_move(spans: &Vec<(u32, u32)>) -> (r: bool)
    ensures
        r == spans_movable(spans@),
{
    let mut k: usize = 0;
    while k < spans.len()
        invariant
            k <= spans@.len(),
            forall|i: int| 0 <= i < k ==> 1 <= (#[trigger] spans@[i]).0,
            forall|i: int, j: int|
                0 <= i < j < k && j <= i + 2 ==> (#[trigger] spans@[i]).1 != (
                #[trigger] spans@[j]).0,
        decreases spans.len() - k,
    {
        let start: u32 = spans[k].0;
        if start < 1 {
            assert(!(1 <= spans@[k as int].0));
            return false;
        }
        if k > 0 && spans[k - 1].1 == start {
            assert(spans@[k - 1].1 == spans@[k as int].0);
            return false;
        }
        if k > 1 && spans[k - 2].1 == start {
            assert(spans@[k - 2].1 == spans@[k as int].0);
            return false;
        }
        k += 1;
    }
    true
}

/// Where the spans are in order and apart, a file of the map can be
/// given another place.
pub proof fn lemma_spaced_is_movable(files: Seq<FileEntry>)
    requires
        spaced(files),
    ensures
        movable(files),
{
    assert forall|i: int, j: int| 0 <= i < j < files.len() && j <= i + 2 implies (
    #[trigger] files[i]).1 != (#[trigger] files[j]).0 by {
        assert(files[i].1 < files[j].0);
    }
}

/// In a map whose spans are in order and apart, a position lies in the
/// span of one file at most.
pub proof fn lemma_spaced_unique(files: Seq<FileEntry>, index: u32, i: int, j: int)
    requires
        spaced(files),
        0 <= i < files.len(),
        0 <= j < files.len(),
        in_span(files[i], index),
        in_span(files[j], index),
    ensures
        i == j,
{
    if i < j {
        assert(files[i].1 < files[j].0);
    } else if j < i {
        assert(files[j].1 < files[i].0);
    }
}

/// A file that is added behind the others, with room, keeps the spans
/// in order and apart.
pub proof fn lemma_push_keeps_spaced(files: Seq<FileEntry>, f: FileEntry)
    requires
        spaced(files),
        f.0 == next_start(files),
        f.0 <= f.1,
    ensures
        spaced(files.push(f)),
{
    let all = files.push(f);
    assert forall|i: int, j: int| 0 <= i < j < all.len() implies (#[trigger] all[i]).1 < (
    #[trigger] all[j]).0 by {
        if j == files.len() {
            if i < files.len() - 1 {
                assert(files[i].1 < files[files.len() - 1].0);
            }
        }
    }
}

} // verus!
