//! The store of module text: the source that was given inline for a
//! module, which stands in front of what the importer would find for
//! it, and the names of the globals that the host has set.

use vstd::prelude::*;
use vstd::hash_map::StringHashMap;
use vstd::string::*;
use crate::base::strings::{lemma_replace_by_one_char, replace, replace_char, str_eq};
use crate::ir::dead_code::SymbolSet;
use crate::query::filemap::{
    byte_len, code_map_add, code_map_clone, code_map_files, code_map_find, code_map_new,
    code_map_spans, code_map_update, in_span, lemma_push_keeps_spaced, lemma_spaced_unique,
    movable, next_start, spaced, spans_can_move, spans_in_order, FileEntry, FileMap,
};

verus! {

/// What a call of `add_module` did to the text of the module.
#[derive(Clone, Copy, Debug, PartialEq, Eq, Structural)]
pub enum TextChange {
    /// The module had this text already. Nothing was done, and nothing
    /// that was computed from the text is out of date.
    Unchanged,
    /// The module had no inline text before: the text that the importer
    /// found for it, if the text query holds one, is out of date.
    Added,
    /// The module had another inline text before: what the text query
    /// holds for the module is out of date.
    Replaced,
}

impl TextChange {
    /// Whether the text of the module is another than before, so that
    /// what the text query holds for the module must be invalidated.
    pub open spec fn differs(self) -> bool {
        self != TextChange::Unchanged
    }

    /// Whether what the text query holds for the module must be
    /// invalidated: after each update but one with the text that the
    /// module has already.
    pub fn invalidates(self) -> (r: bool)
        ensures
            r == self.differs(),
            r == (self == TextChange::Added || self == TextChange::Replaced),
    {
        match self {
            TextChange::Unchanged => false,
            TextChange::Added => true,
            TextChange::Replaced => true,
        }
    }
}

/// Where the text of a module comes from.
#[derive(Clone, Debug, PartialEq, Eq)]
pub enum TextSource {
    /// The text that was given inline for the module.
    Inline(String),
    /// The importer is to read the file of this name.
    File(String),
}

/// The inline texts after `add_module(module, contents)`, and what the
/// call did.
pub open spec fn text_update(
    inline: Map<Seq<char>, Seq<char>>,
    module: Seq<char>,
    contents: Seq<char>,
) -> (Map<Seq<char>, Seq<char>>, TextChange) {
    if inline.contains_key(module) {
        if inline[module] == contents {
            (inline, TextChange::Unchanged)
        } else {
            (inline.insert(module, contents), TextChange::Replaced)
        }
    } else {
        (inline.insert(module, contents), TextChange::Added)
    }
}

/// A second update of a module with the text that it has invalidates
/// nothing: it changes no text and reports `Unchanged`, whatever the
/// store held before the first update.
pub proof fn lemma_text_update_idempotent(
    inline: Map<Seq<char>, Seq<char>>,
    module: Seq<char>,
    contents: Seq<char>,
)
    ensures
        text_update(text_update(inline, module, contents).0, module, contents) == (
            text_update(inline, module, contents).0,
            TextChange::Unchanged,
        ),
        !text_update(text_update(inline, module, contents).0, module, contents).1.differs(),
{
}

/// The name of the file that holds the source of a module: the name of
/// the module with a slash for each dot, and the extension `glu`.
pub open spec fn filename_of(module: Seq<char>) -> Seq<char> {
    replace_char(module, '.', '/') + ".glu"@
}

/// The name of the file that holds the source of a module.
pub fn module_filename(module: &str) -> (r: String)
    ensures
        r@ == filename_of(module@),
{
    proof {
        reveal_strlit("/");
        assert("/"@ =~= seq!['/']);
        lemma_replace_by_one_char(module@, '.', '/');
    }
    let mut filename = replace(module, '.', "/");
    filename.append(".glu");
    filename
}

/// Where the text of `module` comes from, given the inline texts.
pub open spec fn text_source(inline: Map<Seq<char>, Seq<char>>, module: Seq<char>) -> TextSourceView {
    if inline.contains_key(module) {
        TextSourceView::Inline(inline[module])
    } else {
        TextSourceView::File(filename_of(module))
    }
}

pub ghost enum TextSourceView {
    Inline(Seq<char>),
    File(Seq<char>),
}

impl View for TextSource {
    type V = TextSourceView;

    open spec fn view(&self) -> TextSourceView {
        match self {
            TextSource::Inline(s) => TextSourceView::Inline(s@),
            TextSource::File(s) => TextSourceView::File(s@),
        }
    }
}

/// The texts of the modules: the code map that holds a file for each
/// text, the position at which the file of each module starts, the
/// inline texts, and the names of the globals that the host has set.
pub struct State {
    pub code_map: codespan::CodeMap<String>,
    pub inline_modules: StringHashMap<String>,
    pub index_map: StringHashMap<u32>,
    pub extern_globals: SymbolSet,
}

impl State {
    /// The inline text of each module that has one.
    pub open spec fn inline_texts(&self) -> Map<Seq<char>, Seq<char>> {
        Map::new(
            |m: Seq<char>| self.inline_modules@.contains_key(m),
            |m: Seq<char>| self.inline_modules@[m]@,
        )
    }

    /// The files of the code map.
    pub open spec fn files(&self) -> Seq<FileEntry> {
        code_map_files(self.code_map)
    }

    /// The position at which the file of each module starts.
    pub open spec fn indices(&self) -> Map<Seq<char>, u32> {
        self.index_map@
    }

    /// Whether the code map is in order: the spans of its files are in
    /// order and apart, and the position that is recorded for a module
    /// is the start of a file.
    pub open spec fn wf(&self) -> bool {
        &&& spaced(self.files())
        &&& forall|name: Seq<char>| #[trigger]
            self.indices().contains_key(name) ==> exists|i: int|
                0 <= i < self.files().len() && (#[trigger] self.files()[i]).0
                    == self.indices()[name]
    }

    /// Whether a file of the code map holds the position that is
    /// recorded for the module `file` in its span.
    pub open spec fn has_file(&self, file: Seq<char>) -> bool {
        self.indices().contains_key(file) && exists|i: int|
            0 <= i < self.files().len() && in_span(#[trigger] self.files()[i], self.indices()[file])
    }

    /// Whether a file with the source `source` holds the position that
    /// is recorded for the module `file` in its span.
    pub open spec fn has_source(&self, file: Seq<char>, source: Seq<char>) -> bool {
        self.indices().contains_key(file) && exists|i: int|
            0 <= i < self.files().len() && in_span(
                #[trigger] self.files()[i],
                self.indices()[file],
            ) && self.files()[i].3 == source
    }

    /// Whether `new` is `self` with one file more, at the end of the
    /// code map, that has the name `file` and the source `source` and
    /// whose start is recorded for the module `file`.
    pub open spec fn with_file(&self, new: State, file: Seq<char>, source: Seq<char>) -> bool {
        &&& new.files().len() == self.files().len() + 1
        &&& new.files().drop_last() == self.files()
        &&& new.files().last().2 == file
        &&& new.files().last().3 == source
        &&& new.indices() == self.indices().insert(file, new.files().last().0)
    }

    /// What giving the module `file` a file with the source `source`
    /// does to the code map, from `self` to `new`. In a code map that is
    /// in order, nothing changes exactly where the module has a file
    /// with that source, and else the file is added. In any code map one
    /// of the two happens, and nothing changes only where a file with
    /// that source is there.
    pub open spec fn filed(&self, new: State, file: Seq<char>, source: Seq<char>) -> bool {
        &&& new.code_map == self.code_map && new.index_map == self.index_map || self.with_file(
            new,
            file,
            source,
        )
        &&& new.files() == self.files() ==> self.has_source(file, source)
        &&& spaced(self.files()) && self.has_source(file, source) ==> new.code_map == self.code_map
            && new.index_map == self.index_map
        &&& spaced(self.files()) && !self.has_source(file, source) ==> self.with_file(
            new,
            file,
            source,
        )
    }

    /// What giving the file of the module `file` the source `source`
    /// does, from `self` to `new`, with the result `r`: the new file has
    /// taken the place of a file that held the position of the module,
    /// and its start is recorded; or nothing changes, which in a code
    /// map that is in order is so only where the module has no file.
    pub open spec fn updated(
        &self,
        new: State,
        file: Seq<char>,
        source: Seq<char>,
        r: Option<FileMap>,
    ) -> bool {
        match r {
            Some(f) => self.indices().contains_key(file) && f.src@ == source && new.indices()
                == self.indices().insert(file, f.start) && exists|i: int|
                0 <= i < self.files().len() && in_span(
                    #[trigger] self.files()[i],
                    self.indices()[file],
                ) && f.name@ == self.files()[i].2 && new.files().to_multiset()
                    == self.files().to_multiset().remove(self.files()[i]).insert(f@),
            None => new.files() == self.files() && new.indices() == self.indices() && (spaced(
                self.files(),
            ) ==> !self.has_file(file)),
        }
    }

    pub fn new() -> (r: State)
        ensures
            r.inline_texts() == Map::<Seq<char>, Seq<char>>::empty(),
            r.extern_globals@ == Set::<Seq<char>>::empty(),
            r.files() == Seq::<FileEntry>::empty(),
            r.indices() == Map::<Seq<char>, u32>::empty(),
            r.wf(),
    {
        let r = State {
            code_map: code_map_new(),
            inline_modules: StringHashMap::new(),
            index_map: StringHashMap::new(),
            extern_globals: SymbolSet::new(),
        };
        assert(r.inline_texts() =~= Map::<Seq<char>, Seq<char>>::empty());
        r
    }

    /// A copy of the code map.
    pub fn code_map(&self) -> (r: codespan::CodeMap<String>)
        ensures
            code_map_files(r) == self.files(),
    {
        code_map_clone(&self.code_map)
    }

    /// The file of the module `file`: the file of the code map whose
    /// span holds the position that is recorded for the module. In a
    /// code map that is in order, that is the file that starts there.
    pub fn get_filemap(&self, file: &str) -> (r: Option<FileMap>)
        ensures
            match r {
                Some(f) => self.indices().contains_key(file@) && self.files().contains(f@)
                    && in_span(f@, self.indices()[file@]),
                None => !self.indices().contains_key(file@) || (spaced(self.files())
                    ==> forall|i: int|
                    0 <= i < self.files().len() ==> !in_span(
                        #[trigger] self.files()[i],
                        self.indices()[file@],
                    )),
            },
            self.wf() ==> (r is Some <==> self.indices().contains_key(file@)),
            self.wf() ==> (r matches Some(f) ==> f.start == self.indices()[file@]),
    {
        match self.index_map.get(file) {
            Some(index) => {
                let r = code_map_find(&self.code_map, *index);
                proof {
                    if self.wf() {
                        let i = choose|i: int|
                            0 <= i < self.files().len() && (#[trigger] self.files()[i]).0
                                == self.indices()[file@];
                        assert(in_span(self.files()[i], *index));
                        if r is Some {
                            let entry = r->Some_0@;
                            let j = choose|j: int|
                                0 <= j < self.files().len() && self.files()[j] == entry;
                            lemma_spaced_unique(self.files(), *index, i, j);
                        }
                    }
                }
                r
            },
            None => None,
        }
    }

    /// Whether the spans of the files of the code map are in order and
    /// apart. Where they are, a file of the code map can be given
    /// another place.
    pub fn files_in_order(&self) -> (r: bool)
        ensures
            r == spaced(self.files()),
            r ==> movable(self.files()),
    {
        let spans = code_map_spans(&self.code_map);
        proof {
            assert(spans@ =~= crate::query::filemap::spans_of(self.files()));
            crate::query::filemap::lemma_spans_spaced(self.files());
            if spaced(self.files()) {
                crate::query::filemap::lemma_spaced_is_movable(self.files());
            }
        }
        spans_in_order(&spans)
    }

    /// Whether a file of the code map can be given another place: no
    /// file starts at the position 0 or at the position at which one of
    /// the two files before it ends.
    pub fn files_movable(&self) -> (r: bool)
        ensures
            r == movable(self.files()),
    {
        let spans = code_map_spans(&self.code_map);
        proof {
            assert(spans@ =~= crate::query::filemap::spans_of(self.files()));
            crate::query::filemap::lemma_spans_movable(self.files());
        }
        spans_can_move(&spans)
    }

    /// Gives the module `file` a file with the source `source`. Where
    /// the module has a file with that source, that file is the result
    /// and nothing changes. Else a file is added at the end of the code
    /// map, and its start is recorded for the module.
    pub fn add_filemap(&mut self, file: &str, source: &str) -> (r: FileMap)
        ensures
            r.src@ == source@,
            final(self).inline_modules == old(self).inline_modules,
            final(self).extern_globals == old(self).extern_globals,
            old(self).filed(*final(self), file@, source@),
            final(self).files() == old(self).files() ==> old(self).files().contains(r@) && in_span(
                r@,
                old(self).indices()[file@],
            ),
            final(self).files() != old(self).files() ==> final(self).files().last() == r@,
            old(self).wf() && next_start(old(self).files()) + byte_len(source@) <= u32::MAX
                ==> final(self).wf(),
    {
        match self.get_filemap(file) {
            Some(f) => {
                if str_eq(f.src.as_str(), source) {
                    proof {
                        let i = choose|i: int|
                            0 <= i < self.files().len() && self.files()[i] == f@;
                        assert(in_span(self.files()[i], self.indices()[file@]));
                        assert(self.has_source(file@, source@));
                    }
                    return f;
                }
                proof {
                    if spaced(self.files()) && self.has_source(file@, source@) {
                        let i = choose|i: int|
                            0 <= i < self.files().len() && in_span(
                                #[trigger] self.files()[i],
                                self.indices()[file@],
                            ) && self.files()[i].3 == source@;
                        let j = choose|j: int|
                            0 <= j < self.files().len() && self.files()[j] == f@;
                        lemma_spaced_unique(self.files(), self.indices()[file@], i, j);
                    }
                }
            },
            None => {},
        }
        let f = code_map_add(&mut self.code_map, file.to_owned(), source.to_owned());
        self.index_map.insert(file.to_owned(), f.start);
        proof {
            assert(self.files().drop_last() =~= old(self).files());
            assert(self.files().last() == f@);
            assert(self.files().len() != old(self).files().len());
            if old(self).wf() && next_start(old(self).files()) + byte_len(source@) <= u32::MAX {
                lemma_push_keeps_spaced(old(self).files(), f@);
                assert forall|name: Seq<char>| #[trigger]
                    self.indices().contains_key(name) implies exists|i: int|
                    0 <= i < self.files().len() && (#[trigger] self.files()[i]).0
                        == self.indices()[name] by {
                    if name == file@ {
                        assert(self.files()[self.files().len() - 1] == f@);
                    } else {
                        let i = choose|i: int|
                            0 <= i < old(self).files().len() && (#[trigger] old(self).files()[i]).0
                                == old(self).indices()[name];
                        assert(self.files()[i] == old(self).files()[i]);
                    }
                }
            }
        }
        f
    }

    /// Gives the file of the module `file` the source `source`. The
    /// result is the new file, or nothing where none is found for the
    /// module. The new file has taken the place of the old one in the
    /// code map, and its start is recorded for the module. The files of
    /// the code map must be such that one of them can be given another
    /// place, which they are where they are in order.
    pub fn update_filemap(&mut self, file: &str, source: &str) -> (r: Option<FileMap>)
        requires
            movable(old(self).files()),
        ensures
            final(self).inline_modules == old(self).inline_modules,
            final(self).extern_globals == old(self).extern_globals,
            old(self).updated(*final(self), file@, source@, r),
    {
        let index = match self.index_map.get(file) {
            Some(index) => *index,
            None => {
                return None;
            },
        };
        match code_map_update(&mut self.code_map, index, source.to_owned()) {
            Some(f) => {
                self.index_map.insert(file.to_owned(), f.start);
                Some(f)
            },
            None => None,
        }
    }

    /// `update_filemap` for a code map of which it is not known whether
    /// a file of it can be given another place: where none can, nothing
    /// is done and the result is `None`.
    pub fn try_update_filemap(&mut self, file: &str, source: &str) -> (r: Option<Option<FileMap>>)
        ensures
            final(self).inline_modules == old(self).inline_modules,
            final(self).extern_globals == old(self).extern_globals,
            match r {
                Some(updated) => movable(old(self).files()) && old(self).updated(
                    *final(self),
                    file@,
                    source@,
                    updated,
                ),
                None => !movable(old(self).files()) && *final(self) == *old(self),
            },
    {
        if self.files_movable() {
            Some(self.update_filemap(file, source))
        } else {
            None
        }
    }

    /// The file of the module `file`, which is added with the source
    /// `source` where no position is recorded for the module. A module
    /// for which a position is recorded must have a file, in a code map
    /// that is in order.
    pub fn get_or_insert_filemap(&mut self, file: &str, source: &str) -> (r: FileMap)
        requires
            old(self).indices().contains_key(file@) ==> spaced(old(self).files()) && old(self).has_file(file@),
        ensures
            final(self).inline_modules == old(self).inline_modules,
            final(self).extern_globals == old(self).extern_globals,
            old(self).indices().contains_key(file@) ==> *final(self) == *old(self) && in_span(
                r@,
                old(self).indices()[file@],
            ) && old(self).files().contains(r@),
            !old(self).indices().contains_key(file@) ==> r.name@ == file@ && r.src@ == source@
                && final(self).files() == old(self).files().push(r@) && final(self).indices()
                == old(self).indices().insert(file@, r.start),
    {
        match self.get_filemap(file) {
            Some(f) => f,
            None => {
                let f = code_map_add(&mut self.code_map, file.to_owned(), source.to_owned());
                self.index_map.insert(file.to_owned(), f.start);
                f
            },
        }
    }

    /// `get_or_insert_filemap` for a store of which it is not known
    /// whether it meets what that function asks for. The result is
    /// `None`, and nothing is done, only where a position is recorded
    /// for the module and the search of the code map finds no file for
    /// it; in a code map that is in order that is where no file holds
    /// the position.
    pub fn try_get_or_insert_filemap(&mut self, file: &str, source: &str) -> (r: Option<FileMap>)
        ensures
            final(self).inline_modules == old(self).inline_modules,
            final(self).extern_globals == old(self).extern_globals,
            !old(self).indices().contains_key(file@) ==> r is Some,
            spaced(old(self).files()) ==> (r is Some <==> (old(self).indices().contains_key(file@)
                ==> old(self).has_file(file@))),
            r is None ==> *final(self) == *old(self),
            r matches Some(f) ==> {
                &&& old(self).indices().contains_key(file@) ==> *final(self) == *old(self)
                    && in_span(f@, old(self).indices()[file@]) && old(self).files().contains(f@)
                &&& !old(self).indices().contains_key(file@) ==> f.name@ == file@ && f.src@
                    == source@ && final(self).files() == old(self).files().push(f@) && final(self).indices() == old(self).indices().insert(file@, f.start)
            },
    {
        if self.index_map.contains_key(file) {
            match self.get_filemap(file) {
                Some(f) => {
                    proof {
                        let i = choose|i: int|
                            0 <= i < self.files().len() && self.files()[i] == f@;
                        assert(in_span(self.files()[i], self.indices()[file@]));
                    }
                    Some(f)
                },
                None => None,
            }
        } else {
            Some(self.get_or_insert_filemap(file, source))
        }
    }

    /// Gives the module `module` the inline text `contents`. Where the
    /// module has that text already, nothing changes. Else the module
    /// is also given a file with the text in the code map.
    pub fn add_module(&mut self, module: String, contents: &str) -> (r: TextChange)
        ensures
            (final(self).inline_texts(), r) == text_update(
                old(self).inline_texts(),
                module@,
                contents@,
            ),
            r == TextChange::Unchanged ==> *final(self) == *old(self),
            r != TextChange::Unchanged ==> old(self).filed(*final(self), module@, contents@),
            final(self).extern_globals == old(self).extern_globals,
            old(self).wf() && next_start(old(self).files()) + byte_len(contents@) <= u32::MAX
                ==> final(self).wf(),
    {
        let change = match self.inline_modules.get(module.as_str()) {
            Some(text) => {
                if crate::base::strings::str_eq(text.as_str(), contents) {
                    TextChange::Unchanged
                } else {
                    TextChange::Replaced
                }
            },
            None => TextChange::Added,
        };
        match change {
            TextChange::Unchanged => {
                assert(self.inline_texts() =~= text_update(
                    old(self).inline_texts(),
                    module@,
                    contents@,
                ).0);
            },
            _ => {
                let name = module.clone();
                self.inline_modules.insert(module, contents.to_owned());
                assert(self.inline_texts() =~= text_update(
                    old(self).inline_texts(),
                    name@,
                    contents@,
                ).0);
                assert(self.files() == old(self).files());
                assert(self.indices() == old(self).indices());
                assert(old(self).wf() ==> self.wf());
                let ghost texts = self.inline_texts();
                let ghost before = *self;
                self.add_filemap(name.as_str(), contents);
                assert(self.inline_texts() == texts);
                assert(before.files() == old(self).files());
                assert(before.indices() == old(self).indices());
            },
        }
        change
    }

    /// Takes the inline text of `module` away, so that its text is the
    /// one that the importer finds. The result says whether the module
    /// had an inline text.
    pub fn remove_module(&mut self, module: &str) -> (r: bool)
        ensures
            r == old(self).inline_texts().contains_key(module@),
            final(self).inline_texts() == old(self).inline_texts().remove(module@),
            final(self).extern_globals == old(self).extern_globals,
            final(self).code_map == old(self).code_map,
            final(self).index_map == old(self).index_map,
    {
        let had = self.inline_modules.contains_key(module);
        self.inline_modules.remove(module);
        assert(self.inline_texts() =~= old(self).inline_texts().remove(module@));
        had
    }

    /// The inline text of `module`, if it has one.
    pub fn inline_text(&self, module: &str) -> (r: Option<String>)
        ensures
            match r {
                Some(s) => self.inline_texts().contains_key(module@) && s@
                    == self.inline_texts()[module@],
                None => !self.inline_texts().contains_key(module@),
            },
    {
        match self.inline_modules.get(module) {
            Some(s) => Some(s.clone()),
            None => None,
        }
    }

    /// Where the text of `module` comes from: its inline text where it
    /// has one, else the file that the importer is to read.
    pub fn module_text(&self, module: &str) -> (r: TextSource)
        ensures
            r@ == text_source(self.inline_texts(), module@),
    {
        match self.inline_text(module) {
            Some(text) => TextSource::Inline(text),
            None => TextSource::File(module_filename(module)),
        }
    }

    /// Records that the host has set the global `name`.
    pub fn add_extern_global(&mut self, name: &str)
        ensures
            final(self).extern_globals@ == old(self).extern_globals@.insert(name@),
            final(self).inline_modules == old(self).inline_modules,
            final(self).code_map == old(self).code_map,
            final(self).index_map == old(self).index_map,
    {
        self.extern_globals.insert(name.to_owned());
    }

    /// Whether the host has set the global `name`.
    pub fn is_extern_global(&self, name: &str) -> (r: bool)
        ensures
            r == self.extern_globals@.contains(name@),
    {
        self.extern_globals.contains(name)
    }
}

} // verus!
