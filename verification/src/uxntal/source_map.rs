use vstd::prelude::*;
use super::location::{compose_error, context_text, editor_link_text, error_text, Location};
use crate::text::{decimal_text, push_decimal, push_str, text_eq};

verus! {

/// Identifies a source file registered in a [`SourceMap`].
#[derive(Debug, Copy, Clone, PartialEq, Eq, Hash, Structural)]
pub struct FileId(pub usize);

impl FileId {
    pub fn new(index: usize) -> (id: Self)
        ensures
            id.0 == index,
    {
        FileId(index)
    }

    pub fn index(self) -> (index: usize)
        ensures
            index == self.0,
    {
        self.0
    }

    /// The index in decimal.
    pub fn to_string(&self) -> (text: String)
        ensures
            text@ == decimal_text(self.0 as nat),
    {
        let mut text = String::new();
        push_decimal(&mut text, self.0);
        text
    }
}

impl Default for FileId {
    fn default() -> (id: Self)
        ensures
            id.0 == 0,
    {
        FileId(0)
    }
}

/// A source file: its identifier, path and text.
#[derive(Debug, Clone, PartialEq, Eq)]
pub struct SourceFile {
    pub id: FileId,
    pub path: String,
    pub source: String,
}

impl SourceFile {
    pub fn new(id: FileId, path: &str, source: &str) -> (file: Self)
        ensures
            file.id == id,
            file.path@ == path@,
            file.source@ == source@,
    {
        SourceFile { id, path: path.to_owned(), source: source.to_owned() }
    }

    pub fn id(&self) -> (id: FileId)
        ensures
            id == self.id,
    {
        self.id
    }

    pub fn path(&self) -> (path: &str)
        ensures
            path@ == self.path@,
    {
        self.path.as_str()
    }

    pub fn source(&self) -> (source: &str)
        ensures
            source@ == self.source@,
    {
        self.source.as_str()
    }
}

/// The files of a source map: each file's identifier is its position, and no path occurs twice.
pub open spec fn files_well_formed(files: Seq<SourceFile>) -> bool {
    &&& forall|i: int| 0 <= i < files.len() ==> (#[trigger] files[i]).id.0 == i
    &&& forall|i: int, j: int|
        0 <= i < files.len() && 0 <= j < files.len() && i != j ==> #[trigger] files[i].path@
            != #[trigger] files[j].path@
}

/// The position of the file registered under `path`, if any.
pub open spec fn file_with_path(files: Seq<SourceFile>, path: Seq<char>) -> Option<int> {
    if exists|i: int| 0 <= i < files.len() && (#[trigger] files[i]).path@ == path {
        Some(choose|i: int| 0 <= i < files.len() && (#[trigger] files[i]).path@ == path)
    } else {
        None
    }
}

/// The registry of the source files of one assembly run.
#[derive(Debug)]
pub struct SourceMap {
    files: Vec<SourceFile>,
}

impl View for SourceMap {
    type V = Seq<SourceFile>;

    closed spec fn view(&self) -> Seq<SourceFile> {
        self.files@
    }
}

impl SourceMap {
    #[verifier::type_invariant]
    closed spec fn inv(self) -> bool {
        files_well_formed(self.files@)
    }

    pub fn new() -> (map: Self)
        ensures
            map@ == Seq::<SourceFile>::empty(),
    {
        SourceMap { files: Vec::new() }
    }

    /// Registers a file and returns its identifier; a path registered before keeps its identifier
    /// and its first text.
    pub fn add_file(&mut self, path: &str, source: &str) -> (id: FileId)
        ensures
            files_well_formed(old(self)@),
            files_well_formed(final(self)@),
            match file_with_path(old(self)@, path@) {
                Some(i) => id.0 == i && final(self)@ == old(self)@,
                None => {
                    &&& id.0 == old(self)@.len()
                    &&& final(self)@ == old(self)@.push(SourceFile { id, path: final(self)@.last().path, source: final(self)@.last().source })
                    &&& final(self)@.last().path@ == path@
                    &&& final(self)@.last().source@ == source@
                },
            },
    {
        proof { use_type_invariant(&*self); }
        let mut index: usize = 0;
        while index < self.files.len()
            invariant
                index <= self.files@.len(),
                files_well_formed(self.files@),
                forall|i: int| 0 <= i < index ==> (#[trigger] self.files@[i]).path@ != path@,
            decreases self.files@.len() - index,
        {
            if text_eq(self.files[index].path.as_str(), path) {
                let id = self.files[index].id;
                proof {
                    let i = index as int;
                    assert(exists|k: int| 0 <= k < self.files@.len() && (#[trigger] self.files@[k]).path@ == path@);
                    let chosen = choose|k: int| 0 <= k < self.files@.len() && (#[trigger] self.files@[k]).path@ == path@;
                    assert(chosen == i);
                }
                return id;
            }
            index += 1;
        }
        let id = FileId(self.files.len());
        let file = SourceFile::new(id, path, source);
        let mut taken = SourceMap { files: Vec::new() };
        std::mem::swap(self, &mut taken);
        let SourceMap { mut files } = taken;
        files.push(file);
        *self = SourceMap { files };
        id
    }

    pub fn get_file(&self, id: FileId) -> (file: Option<&SourceFile>)
        ensures
            files_well_formed(self@),
            file == (if id.0 < self@.len() { Some(&self@[id.0 as int]) } else { None }),
    {
        proof { use_type_invariant(self); }
        if id.0 < self.files.len() {
            Some(&self.files[id.0])
        } else {
            None
        }
    }

    pub fn get_path(&self, id: FileId) -> (path: Option<&str>)
        ensures
            match path {
                Some(p) => id.0 < self@.len() && p@ == self@[id.0 as int].path@,
                None => id.0 >= self@.len(),
            },
    {
        match self.get_file(id) {
            Some(file) => Some(file.path()),
            None => None,
        }
    }

    pub fn get_source(&self, id: FileId) -> (source: Option<&str>)
        ensures
            match source {
                Some(s) => id.0 < self@.len() && s@ == self@[id.0 as int].source@,
                None => id.0 >= self@.len(),
            },
    {
        match self.get_file(id) {
            Some(file) => Some(file.source()),
            None => None,
        }
    }

    pub fn files(&self) -> (files: &[SourceFile])
        ensures
            files@ == self@,
            files_well_formed(self@),
    {
        proof { use_type_invariant(self); }
        self.files.as_slice()
    }
}

/// The path shown for a location whose file is not registered.
pub open spec fn unknown_path() -> Seq<char> {
    seq!['<', 'u', 'n', 'k', 'n', 'o', 'w', 'n', '>']
}

/// The path registered for `id`, or `<unknown>`.
pub open spec fn path_or_unknown(files: Seq<SourceFile>, id: FileId) -> Seq<char> {
    if id.0 < files.len() {
        files[id.0 as int].path@
    } else {
        unknown_path()
    }
}

/// The full report for an error at `location`, as `SourceMap::format_error` writes it.
pub open spec fn error_report_text(files: Seq<SourceFile>, location: Location, message: Seq<char>) -> Seq<char> {
    error_text(
        editor_link_text(location, path_or_unknown(files, location.file_id)),
        message,
        if location.file_id.0 < files.len() {
            context_text(files[location.file_id.0 as int].source@, location.line as nat, location.column as nat, 2)
        } else {
            Seq::<char>::empty()
        },
    )
}

impl SourceMap {
    fn path_or_unknown(&self, id: FileId) -> (path: &str)
        ensures
            path@ == path_or_unknown(self@, id),
    {
        match self.get_path(id) {
            Some(path) => path,
            None => {
                let unknown = "<unknown>";
                proof {
                    reveal_strlit("<unknown>");
                }
                assert(unknown@ =~= unknown_path());
                unknown
            },
        }
    }

    /// The editor link for `location`, with the path registered for its file.
    pub fn editor_link(&self, location: Location) -> (link: String)
        ensures
            link@ == editor_link_text(location, path_or_unknown(self@, location.file_id)),
    {
        let path = self.path_or_unknown(location.file_id);
        location.editor_link(path)
    }

    /// The source context around `location`, or nothing when its file is not registered.
    pub fn format_context(&self, location: Location, context_line_count: usize) -> (context: String)
        ensures
            context@ == (if location.file_id.0 < self@.len() {
                context_text(
                    self@[location.file_id.0 as int].source@,
                    location.line as nat,
                    location.column as nat,
                    context_line_count as nat,
                )
            } else {
                Seq::<char>::empty()
            }),
    {
        match self.get_source(location.file_id) {
            Some(source) => location.format_context(source, context_line_count),
            None => String::new(),
        }
    }

    /// A full error report for `location`, with its file's path and source when registered.
    pub fn format_error(&self, location: Location, error_message: &str) -> (report: String)
        ensures
            report@ == error_report_text(self@, location, error_message@),
    {
        let path = self.path_or_unknown(location.file_id);
        match self.get_source(location.file_id) {
            Some(source) => location.format_error(path, source, error_message),
            None => {
                let link = location.editor_link(path);
                let no_context = "";
                proof {
                    reveal_strlit("");
                }
                assert(no_context@ =~= Seq::<char>::empty());
                compose_error(link.as_str(), error_message, no_context)
            },
        }
    }
}

impl Default for SourceMap {
    fn default() -> (map: Self)
        ensures
            map@ == Seq::<SourceFile>::empty(),
    {
        SourceMap::new()
    }
}

/// A file registered under a new path is found under that path at the position it was given,
/// so registering the same path again gives the same id.
pub proof fn lemma_registered_path(files: Seq<SourceFile>, file: SourceFile)
    requires
        files_well_formed(files),
        file_with_path(files, file.path@) is None,
        file.id.0 == files.len(),
    ensures
        files_well_formed(files.push(file)),
        file_with_path(files.push(file), file.path@) == Some(files.len() as int),
{
    let pushed = files.push(file);
    assert(pushed[files.len() as int] == file);
    assert forall|i: int| 0 <= i < pushed.len() && (#[trigger] pushed[i]).path@ == file.path@ implies i == files.len() by {
        if i < files.len() {
            assert(pushed[i] == files[i]);
        }
    }
}

/// A registered file as plain values: its path and its text.
pub type FileView = (Seq<char>, Seq<char>);

pub open spec fn files_view(files: Seq<SourceFile>) -> Seq<FileView> {
    files.map_values(|file: SourceFile| (file.path@, file.source@))
}

/// The position of the file registered under `path`, if any.
pub open spec fn path_position(files: Seq<FileView>, path: Seq<char>) -> Option<int> {
    if exists|i: int| 0 <= i < files.len() && (#[trigger] files[i]).0 == path {
        Some(choose|i: int| 0 <= i < files.len() && (#[trigger] files[i]).0 == path)
    } else {
        None
    }
}

/// The identifier `path` has once registered: that of its file, or the next one.
pub open spec fn id_for(files: Seq<FileView>, path: Seq<char>) -> FileId {
    match path_position(files, path) {
        Some(i) => FileId(i as usize),
        None => FileId(files.len() as usize),
    }
}

/// The files after `path` is registered with `source`: unchanged if it was registered before.
pub open spec fn registered(files: Seq<FileView>, path: Seq<char>, source: Seq<char>) -> Seq<FileView> {
    match path_position(files, path) {
        Some(_) => files,
        None => files.push((path, source)),
    }
}

/// Registration seen on the files and on their plain values agrees.
pub proof fn lemma_files_view(files: Seq<SourceFile>, path: Seq<char>)
    requires
        files_well_formed(files),
    ensures
        (file_with_path(files, path) is Some) == (path_position(files_view(files), path) is Some),
        file_with_path(files, path) matches Some(i) ==> path_position(files_view(files), path) == Some(i),
{
    let view = files_view(files);
    if exists|i: int| 0 <= i < files.len() && (#[trigger] files[i]).path@ == path {
        let i = choose|i: int| 0 <= i < files.len() && (#[trigger] files[i]).path@ == path;
        assert(view[i].0 == path);
        let j = choose|j: int| 0 <= j < view.len() && (#[trigger] view[j]).0 == path;
        assert(files[j].path@ == view[j].0);
        assert(i == j);
    } else {
        assert forall|j: int| 0 <= j < view.len() implies (#[trigger] view[j]).0 != path by {
            assert(view[j].0 == files[j].path@);
        }
    }
}

} // verus!
