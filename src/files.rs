use vstd::prelude::*;

use crate::diagnostics::{plain, Diagnostic, DiagnosticKind, DiagnosticView, Diagnostics, Error, KindView, Lint};

verus! {

/// A path as the user gave it, with its canonical form, which identifies the file.
#[derive(Debug)]
pub struct FilePath {
    pub path: String,
    pub canonicalized_path: String,
}

/// One compilation unit to read.
#[derive(Debug)]
pub struct ResolvedFile {
    pub path: String,
    pub canonicalized_path: String,
    pub is_source: bool,
}

/// What a path names on disk.
#[derive(Clone, Copy, Debug, PartialEq, Eq, Structural)]
pub enum PathKind {
    Missing,
    File,
    Directory,
    Other,
}

/// What a merged file says: its path, its canonical path, and whether it is a source.
pub struct FileView {
    pub path: Seq<char>,
    pub canonical: Seq<char>,
    pub is_source: bool,
}

impl View for ResolvedFile {
    type V = FileView;

    open spec fn view(&self) -> FileView {
        FileView { path: self.path@, canonical: self.canonicalized_path@, is_source: self.is_source }
    }
}

pub open spec fn files_view(v: Seq<ResolvedFile>) -> Seq<FileView> {
    v.map_values(|f: ResolvedFile| f@)
}

/// `k` is the first entry of `out` for the canonical path `c`.
pub open spec fn first_at(out: Seq<FileView>, c: Seq<char>, k: int) -> bool {
    0 <= k < out.len() && out[k].canonical == c && forall|j: int| 0 <= j < k ==> (#[trigger] out[j]).canonical != c
}

pub open spec fn has_file(out: Seq<FileView>, c: Seq<char>) -> bool {
    exists|k: int| first_at(out, c, k)
}

/// `out` after adding `f`: an entry already there for its file becomes a source if `f` is one;
/// otherwise a new entry is appended.
pub open spec fn add_step(out: Seq<FileView>, f: FilePath, is_source: bool) -> Seq<FileView> {
    if has_file(out, f.canonicalized_path@) {
        let k = choose|k: int| first_at(out, f.canonicalized_path@, k);
        out.update(k, FileView { is_source: out[k].is_source || is_source, ..out[k] })
    } else {
        out.push(FileView { path: f.path@, canonical: f.canonicalized_path@, is_source })
    }
}

/// The lint that adding `f` to `out` reports: a reference whose file is there already, or a
/// source whose file is there already as a source.
pub open spec fn add_lint(out: Seq<FileView>, f: FilePath, is_source: bool) -> Seq<DiagnosticView> {
    if has_file(out, f.canonicalized_path@) && (!is_source || out[choose|k: int| first_at(out, f.canonicalized_path@, k)].is_source) {
        seq![plain(KindView::DuplicateFile { path: f.path@ }, false)]
    } else {
        Seq::empty()
    }
}

/// Adds every path of `s` to `out`, in order.
pub open spec fn add_all(out: Seq<FileView>, s: Seq<FilePath>, is_source: bool) -> Seq<FileView>
    decreases s.len(),
{
    if s.len() == 0 {
        out
    } else {
        add_step(add_all(out, s.drop_last(), is_source), s.last(), is_source)
    }
}

pub open spec fn add_all_lints(out: Seq<FileView>, s: Seq<FilePath>, is_source: bool) -> Seq<DiagnosticView>
    decreases s.len(),
{
    if s.len() == 0 {
        Seq::empty()
    } else {
        add_all_lints(out, s.drop_last(), is_source) + add_lint(add_all(out, s.drop_last(), is_source), s.last(), is_source)
    }
}

/// The merged files: the references, then the sources.
pub open spec fn merged_files(references: Seq<FilePath>, sources: Seq<FilePath>) -> Seq<FileView> {
    add_all(add_all(Seq::empty(), references, false), sources, true)
}

pub open spec fn merge_lints(references: Seq<FilePath>, sources: Seq<FilePath>) -> Seq<DiagnosticView> {
    add_all_lints(Seq::empty(), references, false) + add_all_lints(
        add_all(Seq::empty(), references, false),
        sources,
        true,
    )
}

fn find_file(out: &Vec<ResolvedFile>, c: &String) -> (r: Option<usize>)
    ensures
        r matches Some(i) ==> first_at(files_view(out@), c@, i as int),
        r is None ==> !has_file(files_view(out@), c@),
{
    let ghost v = files_view(out@);
    let mut i: usize = 0;
    while i < out.len()
        invariant
            v == files_view(out@),
            i <= out@.len(),
            forall|k: int| 0 <= k < i ==> (#[trigger] v[k]).canonical != c@,
        decreases out@.len() - i,
    {
        if out[i].canonicalized_path == *c {
            assert(first_at(v, c@, i as int));
            return Some(i);
        }
        i = i + 1;
    }
    assert forall|k: int| !first_at(v, c@, k) by {
        if 0 <= k < v.len() {
            assert(v[k].canonical != c@);
        }
    }
    None
}

proof fn lemma_first_unique(out: Seq<FileView>, c: Seq<char>, k: int)
    requires
        first_at(out, c, k),
    ensures
        (choose|j: int| first_at(out, c, j)) == k,
{
    let j = choose|j: int| first_at(out, c, j);
    if j < k {
        assert(out[j].canonical != c);
    } else if j > k {
        assert(out[k].canonical != c);
    }
}

/// Adds the file of `f` to `out`.
fn add_file(out: &mut Vec<ResolvedFile>, f: &FilePath, is_source: bool, diagnostics: &mut Diagnostics)
    ensures
        files_view(final(out)@) == add_step(files_view(old(out)@), *f, is_source),
        final(diagnostics)@ == old(diagnostics)@ + add_lint(files_view(old(out)@), *f, is_source),
{
    let ghost v = files_view(out@);
    match find_file(out, &f.canonicalized_path) {
        Some(k) => {
            proof {
                lemma_first_unique(v, f.canonicalized_path@, k as int);
            }
            let was = out[k].is_source;
            if !is_source || was {
                Diagnostic::new(DiagnosticKind::Lint(Lint::DuplicateFile { path: f.path.clone() })).push_into(diagnostics);
            }
            let entry = ResolvedFile {
                path: out[k].path.clone(),
                canonicalized_path: out[k].canonicalized_path.clone(),
                is_source: was || is_source,
            };
            out.set(k, entry);
            assert(files_view(out@) =~= add_step(v, *f, is_source));
            assert(diagnostics@ =~= old(diagnostics)@ + add_lint(v, *f, is_source));
        },
        None => {
            out.push(ResolvedFile { path: f.path.clone(), canonicalized_path: f.canonicalized_path.clone(), is_source });
            assert(files_view(out@) =~= add_step(v, *f, is_source));
            assert(diagnostics@ =~= old(diagnostics)@ + add_lint(v, *f, is_source));
        },
    }
}

/// Adds every path of `s`, in order.
fn add_files(out: &mut Vec<ResolvedFile>, s: &Vec<FilePath>, is_source: bool, diagnostics: &mut Diagnostics)
    ensures
        files_view(final(out)@) == add_all(files_view(old(out)@), s@, is_source),
        final(diagnostics)@ == old(diagnostics)@ + add_all_lints(files_view(old(out)@), s@, is_source),
{
    let ghost v0 = files_view(out@);
    let ghost d0 = diagnostics@;
    let mut i: usize = 0;
    while i < s.len()
        invariant
            i <= s@.len(),
            files_view(out@) == add_all(v0, s@.take(i as int), is_source),
            diagnostics@ == d0 + add_all_lints(v0, s@.take(i as int), is_source),
        decreases s@.len() - i,
    {
        assert(s@.take(i + 1).drop_last() =~= s@.take(i as int));
        assert(s@.take(i + 1).last() == s@[i as int]);
        add_file(out, &s[i], is_source, diagnostics);
        assert(diagnostics@ =~= d0 + add_all_lints(v0, s@.take(i + 1), is_source));
        i = i + 1;
    }
    assert(s@.take(i as int) =~= s@);
}

/// Merges the reference and source files: a file given twice is kept once, under the first path
/// that named it, and a file given both as a reference and as a source is a source. Each
/// reference whose file was already given, and each source whose file was already given as a
/// source, gets a `DuplicateFile` lint.
pub fn merge_files(references: &Vec<FilePath>, sources: &Vec<FilePath>, diagnostics: &mut Diagnostics) -> (r: Vec<
    ResolvedFile,
>)
    ensures
        files_view(r@) == merged_files(references@, sources@),
        final(diagnostics)@ == old(diagnostics)@ + merge_lints(references@, sources@),
{
    let mut out: Vec<ResolvedFile> = Vec::new();
    assert(files_view(out@) =~= Seq::<FileView>::empty());
    add_files(&mut out, references, false, diagnostics);
    add_files(&mut out, sources, true, diagnostics);
    assert(diagnostics@ =~= old(diagnostics)@ + merge_lints(references@, sources@));
    out
}

/// Where the last component of `s[0..e]` ends, once trailing separators are dropped.
pub open spec fn content_end(s: Seq<char>, e: int) -> int
    decreases e,
{
    if e <= 0 {
        0
    } else if s[e - 1] == '/' {
        content_end(s, e - 1)
    } else {
        e
    }
}

/// The last component of the path has the extension `slice`: it ends in ".slice" after at least
/// one other character of that component.
pub open spec fn has_slice_extension(s: Seq<char>) -> bool {
    let e = content_end(s, s.len() as int);
    &&& e >= 7
    &&& s[e - 7] != '/'
    &&& s[e - 6] == '.'
    &&& s[e - 5] == 's'
    &&& s[e - 4] == 'l'
    &&& s[e - 3] == 'i'
    &&& s[e - 2] == 'c'
    &&& s[e - 1] == 'e'
}

/// Returns true if the path has the 'slice' extension.
pub fn is_slice_file(path: &str) -> (r: bool)
    ensures
        r == has_slice_extension(path@),
{
    let n = path.unicode_len();
    let mut e: usize = n;
    while e > 0 && path.get_char(e - 1) == '/'
        invariant
            n == path@.len(),
            e <= n,
            content_end(path@, e as int) == content_end(path@, n as int),
        decreases e,
    {
        e = e - 1;
    }
    assert(content_end(path@, e as int) == e);
    e >= 7 && path.get_char(e - 7) != '/' && path.get_char(e - 6) == '.' && path.get_char(e - 5) == 's'
        && path.get_char(e - 4) == 'l' && path.get_char(e - 3) == 'i' && path.get_char(e - 2) == 'c'
        && path.get_char(e - 1) == 'e'
}

pub open spec fn read_error(path: Seq<char>, message: Seq<char>) -> DiagnosticView {
    plain(KindView::IO { action: "read"@, path, message }, true)
}

/// The error for an input path, if it cannot be used: it does not exist, it is a file without
/// the `.slice` extension, or it is a directory where only files are allowed.
pub open spec fn input_path_diagnostics(path: Seq<char>, kind: PathKind, allow_directories: bool) -> Seq<
    DiagnosticView,
> {
    match kind {
        PathKind::Missing => seq![read_error(path, "entity not found"@)],
        PathKind::File => if has_slice_extension(path) {
            Seq::empty()
        } else {
            seq![read_error(path, "Slice files must end with a '.slice' extension"@)]
        },
        PathKind::Directory => if allow_directories {
            Seq::empty()
        } else {
            seq![read_error(path, "Excepted a Slice file but found a directory."@)]
        },
        PathKind::Other => Seq::empty(),
    }
}

/// Checks a path given on the command line before its files are looked for; says whether to go on.
pub fn check_input_path(path: &String, kind: PathKind, allow_directories: bool, diagnostics: &mut Diagnostics) -> (r:
    bool)
    ensures
        final(diagnostics)@ == old(diagnostics)@ + input_path_diagnostics(path@, kind, allow_directories),
        r == (input_path_diagnostics(path@, kind, allow_directories).len() == 0),
{
    let message = match kind {
        PathKind::Missing => Some("entity not found"),
        PathKind::File => if is_slice_file(path.as_str()) {
            None
        } else {
            Some("Slice files must end with a '.slice' extension")
        },
        PathKind::Directory => if allow_directories {
            None
        } else {
            Some("Excepted a Slice file but found a directory.")
        },
        PathKind::Other => None,
    };
    match message {
        Some(m) => {
            Diagnostic::new(
                DiagnosticKind::Error(
                    Error::IO { action: String::from_str("read"), path: path.clone(), message: String::from_str(m) },
                ),
            ).push_into(diagnostics);
            assert(diagnostics@ =~= old(diagnostics)@ + input_path_diagnostics(path@, kind, allow_directories));
            false
        },
        None => {
            assert(diagnostics@ =~= old(diagnostics)@ + input_path_diagnostics(path@, kind, allow_directories));
            true
        },
    }
}

} // verus!
