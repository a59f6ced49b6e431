use vstd::prelude::*;

use crate::encoding::Encoding;

verus! {

/// A position in a source file.
#[derive(Clone, Copy, Debug, PartialEq, Eq, Structural)]
pub struct Location {
    pub row: usize,
    pub col: usize,
}

/// A range of a source file.
#[derive(Debug, PartialEq, Eq)]
pub struct Span {
    pub start: Location,
    pub end: Location,
    pub file: String,
}

impl Clone for Span {
    fn clone(&self) -> (r: Span)
        ensures
            r == *self,
    {
        Span { start: self.start, end: self.end, file: self.file.clone() }
    }
}

impl Span {
    pub fn new(start: Location, end: Location, file: &str) -> (r: Span)
        ensures
            r.start == start,
            r.end == end,
            r.file@ == file@,
    {
        Span { start, end, file: String::from_str(file) }
    }

    pub open spec fn joined(self, other: Span) -> Span {
        Span { start: self.start, end: other.end, file: self.file }
    }

    /// The span that starts where `self` starts and ends where `other` ends.
    pub fn join(&self, other: &Span) -> (r: Span)
        ensures
            r == self.joined(*other),
    {
        Span { start: self.start, end: other.end, file: self.file.clone() }
    }
}

/// Errors: they block code generation.
#[derive(Debug, PartialEq, Eq)]
pub enum Error {
    ExceptionSpecificationNotSupported,
    Redefinition { identifier: String },
    ReturnTuplesMustContainAtLeastTwoElements,
    StreamedMembersMustBeLast { parameter_identifier: String },
    MultipleStreamedMembers,
    NotSupportedWithEncoding { kind: String, identifier: String, encoding: Encoding },
    UnexpectedAttribute { attribute: String },
    TooManyArguments { attribute: String, maximum: usize },
    IO { action: String, path: String, message: String },
}

/// Lints: advisory, generation proceeds.
#[derive(Debug, PartialEq, Eq)]
pub enum Lint {
    IncorrectDocComment { message: String },
    DuplicateFile { path: String },
    MalformedDocComment { message: String },
}

#[derive(Debug, PartialEq, Eq)]
pub enum DiagnosticKind {
    Error(Error),
    Lint(Lint),
}

/// What a diagnostic kind says, with its text as character sequences.
pub enum KindView {
    ExceptionSpecificationNotSupported,
    Redefinition { identifier: Seq<char> },
    ReturnTuplesMustContainAtLeastTwoElements,
    StreamedMembersMustBeLast { parameter_identifier: Seq<char> },
    MultipleStreamedMembers,
    NotSupportedWithEncoding { kind: Seq<char>, identifier: Seq<char>, encoding: Encoding },
    UnexpectedAttribute { attribute: Seq<char> },
    TooManyArguments { attribute: Seq<char>, maximum: usize },
    IO { action: Seq<char>, path: Seq<char>, message: Seq<char> },
    IncorrectDocComment { message: Seq<char> },
    DuplicateFile { path: Seq<char> },
    MalformedDocComment { message: Seq<char> },
}

impl View for DiagnosticKind {
    type V = KindView;

    open spec fn view(&self) -> KindView {
        match self {
            DiagnosticKind::Error(e) => match e {
                Error::ExceptionSpecificationNotSupported => KindView::ExceptionSpecificationNotSupported,
                Error::Redefinition { identifier } => KindView::Redefinition { identifier: identifier@ },
                Error::ReturnTuplesMustContainAtLeastTwoElements => KindView::ReturnTuplesMustContainAtLeastTwoElements,
                Error::StreamedMembersMustBeLast { parameter_identifier } => KindView::StreamedMembersMustBeLast {
                    parameter_identifier: parameter_identifier@,
                },
                Error::MultipleStreamedMembers => KindView::MultipleStreamedMembers,
                Error::NotSupportedWithEncoding { kind, identifier, encoding } => KindView::NotSupportedWithEncoding {
                    kind: kind@,
                    identifier: identifier@,
                    encoding: *encoding,
                },
                Error::UnexpectedAttribute { attribute } => KindView::UnexpectedAttribute { attribute: attribute@ },
                Error::TooManyArguments { attribute, maximum } => KindView::TooManyArguments { attribute: attribute@, maximum: *maximum },
                Error::IO { action, path, message } => KindView::IO {
                    action: action@,
                    path: path@,
                    message: message@,
                },
            },
            DiagnosticKind::Lint(l) => match l {
                Lint::IncorrectDocComment { message } => KindView::IncorrectDocComment { message: message@ },
                Lint::DuplicateFile { path } => KindView::DuplicateFile { path: path@ },
                Lint::MalformedDocComment { message } => KindView::MalformedDocComment { message: message@ },
            },
        }
    }
}

/// A secondary message, optionally pointing at a span.
#[derive(Debug, PartialEq, Eq)]
pub struct Note {
    pub message: String,
    pub span: Option<Span>,
}

pub struct NoteView {
    pub message: Seq<char>,
    pub span: Option<Span>,
}

impl View for Note {
    type V = NoteView;

    open spec fn view(&self) -> NoteView {
        NoteView { message: self.message@, span: self.span }
    }
}

/// One error or lint, with its span, scope and notes.
#[derive(Debug, PartialEq, Eq)]
pub struct Diagnostic {
    pub kind: DiagnosticKind,
    pub span: Option<Span>,
    pub scope: Option<String>,
    pub notes: Vec<Note>,
}

pub struct DiagnosticView {
    pub kind: KindView,
    pub is_error: bool,
    pub span: Option<Span>,
    pub scope: Option<Seq<char>>,
    pub notes: Seq<NoteView>,
}

pub open spec fn scope_view(s: Option<String>) -> Option<Seq<char>> {
    match s {
        Some(s) => Some(s@),
        None => None,
    }
}

impl View for Diagnostic {
    type V = DiagnosticView;

    open spec fn view(&self) -> DiagnosticView {
        DiagnosticView {
            kind: self.kind@,
            is_error: self.kind is Error,
            span: self.span,
            scope: scope_view(self.scope),
            notes: self.notes@.map_values(|n: Note| n@),
        }
    }
}

/// The view of a fresh diagnostic of the given kind.
pub open spec fn plain(kind: KindView, is_error: bool) -> DiagnosticView {
    DiagnosticView { kind, is_error, span: None, scope: None, notes: Seq::empty() }
}

impl DiagnosticView {
    pub open spec fn with_span(self, span: Span) -> DiagnosticView {
        DiagnosticView { span: Some(span), ..self }
    }

    pub open spec fn with_scope(self, scope: Seq<char>) -> DiagnosticView {
        DiagnosticView { scope: Some(scope), ..self }
    }

    pub open spec fn with_note(self, message: Seq<char>, span: Option<Span>) -> DiagnosticView {
        DiagnosticView { notes: self.notes.push(NoteView { message, span }), ..self }
    }
}

impl Diagnostic {
    pub fn new(kind: DiagnosticKind) -> (r: Diagnostic)
        ensures
            r@ == plain(kind@, kind is Error),
    {
        let r = Diagnostic { kind, span: None, scope: None, notes: Vec::new() };
        assert(r.notes@.map_values(|n: Note| n@) =~= Seq::empty());
        r
    }

    pub fn set_span(self, span: &Span) -> (r: Diagnostic)
        ensures
            r@ == self@.with_span(*span),
    {
        let mut r = self;
        r.span = Some(span.clone());
        r
    }

    pub fn set_scope(self, scope: &String) -> (r: Diagnostic)
        ensures
            r@ == self@.with_scope(scope@),
    {
        let mut r = self;
        r.scope = Some(scope.clone());
        r
    }

    pub fn add_note(self, message: String, span: Option<&Span>) -> (r: Diagnostic)
        ensures
            r@ == self@.with_note(message@, match span { Some(s) => Some(*s), None => None }),
    {
        let mut r = self;
        let s = match span {
            Some(s) => Some(s.clone()),
            None => None,
        };
        let ghost before = r.notes@;
        r.notes.push(Note { message, span: s });
        assert(r.notes@.map_values(|n: Note| n@) =~= before.map_values(|n: Note| n@).push(
            NoteView { message: message@, span: s },
        ));
        r
    }

    pub fn is_error(&self) -> (r: bool)
        ensures
            r == self@.is_error,
    {
        match self.kind {
            DiagnosticKind::Error(_) => true,
            DiagnosticKind::Lint(_) => false,
        }
    }

    pub fn push_into(self, diagnostics: &mut Diagnostics)
        ensures
            final(diagnostics)@ == old(diagnostics)@.push(self@),
    {
        diagnostics.push(self);
    }
}

/// The ordered, append-only list of diagnostics of a compilation.
#[derive(Debug)]
pub struct Diagnostics {
    pub diagnostics: Vec<Diagnostic>,
}

impl View for Diagnostics {
    type V = Seq<DiagnosticView>;

    open spec fn view(&self) -> Seq<DiagnosticView> {
        self.diagnostics@.map_values(|d: Diagnostic| d@)
    }
}

impl Diagnostics {
    pub fn new() -> (r: Diagnostics)
        ensures
            r@ == Seq::<DiagnosticView>::empty(),
    {
        let r = Diagnostics { diagnostics: Vec::new() };
        assert(r@ =~= Seq::<DiagnosticView>::empty());
        r
    }

    pub fn push(&mut self, d: Diagnostic)
        ensures
            final(self)@ == old(self)@.push(d@),
    {
        let ghost before = self.diagnostics@;
        self.diagnostics.push(d);
        assert(self.diagnostics@.map_values(|d: Diagnostic| d@) =~= before.map_values(|d: Diagnostic| d@).push(d@));
    }

    /// Appends every diagnostic of `other`, keeping their order.
    pub fn extend(&mut self, other: Diagnostics)
        ensures
            final(self)@ == old(self)@ + other@,
    {
        let mut items = other.diagnostics;
        let ghost a = self.diagnostics@;
        let ghost b = items@;
        self.diagnostics.append(&mut items);
        assert(self.diagnostics@.map_values(|d: Diagnostic| d@) =~= a.map_values(|d: Diagnostic| d@) + b.map_values(
            |d: Diagnostic| d@,
        ));
    }

    pub fn len(&self) -> (r: usize)
        ensures
            r == self@.len(),
    {
        self.diagnostics.len()
    }

    pub fn is_empty(&self) -> (r: bool)
        ensures
            r == (self@.len() == 0),
    {
        self.diagnostics.len() == 0
    }

    pub fn has_errors(&self) -> (r: bool)
        ensures
            r == (exists|i: int| 0 <= i < self@.len() && (#[trigger] self@[i]).is_error),
    {
        let mut i: usize = 0;
        while i < self.diagnostics.len()
            invariant
                i <= self.diagnostics@.len(),
                forall|j: int| 0 <= j < i ==> !(#[trigger] self@[j]).is_error,
            decreases self.diagnostics@.len() - i,
        {
            if self.diagnostics[i].is_error() {
                assert(self@[i as int].is_error);
                return true;
            }
            i = i + 1;
        }
        false
    }

    pub fn into_inner(self) -> (r: Vec<Diagnostic>)
        ensures
            r@.map_values(|d: Diagnostic| d@) == self@,
    {
        self.diagnostics
    }
}

} // verus!
