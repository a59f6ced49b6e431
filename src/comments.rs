use vstd::prelude::*;

use crate::diagnostics::{Diagnostic, DiagnosticKind, DiagnosticView, KindView, Lint, Location, Span};
use crate::text::concat3;

verus! {

/// An error of the doc-comment parser.
#[derive(Debug)]
pub enum CommentParseError {
    /// An error that the grammar itself raised, with its message.
    User { start: Location, end: Location, message: String },
    /// A token that fits no grammar rule; `token` is how it prints, `expected` what would fit.
    UnrecognizedToken { start: Location, end: Location, token: String, expected: Vec<String> },
    /// The input ended in the middle of a rule.
    UnrecognizedEof { location: Location, expected: Vec<String> },
}

pub open spec fn texts(v: Seq<String>) -> Seq<Seq<char>> {
    v.map_values(|s: String| s@)
}

/// The items of `s` separated by ", ".
pub open spec fn comma_list(s: Seq<Seq<char>>) -> Seq<char>
    decreases s.len(),
{
    if s.len() == 0 {
        Seq::empty()
    } else if s.len() == 1 {
        s[0]
    } else {
        comma_list(s.drop_last()) + ", "@ + s.last()
    }
}

/// "a", "a or b", or "a, b, or c".
pub open spec fn clean_list(s: Seq<Seq<char>>) -> Seq<char> {
    if s.len() == 1 {
        s[0]
    } else if s.len() == 2 {
        s[0] + " or "@ + s[1]
    } else {
        comma_list(s.drop_last()) + ", or "@ + s.last()
    }
}

/// Lists the expected tokens for a message.
pub fn clean_message(expected: &Vec<String>) -> (r: String)
    requires
        expected@.len() >= 1,
    ensures
        r@ == clean_list(texts(expected@)),
{
    let n = expected.len();
    if n == 1 {
        return expected[0].clone();
    }
    if n == 2 {
        return concat3(expected[0].as_str(), " or ", expected[1].as_str());
    }
    let ghost t = texts(expected@);
    let mut r = expected[0].clone();
    let mut i: usize = 1;
    assert(t.take(1).drop_last() =~= Seq::<Seq<char>>::empty());
    while i < n - 1
        invariant
            n == expected@.len(),
            n >= 3,
            1 <= i <= n - 1,
            t == texts(expected@),
            r@ == comma_list(t.take(i as int)),
        decreases n - i,
    {
        r.append(", ");
        r.append(expected[i].as_str());
        assert(t.take(i + 1).drop_last() =~= t.take(i as int));
        i = i + 1;
    }
    r.append(", or ");
    r.append(expected[n - 1].as_str());
    assert(t.take(n - 1) =~= t.drop_last());
    r
}

/// The lint for a doc comment that does not parse, at the error's place.
pub open spec fn lint_for(e: CommentParseError, file_name: Seq<char>, d: DiagnosticView) -> bool {
    &&& d.kind matches KindView::MalformedDocComment { message } && message == match e {
        CommentParseError::User { message, .. } => message@,
        CommentParseError::UnrecognizedToken { token, expected, .. } => "expected one of "@ + clean_list(
            texts(expected@),
        ) + ", but found '"@ + token@ + "'"@,
        CommentParseError::UnrecognizedEof { expected, .. } => "expected one of "@ + clean_list(texts(expected@))
            + ", but found 'EOF'"@,
    }
    &&& !d.is_error
    &&& d.scope is None
    &&& d.notes.len() == 0
    &&& d.span matches Some(span) && span.file@ == file_name && match e {
        CommentParseError::User { start, end, .. } => span.start == start && span.end == end,
        CommentParseError::UnrecognizedToken { start, end, .. } => span.start == start && span.end == end,
        CommentParseError::UnrecognizedEof { location, .. } => span.start == location && span.end == location,
    }
}

/// Converts an error of the doc-comment parser into a lint.
pub fn construct_lint_from(parse_error: CommentParseError, file_name: &str) -> (r: Diagnostic)
    requires
        match parse_error {
            CommentParseError::User { .. } => true,
            CommentParseError::UnrecognizedToken { expected, .. } => expected@.len() >= 1,
            CommentParseError::UnrecognizedEof { expected, .. } => expected@.len() >= 1,
        },
    ensures
        lint_for(parse_error, file_name@, r@),
{
    let ghost e = parse_error;
    match parse_error {
        CommentParseError::User { start, end, message } => {
            Diagnostic::new(DiagnosticKind::Lint(Lint::MalformedDocComment { message })).set_span(
                &Span::new(start, end, file_name),
            )
        },
        CommentParseError::UnrecognizedToken { start, end, token, expected } => {
            let mut message = concat3("expected one of ", clean_message(&expected).as_str(), ", but found '");
            message.append(token.as_str());
            message.append("'");
            Diagnostic::new(DiagnosticKind::Lint(Lint::MalformedDocComment { message })).set_span(
                &Span::new(start, end, file_name),
            )
        },
        CommentParseError::UnrecognizedEof { location, expected } => {
            let message = concat3("expected one of ", clean_message(&expected).as_str(), ", but found 'EOF'");
            Diagnostic::new(DiagnosticKind::Lint(Lint::MalformedDocComment { message })).set_span(
                &Span::new(location, location, file_name),
            )
        },
    }
}

} // verus!
