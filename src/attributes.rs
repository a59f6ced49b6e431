use vstd::prelude::*;

use crate::diagnostics::{plain, Diagnostic, DiagnosticKind, DiagnosticView, Diagnostics, Error, KindView, Span};

verus! {

/// An attribute as written: its directive and its arguments.
#[derive(Debug)]
pub struct Unparsed {
    pub directive: String,
    pub args: Vec<String>,
}

/// The kinds of element an attribute can be applied to.
#[derive(Clone, Copy, Debug, PartialEq, Eq, Structural)]
pub enum Attributables {
    Module,
    Struct,
    Class,
    Exception,
    Field,
    Interface,
    Operation,
    Parameter,
    Enum,
    Enumerator,
    CustomType,
    TypeAlias,
    TypeRef,
    SliceFile,
}

/// The `deprecated` attribute, with its optional reason.
#[derive(Debug)]
pub struct Deprecated {
    pub reason: Option<String>,
}

pub open spec fn too_many_arguments(attribute: Seq<char>, maximum: usize, span: Span) -> DiagnosticView {
    plain(KindView::TooManyArguments { attribute, maximum }, true).with_span(span)
}

pub open spec fn unexpected_attribute(attribute: Seq<char>, span: Span) -> DiagnosticView {
    plain(KindView::UnexpectedAttribute { attribute }, true).with_span(span)
}

/// Reports an attribute given more than one argument.
pub fn check_that_at_most_one_argument_was_provided(
    args: &Vec<String>,
    directive: &str,
    span: &Span,
    diagnostics: &mut Diagnostics,
)
    ensures
        final(diagnostics)@ == old(diagnostics)@ + if args@.len() > 1 {
            seq![too_many_arguments(directive@, 1, *span)]
        } else {
            Seq::empty()
        },
{
    if args.len() > 1 {
        Diagnostic::new(
            DiagnosticKind::Error(Error::TooManyArguments { attribute: String::from_str(directive), maximum: 1 }),
        ).set_span(span).push_into(diagnostics);
        assert(diagnostics@ =~= old(diagnostics)@ + seq![too_many_arguments(directive@, 1, *span)]);
    } else {
        assert(diagnostics@ =~= old(diagnostics)@ + Seq::empty());
    }
}

impl Deprecated {
    pub open spec fn spec_directive() -> Seq<char> {
        "deprecated"@
    }

    pub fn directive() -> (r: &'static str)
        ensures
            r@ == Self::spec_directive(),
    {
        "deprecated"
    }

    /// Parses the attribute: its first argument, if any, is the reason; more than one argument is
    /// an error.
    pub fn parse_from(unparsed: &Unparsed, span: &Span, diagnostics: &mut Diagnostics) -> (r: Self)
        requires
            unparsed.directive@ == Self::spec_directive(),
        ensures
            match r.reason {
                Some(reason) => unparsed.args@.len() > 0 && reason@ == unparsed.args@[0]@,
                None => unparsed.args@.len() == 0,
            },
            final(diagnostics)@ == old(diagnostics)@ + if unparsed.args@.len() > 1 {
                seq![too_many_arguments(Self::spec_directive(), 1, *span)]
            } else {
                Seq::empty()
            },
    {
        check_that_at_most_one_argument_was_provided(&unparsed.args, Self::directive(), span, diagnostics);
        let reason = if unparsed.args.len() > 0 {
            Some(unparsed.args[0].clone())
        } else {
            None
        };
        Deprecated { reason }
    }

    /// Reports the attribute on modules, type references and files, which cannot be deprecated,
    /// and on parameters, with a note.
    pub fn validate_on(&self, applied_on: Attributables, span: &Span, diagnostics: &mut Diagnostics)
        ensures
            final(diagnostics)@ == old(diagnostics)@ + match applied_on {
                Attributables::Module | Attributables::TypeRef | Attributables::SliceFile => seq![
                    unexpected_attribute(Self::spec_directive(), *span),
                ],
                Attributables::Parameter => seq![
                    unexpected_attribute(Self::spec_directive(), *span).with_note(
                        "parameters cannot be individually deprecated"@,
                        None,
                    ),
                ],
                _ => Seq::empty(),
            },
    {
        match applied_on {
            Attributables::Module | Attributables::TypeRef | Attributables::SliceFile => {
                report_unexpected_attribute(span, None, diagnostics);
            },
            Attributables::Parameter => {
                report_unexpected_attribute(span, Some("parameters cannot be individually deprecated"), diagnostics);
            },
            _ => {
                assert(diagnostics@ =~= old(diagnostics)@ + Seq::empty());
            },
        }
    }
}

/// Reports the `deprecated` attribute where it does not apply, with an optional note.
fn report_unexpected_attribute(span: &Span, note: Option<&str>, diagnostics: &mut Diagnostics)
    ensures
        final(diagnostics)@ == old(diagnostics)@ + seq![
            match note {
                Some(n) => unexpected_attribute(Deprecated::spec_directive(), *span).with_note(n@, None),
                None => unexpected_attribute(Deprecated::spec_directive(), *span),
            },
        ],
{
    let mut d = Diagnostic::new(
        DiagnosticKind::Error(Error::UnexpectedAttribute { attribute: String::from_str(Deprecated::directive()) }),
    ).set_span(span);
    if let Some(n) = note {
        d = d.add_note(String::from_str(n), None);
    }
    d.push_into(diagnostics);
    assert(diagnostics@ =~= old(diagnostics)@ + seq![d@]);
}

} // verus!
