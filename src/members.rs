use vstd::prelude::*;

use crate::collect::{collect, lemma_collect_all, lemma_collect_empty, lemma_collect_step, opt_seq};
use crate::diagnostics::{plain, Diagnostic, DiagnosticKind, DiagnosticView, Diagnostics, Error, KindView};
use crate::grammar::{Operation, Parameter};
use crate::text::concat3;

verus! {

/// The index of the first of `s[0..n]` called `name`, or `n` when none is.
pub open spec fn first_named(s: Seq<Parameter>, name: Seq<char>, n: int) -> int
    decreases n,
{
    if n <= 0 {
        0
    } else {
        let f = first_named(s, name, n - 1);
        if f < n - 1 {
            f
        } else if s[n - 1].identifier@ == name {
            n - 1
        } else {
            n
        }
    }
}

/// The error for the member at `i` when an earlier member has its name, with a note at the first.
pub open spec fn redefinition_of(s: Seq<Parameter>, i: int) -> Seq<DiagnosticView> {
    let f = first_named(s, s[i].identifier@, i);
    if f < i {
        seq![
            plain(KindView::Redefinition { identifier: s[i].identifier@ }, true).with_span(s[i].span).with_scope(
                s[i].scoped_identifier@,
            ).with_note("'"@ + s[i].identifier@ + "' was previously defined here"@, Some(s[f].span)),
        ]
    } else {
        Seq::empty()
    }
}

pub open spec fn redefinitions(s: Seq<Parameter>, n: int) -> Seq<DiagnosticView>
    decreases n,
{
    if n <= 0 {
        Seq::empty()
    } else {
        redefinitions(s, n - 1) + redefinition_of(s, n - 1)
    }
}

pub open spec fn streamed_not_last(p: Parameter) -> Option<DiagnosticView> {
    if p.is_streamed {
        Some(
            plain(KindView::StreamedMembersMustBeLast { parameter_identifier: p.identifier@ }, true).with_span(
                p.span,
            ).with_scope(p.scoped_identifier@),
        )
    } else {
        None
    }
}

pub open spec fn streamed_count(s: Seq<Parameter>) -> nat
    decreases s.len(),
{
    if s.len() == 0 {
        0
    } else {
        streamed_count(s.drop_last()) + if s.last().is_streamed {
            1nat
        } else {
            0nat
        }
    }
}

/// What `validate_members` reports for a parameter list or a return list, in order.
pub open spec fn member_diagnostics(s: Seq<Parameter>) -> Seq<DiagnosticView> {
    redefinitions(s, s.len() as int) + if s.len() == 0 {
        Seq::empty()
    } else {
        collect(s.drop_last(), |p: Parameter| streamed_not_last(p))
    } + if streamed_count(s) > 1 {
        seq![plain(KindView::MultipleStreamedMembers, true).with_span(s.last().span)]
    } else {
        Seq::empty()
    }
}

pub open spec fn return_tuple_diagnostics(op: &Operation) -> Seq<DiagnosticView> {
    if op.returns_tuple && op.return_members@.len() < 2 {
        seq![
            plain(KindView::ReturnTuplesMustContainAtLeastTwoElements, true).with_span(op.span).with_scope(
                op.scoped_identifier@,
            ),
        ]
    } else {
        Seq::empty()
    }
}

/// What `validate_parameters` reports for `op`, in order.
pub open spec fn parameter_diagnostics(op: &Operation) -> Seq<DiagnosticView> {
    member_diagnostics(op.parameters@) + return_tuple_diagnostics(op) + member_diagnostics(op.return_members@)
}

proof fn lemma_first_named(s: Seq<Parameter>, name: Seq<char>, n: int, j: int)
    requires
        0 <= j <= n,
        forall|k: int| 0 <= k < j ==> (#[trigger] s[k]).identifier@ != name,
        j < n ==> s[j].identifier@ == name,
    ensures
        first_named(s, name, n) == j,
    decreases n,
{
    if n > 0 {
        if j < n {
            if j < n - 1 {
                lemma_first_named(s, name, n - 1, j);
            } else {
                lemma_first_named(s, name, n - 1, n - 1);
            }
        } else {
            lemma_first_named(s, name, n - 1, n - 1);
        }
    }
}

/// Checks the parameters and the return members of an operation: no name twice in one list, only
/// the last member streamed, at most one streamed member, and no return tuple under two elements.
pub fn validate_parameters(operation: &Operation, diagnostics: &mut Diagnostics)
    ensures
        final(diagnostics)@ == old(diagnostics)@ + parameter_diagnostics(operation),
{
    let ghost start = diagnostics@;
    validate_members(&operation.parameters, diagnostics);
    let ghost a = diagnostics@;
    if operation.returns_tuple && operation.return_members.len() < 2 {
        Diagnostic::new(DiagnosticKind::Error(Error::ReturnTuplesMustContainAtLeastTwoElements)).set_span(
            &operation.span,
        ).set_scope(&operation.scoped_identifier).push_into(diagnostics);
    }
    assert(diagnostics@ =~= a + return_tuple_diagnostics(operation));
    validate_members(&operation.return_members, diagnostics);
    assert(diagnostics@ =~= start + parameter_diagnostics(operation));
}

/// Checks one parameter list or one return list.
pub fn validate_members(members: &Vec<Parameter>, diagnostics: &mut Diagnostics)
    ensures
        final(diagnostics)@ == old(diagnostics)@ + member_diagnostics(members@),
{
    let ghost start = diagnostics@;
    let s = members;
    let n = s.len();
    let mut i: usize = 0;
    while i < n
        invariant
            n == s@.len(),
            i <= n,
            diagnostics@ == start + redefinitions(s@, i as int),
        decreases n - i,
    {
        let ghost before = diagnostics@;
        let mut j: usize = 0;
        let mut found = false;
        while j < i && !found
            invariant
                j <= i < n,
                n == s@.len(),
                forall|k: int| 0 <= k < j ==> (#[trigger] s@[k]).identifier@ != s@[i as int].identifier@,
                found ==> j < i && s@[j as int].identifier@ == s@[i as int].identifier@,
            decreases i - j + if found { 0int } else { 1int },
        {
            if s[j].identifier == s[i].identifier {
                found = true;
            } else {
                j = j + 1;
            }
        }
        proof {
            lemma_first_named(s@, s@[i as int].identifier@, i as int, j as int);
        }
        if found {
            let note = concat3("'", s[i].identifier.as_str(), "' was previously defined here");
            Diagnostic::new(
                DiagnosticKind::Error(Error::Redefinition { identifier: s[i].identifier.clone() }),
            ).set_span(&s[i].span).set_scope(&s[i].scoped_identifier).add_note(note, Some(&s[j].span)).push_into(
                diagnostics,
            );
        }
        assert(diagnostics@ =~= before + redefinition_of(s@, i as int));
        i = i + 1;
    }
    let ghost mid = diagnostics@;
    let mut streamed: usize = 0;
    if n > 0 {
        let ghost rest = s@.drop_last();
        let ghost f = |p: Parameter| streamed_not_last(p);
        proof {
            lemma_collect_empty(rest, f);
        }
        let mut k: usize = 0;
        while k < n - 1
            invariant
                n == s@.len(),
                n > 0,
                k <= n - 1,
                rest == s@.drop_last(),
                f == (|p: Parameter| streamed_not_last(p)),
                diagnostics@ == mid + collect(rest.take(k as int), f),
            decreases n - 1 - k,
        {
            proof {
                lemma_collect_step(rest, f, k as int);
            }
            let ghost before = diagnostics@;
            if s[k].is_streamed {
                Diagnostic::new(
                    DiagnosticKind::Error(
                        Error::StreamedMembersMustBeLast { parameter_identifier: s[k].identifier.clone() },
                    ),
                ).set_span(&s[k].span).set_scope(&s[k].scoped_identifier).push_into(diagnostics);
            }
            assert(rest[k as int] == s@[k as int]);
            assert(diagnostics@ =~= before + opt_seq(f(rest[k as int])));
            k = k + 1;
        }
        proof {
            lemma_collect_all(rest, f);
        }
    }
    let ghost mid2 = diagnostics@;
    let mut k: usize = 0;
    while k < n
        invariant
            n == s@.len(),
            k <= n,
            streamed <= k,
            streamed == streamed_count(s@.take(k as int)),
        decreases n - k,
    {
        assert(s@.take(k + 1).drop_last() =~= s@.take(k as int));
        if s[k].is_streamed {
            streamed = streamed + 1;
        }
        k = k + 1;
    }
    assert(s@.take(n as int) =~= s@);
    if streamed > 1 {
        Diagnostic::new(DiagnosticKind::Error(Error::MultipleStreamedMembers)).set_span(&s[n - 1].span).push_into(
            diagnostics,
        );
    }
    assert(diagnostics@ =~= start + member_diagnostics(members@));
}

} // verus!
