use vstd::prelude::*;

use crate::diagnostics::DiagnosticView;

verus! {

pub open spec fn opt_seq(d: Option<DiagnosticView>) -> Seq<DiagnosticView> {
    match d {
        Some(d) => seq![d],
        None => Seq::empty(),
    }
}

/// The diagnostics that `f` reports for the items of `s`, in order.
pub open spec fn collect<T>(s: Seq<T>, f: spec_fn(T) -> Option<DiagnosticView>) -> Seq<DiagnosticView>
    decreases s.len(),
{
    if s.len() == 0 {
        Seq::empty()
    } else {
        collect(s.drop_last(), f) + opt_seq(f(s.last()))
    }
}

pub proof fn lemma_collect_step<T>(s: Seq<T>, f: spec_fn(T) -> Option<DiagnosticView>, i: int)
    requires
        0 <= i < s.len(),
    ensures
        collect(s.take(i + 1), f) == collect(s.take(i), f) + opt_seq(f(s[i])),
{
    assert(s.take(i + 1).drop_last() =~= s.take(i));
    assert(s.take(i + 1).last() == s[i]);
}

pub proof fn lemma_collect_empty<T>(s: Seq<T>, f: spec_fn(T) -> Option<DiagnosticView>)
    ensures
        collect(s.take(0), f) == Seq::<DiagnosticView>::empty(),
{
    assert(s.take(0).len() == 0);
}

pub proof fn lemma_collect_all<T>(s: Seq<T>, f: spec_fn(T) -> Option<DiagnosticView>)
    ensures
        collect(s.take(s.len() as int), f) == collect(s, f),
{
    assert(s.take(s.len() as int) =~= s);
}

} // verus!
