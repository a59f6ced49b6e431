use vstd::prelude::*;

use crate::collect::{collect, lemma_collect_all, lemma_collect_empty, lemma_collect_step, opt_seq};
use crate::diagnostics::{
    plain, Diagnostic, DiagnosticKind, DiagnosticView, Diagnostics, Error, KindView, Lint, Span,
};
use crate::encoding::Encoding;
use crate::grammar::{
    is_compatible, Ast, DocComment, Entity, ExceptionRef, Operation, ParamTag, Parameter,
    ReturnsTag, ThrowsTag,
};
use crate::text::concat5;

verus! {

pub open spec fn incorrect_doc_comment(message: Seq<char>, span: Span, op: &Operation) -> DiagnosticView {
    plain(KindView::IncorrectDocComment { message }, false).with_span(span).with_scope(op.scoped_identifier@)
}

pub open spec fn has_named(members: Seq<Parameter>, name: Seq<char>) -> bool {
    exists|k: int| 0 <= k < members.len() && (#[trigger] members[k]).identifier@ == name
}

/// The lint for a `param` tag that names no parameter.
pub open spec fn param_tag_diagnostic(op: &Operation, t: ParamTag) -> Option<DiagnosticView> {
    if has_named(op.parameters@, t.identifier@) {
        None
    } else {
        Some(incorrect_doc_comment(
            "comment has a 'param' tag for '"@ + t.identifier@ + "', but operation '"@ + op.identifier@
                + "' has no parameter with that name"@,
            t.span,
            op,
        ))
    }
}

/// The lint for a `returns` tag that does not agree with the operation's return members.
pub open spec fn returns_tag_diagnostic(op: &Operation, t: ReturnsTag) -> Option<DiagnosticView> {
    let n = op.return_members@.len();
    if n == 0 {
        Some(incorrect_doc_comment(
            "comment has a 'returns' tag, but operation '"@ + op.identifier@ + "' does not return anything"@,
            t.span.joined(t.message_span),
            op,
        ))
    } else {
        match t.identifier {
            None => None,
            Some(id) => if n == 1 {
                Some(incorrect_doc_comment(
                    "comment has a 'returns' tag for '"@ + id@ + "', but operation '"@ + op.identifier@
                        + "' doesn't return anything with that name"@,
                    t.span,
                    op,
                ).with_note(
                    "operation '"@ + op.identifier@ + "' returns a single unnamed type"@,
                    Some(op.span),
                ).with_note("try removing the identifier from your comment: \"@returns: ...\""@, None))
            } else if has_named(op.return_members@, id@) {
                None
            } else {
                Some(incorrect_doc_comment(
                    "comment has a 'returns' tag for '"@ + id@ + "', but operation '"@ + op.identifier@
                        + "' doesn't return anything with that name"@,
                    t.span,
                    op,
                ))
            },
        }
    }
}

/// Some exception of the `throws` clause is `documented` or one of its bases.
pub open spec fn throws_compatible(entities: Seq<Entity>, op: &Operation, documented: int) -> bool {
    exists|k: int|
        0 <= k < op.exception_specification@.len() && is_compatible(
            entities,
            (#[trigger] op.exception_specification@[k]).definition as int,
            documented,
        )
}

/// The lint for a `throws` tag that does not agree with the operation's `throws` clause.
pub open spec fn throws_tag_diagnostic(entities: Seq<Entity>, op: &Operation, t: ThrowsTag) -> Option<
    DiagnosticView,
> {
    if op.exception_specification@.len() == 0 {
        Some(incorrect_doc_comment(
            "comment has a 'throws' tag, but operation '"@ + op.identifier@ + "' does not throw anything"@,
            t.span.joined(t.message_span),
            op,
        ))
    } else {
        match t.thrown_type {
            None => None,
            Some(d) => if throws_compatible(entities, op, d as int) {
                None
            } else {
                Some(incorrect_doc_comment(
                    "comment has a 'throws' tag for '"@ + entities[d as int].identifier@ + "', but operation '"@
                        + op.identifier@ + "' doesn't throw this exception"@,
                    t.span,
                    op,
                ))
            },
        }
    }
}

/// The error for a `throws` clause outside Slice1 mode, spanning the whole clause.
pub open spec fn exception_specification_diagnostics(op: &Operation) -> Seq<DiagnosticView> {
    let spec = op.exception_specification@;
    if op.encoding != Encoding::Slice1 && spec.len() > 0 {
        seq![
            plain(KindView::ExceptionSpecificationNotSupported, true).with_span(
                spec[0].span.joined(spec.last().span),
            ).with_scope(op.scoped_identifier@),
        ]
    } else {
        Seq::empty()
    }
}

pub open spec fn comment_diagnostics(ast: &Ast, op: &Operation, c: DocComment) -> Seq<DiagnosticView> {
    collect(c.params@, |t: ParamTag| param_tag_diagnostic(op, t)) + collect(
        c.returns@,
        |t: ReturnsTag| returns_tag_diagnostic(op, t),
    ) + collect(c.throws@, |t: ThrowsTag| throws_tag_diagnostic(ast.entities@, op, t))
}

/// Everything that `validate_operation` reports for `op`, in order.
pub open spec fn operation_diagnostics(ast: &Ast, op: &Operation) -> Seq<DiagnosticView> {
    exception_specification_diagnostics(op) + match op.comment {
        Some(c) => comment_diagnostics(ast, op, c),
        None => Seq::empty(),
    }
}

/// Checks an operation's `throws` clause against its encoding, and its doc comment against its
/// signature.
pub fn validate_operation(operation: &Operation, ast: &Ast, diagnostics: &mut Diagnostics)
    requires
        ast.wf(),
        operation.refs_wf(ast),
    ensures
        final(diagnostics)@ == old(diagnostics)@ + operation_diagnostics(ast, operation),
{
    let ghost start = diagnostics@;
    exception_specifications_can_only_be_used_in_slice1_mode(operation, diagnostics);
    match &operation.comment {
        Some(comment) => {
            validate_param_tags(comment, operation, diagnostics);
            validate_returns_tags(comment, operation, diagnostics);
            validate_throws_tags(comment, operation, ast, diagnostics);
            assert(diagnostics@ =~= start + operation_diagnostics(ast, operation));
        },
        None => {
            assert(diagnostics@ =~= start + operation_diagnostics(ast, operation));
        },
    }
}

fn exception_specifications_can_only_be_used_in_slice1_mode(
    operation: &Operation,
    diagnostics: &mut Diagnostics,
)
    ensures
        final(diagnostics)@ == old(diagnostics)@ + exception_specification_diagnostics(operation),
{
    let n = operation.exception_specification.len();
    let is_slice1 = match operation.encoding {
        Encoding::Slice1 => true,
        Encoding::Slice2 => false,
    };
    if !is_slice1 && n > 0 {
        let span = operation.exception_specification[0].span.join(&operation.exception_specification[n - 1].span);
        Diagnostic::new(DiagnosticKind::Error(Error::ExceptionSpecificationNotSupported)).set_span(
            &span,
        ).set_scope(&operation.scoped_identifier).push_into(diagnostics);
        assert(diagnostics@ =~= old(diagnostics)@ + exception_specification_diagnostics(operation));
    } else {
        assert(diagnostics@ =~= old(diagnostics)@ + exception_specification_diagnostics(operation));
    }
}

/// True when some member is called `name`.
fn has_member_named(members: &Vec<Parameter>, name: &String) -> (r: bool)
    ensures
        r == has_named(members@, name@),
{
    let mut k: usize = 0;
    while k < members.len()
        invariant
            k <= members@.len(),
            forall|j: int| 0 <= j < k ==> (#[trigger] members@[j]).identifier@ != name@,
        decreases members@.len() - k,
    {
        if members[k].identifier == *name {
            assert(members@[k as int].identifier@ == name@);
            return true;
        }
        k = k + 1;
    }
    false
}

fn validate_param_tags(comment: &DocComment, operation: &Operation, diagnostics: &mut Diagnostics)
    ensures
        final(diagnostics)@ == old(diagnostics)@ + collect(
            comment.params@,
            |t: ParamTag| param_tag_diagnostic(operation, t),
        ),
{
    let ghost start = diagnostics@;
    let ghost f = |t: ParamTag| param_tag_diagnostic(operation, t);
    proof {
        lemma_collect_empty(comment.params@, f);
    }
    let mut i: usize = 0;
    while i < comment.params.len()
        invariant
            i <= comment.params@.len(),
            diagnostics@ == start + collect(comment.params@.take(i as int), f),
            f == (|t: ParamTag| param_tag_diagnostic(operation, t)),
        decreases comment.params@.len() - i,
    {
        let tag = &comment.params[i];
        proof {
            lemma_collect_step(comment.params@, f, i as int);
        }
        let ghost before = diagnostics@;
        if !has_member_named(&operation.parameters, &tag.identifier) {
            let message = concat5(
                "comment has a 'param' tag for '",
                tag.identifier.as_str(),
                "', but operation '",
                operation.identifier.as_str(),
                "' has no parameter with that name",
            );
            Diagnostic::new(DiagnosticKind::Lint(Lint::IncorrectDocComment { message })).set_span(
                &tag.span,
            ).set_scope(&operation.scoped_identifier).push_into(diagnostics);
        }
        assert(diagnostics@ =~= before + opt_seq(f(comment.params@[i as int])));
        i = i + 1;
    }
    proof {
        lemma_collect_all(comment.params@, f);
    }
}

fn validate_returns_tags(comment: &DocComment, operation: &Operation, diagnostics: &mut Diagnostics)
    ensures
        final(diagnostics)@ == old(diagnostics)@ + collect(
            comment.returns@,
            |t: ReturnsTag| returns_tag_diagnostic(operation, t),
        ),
{
    let returns_tags = &comment.returns;
    let n = operation.return_members.len();
    if n == 0 {
        validate_returns_tags_for_operation_with_no_return_type(returns_tags, operation, diagnostics);
    } else if n == 1 {
        validate_returns_tags_for_operation_with_single_return(returns_tags, operation, diagnostics);
    } else {
        validate_returns_tags_for_operation_with_return_tuple(returns_tags, operation, diagnostics);
    }
}

fn validate_returns_tags_for_operation_with_no_return_type(
    returns_tags: &Vec<ReturnsTag>,
    operation: &Operation,
    diagnostics: &mut Diagnostics,
)
    requires
        operation.return_members@.len() == 0,
    ensures
        final(diagnostics)@ == old(diagnostics)@ + collect(
            returns_tags@,
            |t: ReturnsTag| returns_tag_diagnostic(operation, t),
        ),
{
    let ghost start = diagnostics@;
    let ghost f = |t: ReturnsTag| returns_tag_diagnostic(operation, t);
    proof {
        lemma_collect_empty(returns_tags@, f);
    }
    let mut i: usize = 0;
    while i < returns_tags.len()
        invariant
            i <= returns_tags@.len(),
            operation.return_members@.len() == 0,
            diagnostics@ == start + collect(returns_tags@.take(i as int), f),
            f == (|t: ReturnsTag| returns_tag_diagnostic(operation, t)),
        decreases returns_tags@.len() - i,
    {
        let tag = &returns_tags[i];
        proof {
            lemma_collect_step(returns_tags@, f, i as int);
        }
        let ghost before = diagnostics@;
        let message = concat5(
            "comment has a 'returns' tag, but operation '",
            operation.identifier.as_str(),
            "' does not return anything",
            "",
            "",
        );
        proof {
            reveal_strlit("");
        }
        assert(message@ =~= "comment has a 'returns' tag, but operation '"@ + operation.identifier@
            + "' does not return anything"@);
        Diagnostic::new(DiagnosticKind::Lint(Lint::IncorrectDocComment { message })).set_span(
            &tag.span.join(&tag.message_span),
        ).set_scope(&operation.scoped_identifier).push_into(diagnostics);
        assert(diagnostics@ =~= before + opt_seq(f(returns_tags@[i as int])));
        i = i + 1;
    }
    proof {
        lemma_collect_all(returns_tags@, f);
    }
}

fn validate_returns_tags_for_operation_with_single_return(
    returns_tags: &Vec<ReturnsTag>,
    operation: &Operation,
    diagnostics: &mut Diagnostics,
)
    requires
        operation.return_members@.len() == 1,
    ensures
        final(diagnostics)@ == old(diagnostics)@ + collect(
            returns_tags@,
            |t: ReturnsTag| returns_tag_diagnostic(operation, t),
        ),
{
    let ghost start = diagnostics@;
    let ghost f = |t: ReturnsTag| returns_tag_diagnostic(operation, t);
    proof {
        lemma_collect_empty(returns_tags@, f);
    }
    let mut i: usize = 0;
    while i < returns_tags.len()
        invariant
            i <= returns_tags@.len(),
            operation.return_members@.len() == 1,
            diagnostics@ == start + collect(returns_tags@.take(i as int), f),
            f == (|t: ReturnsTag| returns_tag_diagnostic(operation, t)),
        decreases returns_tags@.len() - i,
    {
        let tag = &returns_tags[i];
        proof {
            lemma_collect_step(returns_tags@, f, i as int);
        }
        let ghost before = diagnostics@;
        if let Some(tag_identifier) = &tag.identifier {
            let message = concat5(
                "comment has a 'returns' tag for '",
                tag_identifier.as_str(),
                "', but operation '",
                operation.identifier.as_str(),
                "' doesn't return anything with that name",
            );
            let note = concat5(
                "operation '",
                operation.identifier.as_str(),
                "' returns a single unnamed type",
                "",
                "",
            );
            proof {
                reveal_strlit("");
            }
            assert(note@ =~= "operation '"@ + operation.identifier@ + "' returns a single unnamed type"@);
            Diagnostic::new(DiagnosticKind::Lint(Lint::IncorrectDocComment { message })).set_span(
                &tag.span,
            ).set_scope(&operation.scoped_identifier).add_note(note, Some(&operation.span)).add_note(
                String::from_str("try removing the identifier from your comment: \"@returns: ...\""),
                None,
            ).push_into(diagnostics);
        }
        assert(diagnostics@ =~= before + opt_seq(f(returns_tags@[i as int])));
        i = i + 1;
    }
    proof {
        lemma_collect_all(returns_tags@, f);
    }
}

fn validate_returns_tags_for_operation_with_return_tuple(
    returns_tags: &Vec<ReturnsTag>,
    operation: &Operation,
    diagnostics: &mut Diagnostics,
)
    requires
        operation.return_members@.len() >= 2,
    ensures
        final(diagnostics)@ == old(diagnostics)@ + collect(
            returns_tags@,
            |t: ReturnsTag| returns_tag_diagnostic(operation, t),
        ),
{
    let ghost start = diagnostics@;
    let ghost f = |t: ReturnsTag| returns_tag_diagnostic(operation, t);
    proof {
        lemma_collect_empty(returns_tags@, f);
    }
    let mut i: usize = 0;
    while i < returns_tags.len()
        invariant
            i <= returns_tags@.len(),
            operation.return_members@.len() >= 2,
            diagnostics@ == start + collect(returns_tags@.take(i as int), f),
            f == (|t: ReturnsTag| returns_tag_diagnostic(operation, t)),
        decreases returns_tags@.len() - i,
    {
        let tag = &returns_tags[i];
        proof {
            lemma_collect_step(returns_tags@, f, i as int);
        }
        let ghost before = diagnostics@;
        if let Some(tag_identifier) = &tag.identifier {
            if !has_member_named(&operation.return_members, tag_identifier) {
                let message = concat5(
                    "comment has a 'returns' tag for '",
                    tag_identifier.as_str(),
                    "', but operation '",
                    operation.identifier.as_str(),
                    "' doesn't return anything with that name",
                );
                Diagnostic::new(DiagnosticKind::Lint(Lint::IncorrectDocComment { message })).set_span(
                    &tag.span,
                ).set_scope(&operation.scoped_identifier).push_into(diagnostics);
            }
        }
        assert(diagnostics@ =~= before + opt_seq(f(returns_tags@[i as int])));
        i = i + 1;
    }
    proof {
        lemma_collect_all(returns_tags@, f);
    }
}

fn validate_throws_tags(comment: &DocComment, operation: &Operation, ast: &Ast, diagnostics: &mut Diagnostics)
    requires
        ast.wf(),
        operation.refs_wf(ast),
        operation.comment == Some(*comment),
    ensures
        final(diagnostics)@ == old(diagnostics)@ + collect(
            comment.throws@,
            |t: ThrowsTag| throws_tag_diagnostic(ast.entities@, operation, t),
        ),
{
    let throws_tags = &comment.throws;
    if operation.exception_specification.len() == 0 {
        validate_throws_tags_for_operation_with_no_throws_clause(throws_tags, operation, ast, diagnostics);
    } else {
        let thrown_exceptions = &operation.exception_specification;
        validate_throws_tags_for_operation_with_throws_clause(
            throws_tags,
            operation,
            thrown_exceptions,
            ast,
            diagnostics,
        );
    }
}

fn validate_throws_tags_for_operation_with_no_throws_clause(
    throws_tags: &Vec<ThrowsTag>,
    operation: &Operation,
    ast: &Ast,
    diagnostics: &mut Diagnostics,
)
    requires
        operation.exception_specification@.len() == 0,
    ensures
        final(diagnostics)@ == old(diagnostics)@ + collect(
            throws_tags@,
            |t: ThrowsTag| throws_tag_diagnostic(ast.entities@, operation, t),
        ),
{
    let ghost start = diagnostics@;
    let ghost f = |t: ThrowsTag| throws_tag_diagnostic(ast.entities@, operation, t);
    proof {
        lemma_collect_empty(throws_tags@, f);
    }
    let mut i: usize = 0;
    while i < throws_tags.len()
        invariant
            i <= throws_tags@.len(),
            operation.exception_specification@.len() == 0,
            diagnostics@ == start + collect(throws_tags@.take(i as int), f),
            f == (|t: ThrowsTag| throws_tag_diagnostic(ast.entities@, operation, t)),
        decreases throws_tags@.len() - i,
    {
        let tag = &throws_tags[i];
        proof {
            lemma_collect_step(throws_tags@, f, i as int);
        }
        let ghost before = diagnostics@;
        let message = concat5(
            "comment has a 'throws' tag, but operation '",
            operation.identifier.as_str(),
            "' does not throw anything",
            "",
            "",
        );
        proof {
            reveal_strlit("");
        }
        assert(message@ =~= "comment has a 'throws' tag, but operation '"@ + operation.identifier@
            + "' does not throw anything"@);
        Diagnostic::new(DiagnosticKind::Lint(Lint::IncorrectDocComment { message })).set_span(
            &tag.span.join(&tag.message_span),
        ).set_scope(&operation.scoped_identifier).push_into(diagnostics);
        assert(diagnostics@ =~= before + opt_seq(f(throws_tags@[i as int])));
        i = i + 1;
    }
    proof {
        lemma_collect_all(throws_tags@, f);
    }
}

fn validate_throws_tags_for_operation_with_throws_clause(
    throws_tags: &Vec<ThrowsTag>,
    operation: &Operation,
    exception_types: &Vec<ExceptionRef>,
    ast: &Ast,
    diagnostics: &mut Diagnostics,
)
    requires
        ast.wf(),
        operation.refs_wf(ast),
        *exception_types == operation.exception_specification,
        exception_types@.len() > 0,
        forall|k: int| 0 <= k < throws_tags@.len() ==> ((#[trigger] throws_tags@[k]).thrown_type matches Some(d) ==> d < ast.entities@.len()),
    ensures
        final(diagnostics)@ == old(diagnostics)@ + collect(
            throws_tags@,
            |t: ThrowsTag| throws_tag_diagnostic(ast.entities@, operation, t),
        ),
{
    let ghost start = diagnostics@;
    let ghost f = |t: ThrowsTag| throws_tag_diagnostic(ast.entities@, operation, t);
    proof {
        lemma_collect_empty(throws_tags@, f);
    }
    let mut i: usize = 0;
    while i < throws_tags.len()
        invariant
            i <= throws_tags@.len(),
            ast.wf(),
            *exception_types == operation.exception_specification,
            exception_types@.len() > 0,
            forall|k: int| 0 <= k < throws_tags@.len() ==> ((#[trigger] throws_tags@[k]).thrown_type matches Some(d) ==> d < ast.entities@.len()),
            diagnostics@ == start + collect(throws_tags@.take(i as int), f),
            f == (|t: ThrowsTag| throws_tag_diagnostic(ast.entities@, operation, t)),
        decreases throws_tags@.len() - i,
    {
        let tag = &throws_tags[i];
        proof {
            lemma_collect_step(throws_tags@, f, i as int);
        }
        let ghost before = diagnostics@;
        if let Some(documented_exception) = tag.thrown_type {
            assert(tag.thrown_type matches Some(d) ==> d < ast.entities@.len());
            let mut is_correct = false;
            let mut k: usize = 0;
            while k < exception_types.len()
                invariant
                    k <= exception_types@.len(),
                    ast.wf(),
                    documented_exception < ast.entities@.len(),
                    is_correct == exists|j: int|
                        0 <= j < k && is_compatible(
                            ast.entities@,
                            (#[trigger] exception_types@[j]).definition as int,
                            documented_exception as int,
                        ),
                decreases exception_types@.len() - k,
            {
                if is_documented_exception_compatible(
                    exception_types[k].definition,
                    documented_exception,
                    ast,
                ) {
                    is_correct = true;
                }
                k = k + 1;
            }
            if !is_correct {
                let message = concat5(
                    "comment has a 'throws' tag for '",
                    ast.entities[documented_exception].identifier.as_str(),
                    "', but operation '",
                    operation.identifier.as_str(),
                    "' doesn't throw this exception",
                );
                Diagnostic::new(DiagnosticKind::Lint(Lint::IncorrectDocComment { message })).set_span(
                    &tag.span,
                ).set_scope(&operation.scoped_identifier).push_into(diagnostics);
            }
        }
        assert(diagnostics@ =~= before + opt_seq(f(throws_tags@[i as int])));
        i = i + 1;
    }
    proof {
        lemma_collect_all(throws_tags@, f);
    }
}

/// Returns true if `documented_exception` is the same as, or derives from `thrown_exception`.
fn is_documented_exception_compatible(thrown_exception: usize, documented_exception: usize, ast: &Ast) -> (r:
    bool)
    requires
        ast.wf(),
        documented_exception < ast.entities@.len(),
    ensures
        r == is_compatible(ast.entities@, thrown_exception as int, documented_exception as int),
    decreases documented_exception,
{
    if thrown_exception == documented_exception {
        true
    } else if let Some(base_exception) = ast.entities[documented_exception].base {
        assert(crate::grammar::entity_wf(ast.entities@, documented_exception as int));
        is_documented_exception_compatible(thrown_exception, base_exception, ast)
    } else {
        false
    }
}


/// The `n`-th exception up the base chain of `d`, starting from `d` itself.
pub open spec fn nth_base(entities: Seq<Entity>, d: int, n: nat) -> Option<int>
    decreases n,
{
    if d < 0 || d >= entities.len() {
        None
    } else if n == 0 {
        Some(d)
    } else {
        match entities[d].base {
            Some(b) => nth_base(entities, b as int, (n - 1) as nat),
            None => None,
        }
    }
}

proof fn lemma_compatible_has_chain(ast: &Ast, thrown: int, documented: int) -> (n: nat)
    requires
        ast.wf(),
        is_compatible(ast.entities@, thrown, documented),
    ensures
        nth_base(ast.entities@, documented, n) == Some(thrown),
    decreases documented,
{
    if thrown == documented {
        0
    } else {
        let b = ast.entities@[documented].base.unwrap();
        let k = lemma_compatible_has_chain(ast, thrown, b as int);
        k + 1
    }
}

proof fn lemma_chain_is_compatible(ast: &Ast, thrown: int, documented: int, n: nat)
    requires
        ast.wf(),
        nth_base(ast.entities@, documented, n) == Some(thrown),
    ensures
        is_compatible(ast.entities@, thrown, documented),
    decreases n,
{
    if n > 0 && thrown != documented {
        assert(crate::grammar::entity_wf(ast.entities@, documented));
        let b = ast.entities@[documented].base.unwrap();
        lemma_chain_is_compatible(ast, thrown, b as int, (n - 1) as nat);
    }
}

/// A documented exception is compatible with a thrown one exactly when the thrown one lies on the
/// documented one's base chain (itself included). So compatibility is reflexive, it is transitive,
/// and it is false for an exception that is not on that chain.
pub proof fn lemma_exception_compatibility(ast: &Ast, thrown: int, middle: int, documented: int)
    requires
        ast.wf(),
        0 <= thrown < ast.entities@.len(),
        0 <= middle < ast.entities@.len(),
        0 <= documented < ast.entities@.len(),
    ensures
        is_compatible(ast.entities@, thrown, thrown),
        is_compatible(ast.entities@, thrown, documented) <==> exists|n: nat|
            nth_base(ast.entities@, documented, n) == Some(thrown),
        is_compatible(ast.entities@, thrown, middle) && is_compatible(ast.entities@, middle, documented)
            ==> is_compatible(ast.entities@, thrown, documented),
    decreases documented,
{
    if is_compatible(ast.entities@, thrown, documented) {
        let n = lemma_compatible_has_chain(ast, thrown, documented);
    }
    if exists|n: nat| nth_base(ast.entities@, documented, n) == Some(thrown) {
        let n = choose|n: nat| nth_base(ast.entities@, documented, n) == Some(thrown);
        lemma_chain_is_compatible(ast, thrown, documented, n);
    }
    if is_compatible(ast.entities@, thrown, middle) && is_compatible(ast.entities@, middle, documented)
        && middle != documented {
        assert(crate::grammar::entity_wf(ast.entities@, documented));
        let b = ast.entities@[documented].base.unwrap();
        lemma_exception_compatibility(ast, thrown, middle, b as int);
    }
}

} // verus!
