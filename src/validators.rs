use vstd::prelude::*;

use crate::diagnostics::{plain, Diagnostic, DiagnosticKind, DiagnosticView, Diagnostics, Error, KindView, Span};
use crate::encoding::Encoding;
use crate::grammar::{Ast, EntityKind, Operation};
use crate::members::{parameter_diagnostics, validate_parameters};
use crate::operations::{operation_diagnostics, validate_operation};
use crate::text::concat3;

verus! {

/// The encoding a file is compiled with, and where the file declared it (`None`: by default).
#[derive(Debug)]
pub struct CompilationMode {
    pub encoding: Encoding,
    pub declaration: Option<Span>,
}

pub open spec fn encoding_name(e: Encoding) -> Seq<char> {
    match e {
        Encoding::Slice1 => "Slice1"@,
        Encoding::Slice2 => "Slice2"@,
    }
}

pub fn encoding_str(e: Encoding) -> (r: &'static str)
    ensures
        r@ == encoding_name(e),
{
    match e {
        Encoding::Slice1 => "Slice1",
        Encoding::Slice2 => "Slice2",
    }
}

pub open spec fn kind_name(k: EntityKind) -> Seq<char> {
    match k {
        EntityKind::Struct => "struct"@,
        EntityKind::Exception => "exception"@,
        EntityKind::Class => "class"@,
        EntityKind::CustomType => "custom type"@,
    }
}

pub fn kind_str(k: EntityKind) -> (r: &'static str)
    ensures
        r@ == kind_name(k),
{
    match k {
        EntityKind::Struct => "struct",
        EntityKind::Exception => "exception",
        EntityKind::Class => "class",
        EntityKind::CustomType => "custom type",
    }
}

/// The notes that say where the file's encoding comes from.
pub open spec fn mode_notes(d: DiagnosticView, mode: &CompilationMode) -> DiagnosticView {
    match mode.declaration {
        Some(span) => d.with_note("file encoding was set to "@ + encoding_name(mode.encoding) + " here:"@, Some(span)),
        None => d.with_note("file is using the "@ + encoding_name(mode.encoding) + " encoding by default"@, None).with_note(
            "to use a different encoding, specify it at the top of the slice file\nex: 'encoding = 1;'"@,
            None,
        ),
    }
}

/// The note that says why the entity's own declaration rules the encoding out, if it does.
pub open spec fn reason_note(d: DiagnosticView, ast: &Ast, i: int, e: Encoding) -> DiagnosticView {
    let entity = ast.entities@[i];
    if entity.kind == EntityKind::Class && e != Encoding::Slice1 {
        d.with_note("classes are only supported by the Slice1 encoding"@, None)
    } else if entity.kind == EntityKind::Exception && entity.base is Some && e != Encoding::Slice1 {
        d.with_note("exception inheritance is only supported by the Slice1 encoding"@, None)
    } else if entity.kind == EntityKind::CustomType && e != Encoding::Slice2 {
        d.with_note("custom types are not supported by the Slice1 encoding"@, None)
    } else {
        d
    }
}

/// The error for an entity that the file's encoding does not support.
pub open spec fn entity_encoding_diagnostics(ast: &Ast, i: int, mode: &CompilationMode) -> Seq<DiagnosticView> {
    let entity = ast.entities@[i];
    if ast.spec_encodings(i).has(mode.encoding) {
        Seq::empty()
    } else {
        seq![
            reason_note(
                mode_notes(
                    plain(
                        KindView::NotSupportedWithEncoding {
                            kind: kind_name(entity.kind),
                            identifier: entity.identifier@,
                            encoding: mode.encoding,
                        },
                        true,
                    ).with_span(entity.span),
                    mode,
                ),
                ast,
                i,
                mode.encoding,
            ),
        ]
    }
}

/// Reports an entity whose supported encodings leave out the file's encoding.
pub fn validate_entity_encoding(ast: &Ast, i: usize, mode: &CompilationMode, diagnostics: &mut Diagnostics)
    requires
        ast.is_resolved(),
        i < ast.entities@.len(),
    ensures
        final(diagnostics)@ == old(diagnostics)@ + entity_encoding_diagnostics(ast, i as int, mode),
{
    let entity = &ast.entities[i];
    if ast.supported_encodings(i).supports(mode.encoding) {
        assert(diagnostics@ =~= old(diagnostics)@ + entity_encoding_diagnostics(ast, i as int, mode));
        return;
    }
    let mut d = Diagnostic::new(
        DiagnosticKind::Error(
            Error::NotSupportedWithEncoding {
                kind: String::from_str(kind_str(entity.kind)),
                identifier: entity.identifier.clone(),
                encoding: mode.encoding,
            },
        ),
    ).set_span(&entity.span);
    let name = encoding_str(mode.encoding);
    match &mode.declaration {
        Some(span) => {
            d = d.add_note(concat3("file encoding was set to ", name, " here:"), Some(span));
        },
        None => {
            d = d.add_note(concat3("file is using the ", name, " encoding by default"), None);
            d = d.add_note(
                String::from_str("to use a different encoding, specify it at the top of the slice file\nex: 'encoding = 1;'"),
                None,
            );
        },
    }
    let is_slice1 = match mode.encoding {
        Encoding::Slice1 => true,
        Encoding::Slice2 => false,
    };
    match entity.kind {
        EntityKind::Class => if !is_slice1 {
            d = d.add_note(String::from_str("classes are only supported by the Slice1 encoding"), None);
        },
        EntityKind::Exception => if entity.base.is_some() && !is_slice1 {
            d = d.add_note(String::from_str("exception inheritance is only supported by the Slice1 encoding"), None);
        },
        EntityKind::CustomType => if is_slice1 {
            d = d.add_note(String::from_str("custom types are not supported by the Slice1 encoding"), None);
        },
        EntityKind::Struct => {},
    }
    d.push_into(diagnostics);
    assert(diagnostics@ =~= old(diagnostics)@ + entity_encoding_diagnostics(ast, i as int, mode));
}

pub open spec fn entities_diagnostics(ast: &Ast, mode: &CompilationMode, n: int) -> Seq<DiagnosticView>
    decreases n,
{
    if n <= 0 {
        Seq::empty()
    } else {
        entities_diagnostics(ast, mode, n - 1) + entity_encoding_diagnostics(ast, n - 1, mode)
    }
}

pub open spec fn operations_diagnostics(ast: &Ast, operations: Seq<Operation>, n: int) -> Seq<DiagnosticView>
    decreases n,
{
    if n <= 0 {
        Seq::empty()
    } else {
        operations_diagnostics(ast, operations, n - 1) + parameter_diagnostics(&operations[n - 1])
            + operation_diagnostics(ast, &operations[n - 1])
    }
}

/// Everything that `validate` reports, in order: a function of the graph alone.
pub open spec fn validation_diagnostics(ast: &Ast, mode: &CompilationMode, operations: Seq<Operation>) -> Seq<
    DiagnosticView,
> {
    entities_diagnostics(ast, mode, ast.entities@.len() as int) + operations_diagnostics(
        ast,
        operations,
        operations.len() as int,
    )
}

/// Runs every validator over a linked graph whose encodings are resolved.
pub fn validate(ast: &Ast, mode: &CompilationMode, operations: &Vec<Operation>, diagnostics: &mut Diagnostics)
    requires
        ast.wf(),
        ast.is_resolved(),
        forall|k: int| 0 <= k < operations@.len() ==> (#[trigger] operations@[k]).refs_wf(ast),
    ensures
        final(diagnostics)@ == old(diagnostics)@ + validation_diagnostics(ast, mode, operations@),
{
    let ghost start = diagnostics@;
    let mut i: usize = 0;
    while i < ast.entities.len()
        invariant
            i <= ast.entities@.len(),
            ast.is_resolved(),
            diagnostics@ == start + entities_diagnostics(ast, mode, i as int),
        decreases ast.entities@.len() - i,
    {
        validate_entity_encoding(ast, i, mode, diagnostics);
        assert(diagnostics@ =~= start + entities_diagnostics(ast, mode, i + 1));
        i = i + 1;
    }
    let ghost mid = diagnostics@;
    let mut k: usize = 0;
    while k < operations.len()
        invariant
            k <= operations@.len(),
            ast.wf(),
            forall|j: int| 0 <= j < operations@.len() ==> (#[trigger] operations@[j]).refs_wf(ast),
            diagnostics@ == mid + operations_diagnostics(ast, operations@, k as int),
        decreases operations@.len() - k,
    {
        assert(operations@[k as int].refs_wf(ast));
        validate_parameters(&operations[k], diagnostics);
        validate_operation(&operations[k], ast, diagnostics);
        assert(diagnostics@ =~= mid + operations_diagnostics(ast, operations@, k + 1));
        k = k + 1;
    }
    assert(diagnostics@ =~= start + validation_diagnostics(ast, mode, operations@));
}

/// Validation keeps no state between runs: run twice over the same graph into one list, it
/// appends the same diagnostics the second time as the first.
pub proof fn lemma_validation_repeats(
    ast: &Ast,
    mode: &CompilationMode,
    operations: Seq<Operation>,
    before: Seq<DiagnosticView>,
    first: Seq<DiagnosticView>,
    second: Seq<DiagnosticView>,
)
    requires
        first == before + validation_diagnostics(ast, mode, operations),
        second == first + validation_diagnostics(ast, mode, operations),
    ensures
        second.subrange(before.len() as int, first.len() as int) == second.subrange(
            first.len() as int,
            second.len() as int,
        ),
        second.subrange(first.len() as int, second.len() as int) == validation_diagnostics(ast, mode, operations),
{
    assert(second.subrange(before.len() as int, first.len() as int) =~= validation_diagnostics(ast, mode, operations));
    assert(second.subrange(first.len() as int, second.len() as int) =~= validation_diagnostics(ast, mode, operations));
}

} // verus!
