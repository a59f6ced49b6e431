use vstd::prelude::*;

use crate::encoding::Encoding;
use crate::grammar::{entity_wf, holds_class, member_holds_class, Ast, DataType, Entity, Operation, Parameter, Primitive};
use crate::operations::has_named;
use crate::text::concat3;

verus! {

/// What is generated for an operation whose result is requested pre-encoded: a value type named
/// `struct_name` that wraps the encoded bytes and encodes eagerly in its constructor.
#[derive(Debug)]
pub struct EncodedResult {
    pub struct_name: String,
    /// One return member: the constructor takes `returnValue` and uses the single-value path;
    /// otherwise it takes each return member and uses the tuple path.
    pub single_return: bool,
    /// The dispatch parameter that supplies the encoding; absent when the payload can hold
    /// classes, which forces Slice1.
    pub dispatch_parameter: Option<String>,
    pub encoding: Encoding,
}

/// A value of type `t` can hold class instances.
pub open spec fn type_uses_classes(entities: Seq<Entity>, t: DataType) -> bool {
    match t {
        DataType::Primitive(p) => p == Primitive::AnyClass,
        DataType::Entity(j) => holds_class(entities, j as int),
    }
}

pub open spec fn returns_classes(entities: Seq<Entity>, op: &Operation) -> bool {
    exists|k: int|
        0 <= k < op.return_members@.len() && type_uses_classes(
            entities,
            (#[trigger] op.return_members@[k]).data_type.definition,
        )
}

/// Whether the entity at `i` is, or holds, a class.
pub fn entity_uses_classes(ast: &Ast, i: usize) -> (r: bool)
    requires
        ast.wf(),
        i < ast.entities@.len(),
    ensures
        r == holds_class(ast.entities@, i as int),
    decreases i,
{
    let ghost ents = ast.entities@;
    proof {
        assert(entity_wf(ents, i as int));
    }
    let e = &ast.entities[i];
    if let crate::grammar::EntityKind::Class = e.kind {
        assert(ents[i as int].kind == crate::grammar::EntityKind::Class);
        return true;
    }
    let mut k: usize = 0;
    while k < e.members.len()
        invariant
            ast.wf(),
            ents == ast.entities@,
            *e == ents[i as int],
            i < ents.len(),
            entity_wf(ents, i as int),
            k <= e.members@.len(),
            forall|j: int| 0 <= j < k ==> !(#[trigger] member_holds_class(e.members@[j], i as int) && (
                match e.members@[j].data_type.definition {
                    DataType::Primitive(p) => p == Primitive::AnyClass,
                    DataType::Entity(x) => x < i && holds_class(ents, x as int),
                })),
        decreases e.members@.len() - k,
    {
        let found = match e.members[k].data_type.definition {
            DataType::Primitive(p) => match p {
                Primitive::AnyClass => true,
                _ => false,
            },
            DataType::Entity(x) => {
                assert(crate::grammar::type_is_before(e.members@[k as int].data_type.definition, i as int));
                assert(x < i);
                entity_uses_classes(ast, x)
            },
        };
        if found {
            assert(member_holds_class(e.members@[k as int], i as int));
            return true;
        }
        k = k + 1;
    }
    match e.base {
        Some(b) => entity_uses_classes(ast, b),
        None => false,
    }
}

/// Whether some return member of `op` can hold class instances.
pub fn operation_returns_classes(op: &Operation, ast: &Ast) -> (r: bool)
    requires
        ast.wf(),
        forall|k: int| 0 <= k < op.return_members@.len() ==> crate::grammar::type_is_before(
            #[trigger] op.return_members@[k].data_type.definition,
            ast.entities@.len() as int,
        ),
    ensures
        r == returns_classes(ast.entities@, op),
{
    let mut k: usize = 0;
    while k < op.return_members.len()
        invariant
            ast.wf(),
            forall|k: int| 0 <= k < op.return_members@.len() ==> crate::grammar::type_is_before(
                #[trigger] op.return_members@[k].data_type.definition,
                ast.entities@.len() as int,
            ),
            k <= op.return_members@.len(),
            forall|j: int| 0 <= j < k ==> !type_uses_classes(ast.entities@, (#[trigger] op.return_members@[j]).data_type.definition),
        decreases op.return_members@.len() - k,
    {
        let found = match op.return_members[k].data_type.definition {
            DataType::Primitive(p) => match p {
                Primitive::AnyClass => true,
                _ => false,
            },
            DataType::Entity(x) => {
                assert(crate::grammar::type_is_before(op.return_members@[k as int].data_type.definition, ast.entities@.len() as int));
                entity_uses_classes(ast, x)
            },
        };
        if found {
            assert(type_uses_classes(ast.entities@, op.return_members@[k as int].data_type.definition));
            return true;
        }
        k = k + 1;
    }
    false
}

/// `name`, with an underscore added when a parameter already has that name.
pub fn escape_parameter_name(parameters: &Vec<Parameter>, name: &str) -> (r: String)
    ensures
        has_named(parameters@, name@) ==> r@ == name@ + "_"@,
        !has_named(parameters@, name@) ==> r@ == name@,
{
    let mut k: usize = 0;
    let target = String::from_str(name);
    while k < parameters.len()
        invariant
            target@ == name@,
            k <= parameters@.len(),
            forall|j: int| 0 <= j < k ==> (#[trigger] parameters@[j]).identifier@ != name@,
        decreases parameters@.len() - k,
    {
        if parameters[k].identifier == target {
            assert(parameters@[k as int].identifier@ == name@);
            proof {
                reveal_strlit("");
            }
            return concat3(name, "_", "");
        }
        k = k + 1;
    }
    target
}

/// The encoded-result type of `operation`, or `None` when its result is not requested pre-encoded.
pub fn encoded_result_struct(operation: &Operation, ast: &Ast) -> (r: Option<EncodedResult>)
    requires
        ast.wf(),
        forall|k: int| 0 <= k < operation.return_members@.len() ==> crate::grammar::type_is_before(
            #[trigger] operation.return_members@[k].data_type.definition,
            ast.entities@.len() as int,
        ),
    ensures
        r is Some <==> operation.has_encoded_result,
        r matches Some(e) ==> {
            &&& e.struct_name@ == operation.identifier@ + "EncodedReturnValue"@
            &&& e.single_return == (operation.return_members@.len() == 1)
            &&& returns_classes(ast.entities@, operation) ==> e.encoding == Encoding::Slice1 && e.dispatch_parameter is None
            &&& !returns_classes(ast.entities@, operation) ==> e.encoding == operation.encoding && (e.dispatch_parameter matches Some(d) && (
                if has_named(operation.return_members@, "dispatch"@) {
                    d@ == "dispatch"@ + "_"@
                } else {
                    d@ == "dispatch"@
                }))
        },
{
    if !operation.has_encoded_result {
        return None;
    }
    proof {
        reveal_strlit("");
    }
    let struct_name = concat3(operation.identifier.as_str(), "EncodedReturnValue", "");
    let classes = operation_returns_classes(operation, ast);
    let (dispatch_parameter, encoding) = if classes {
        (None, Encoding::Slice1)
    } else {
        (Some(escape_parameter_name(&operation.return_members, "dispatch")), operation.encoding)
    };
    Some(EncodedResult { struct_name, single_return: operation.return_members.len() == 1, dispatch_parameter, encoding })
}

} // verus!
