use vstd::prelude::*;

use crate::diagnostics::Span;
use crate::encoding::{Encoding, SupportedEncodings};

verus! {

/// The wire tag category of a value that is optional or tagged.
#[derive(Clone, Copy, Debug, PartialEq, Eq, Structural)]
pub enum TagFormat {
    F1,
    F2,
    F4,
    F8,
    Size,
    VSize,
    FSize,
    Class,
    OptimizedVSize,
}

/// The built-in types.
#[derive(Clone, Copy, Debug, PartialEq, Eq, Structural)]
pub enum Primitive {
    Bool,
    Int8,
    UInt8,
    Int16,
    UInt16,
    Int32,
    UInt32,
    VarInt32,
    VarUInt32,
    Int64,
    UInt64,
    VarInt62,
    VarUInt62,
    String,
    AnyClass,
}

pub open spec fn primitive_encodings(p: Primitive) -> SupportedEncodings {
    match p {
        Primitive::Bool | Primitive::UInt8 | Primitive::Int16 | Primitive::Int32 | Primitive::Int64
        | Primitive::String => SupportedEncodings { slice1: true, slice2: true },
        Primitive::AnyClass => SupportedEncodings { slice1: true, slice2: false },
        _ => SupportedEncodings { slice1: false, slice2: true },
    }
}

impl Primitive {
    pub fn type_string(&self) -> (r: &'static str) {
        match self {
            Primitive::Bool => "bool",
            Primitive::Int8 => "int8",
            Primitive::UInt8 => "uint8",
            Primitive::Int16 => "int16",
            Primitive::UInt16 => "uint16",
            Primitive::Int32 => "int32",
            Primitive::UInt32 => "uint32",
            Primitive::VarInt32 => "varint32",
            Primitive::VarUInt32 => "varuint32",
            Primitive::Int64 => "int64",
            Primitive::UInt64 => "uint64",
            Primitive::VarInt62 => "varint62",
            Primitive::VarUInt62 => "varuint62",
            Primitive::String => "string",
            Primitive::AnyClass => "AnyClass",
        }
    }

    /// The encoded size in bytes, for types whose size does not depend on the value.
    pub fn fixed_wire_size(&self) -> (r: Option<u32>)
        ensures
            r is Some <==> (*self == Primitive::Bool || *self == Primitive::Int8 || *self == Primitive::UInt8
                || *self == Primitive::Int16 || *self == Primitive::UInt16 || *self == Primitive::Int32
                || *self == Primitive::UInt32 || *self == Primitive::Int64 || *self == Primitive::UInt64),
            *self == Primitive::Bool ==> r == Some(1u32),
            *self == Primitive::Int32 ==> r == Some(4u32),
            *self == Primitive::Int64 ==> r == Some(8u32),
    {
        match self {
            Primitive::Bool | Primitive::Int8 | Primitive::UInt8 => Some(1),
            Primitive::Int16 | Primitive::UInt16 => Some(2),
            Primitive::Int32 | Primitive::UInt32 => Some(4),
            Primitive::Int64 | Primitive::UInt64 => Some(8),
            _ => None,
        }
    }

    pub fn is_class_type(&self) -> (r: bool)
        ensures
            r == (*self == Primitive::AnyClass),
    {
        match self {
            Primitive::AnyClass => true,
            _ => false,
        }
    }

    /// Only the types that Slice1 supports have a tag format.
    pub fn tag_format(&self) -> (r: Option<TagFormat>)
        ensures
            r is Some <==> primitive_encodings(*self).slice1,
    {
        match self {
            Primitive::Bool | Primitive::UInt8 => Some(TagFormat::F1),
            Primitive::Int16 => Some(TagFormat::F2),
            Primitive::Int32 => Some(TagFormat::F4),
            Primitive::Int64 => Some(TagFormat::F8),
            Primitive::String => Some(TagFormat::OptimizedVSize),
            Primitive::AnyClass => Some(TagFormat::Class),
            _ => None,
        }
    }

    pub fn supported_encodings(&self) -> (r: SupportedEncodings)
        ensures
            r == primitive_encodings(*self),
    {
        match self {
            Primitive::Bool | Primitive::UInt8 | Primitive::Int16 | Primitive::Int32 | Primitive::Int64
            | Primitive::String => SupportedEncodings { slice1: true, slice2: true },
            Primitive::AnyClass => SupportedEncodings { slice1: true, slice2: false },
            _ => SupportedEncodings { slice1: false, slice2: true },
        }
    }
}

/// What a type reference points at: a built-in type, or the entity at an index of the `Ast`.
#[derive(Clone, Copy, Debug, PartialEq, Eq, Structural)]
pub enum DataType {
    Primitive(Primitive),
    Entity(usize),
}

/// A reference to a type, with its optionality flag.
#[derive(Clone, Copy, Debug, PartialEq, Eq, Structural)]
pub struct TypeRef {
    pub definition: DataType,
    pub is_optional: bool,
}

/// A field of a struct, class or exception.
#[derive(Debug)]
pub struct Member {
    pub identifier: String,
    pub data_type: TypeRef,
    pub tag: Option<u32>,
    pub has_default: bool,
}

#[derive(Clone, Copy, Debug, PartialEq, Eq, Structural)]
pub enum EntityKind {
    Struct,
    Exception,
    Class,
    CustomType,
}

/// A declared type.
#[derive(Debug)]
pub struct Entity {
    pub identifier: String,
    pub kind: EntityKind,
    pub members: Vec<Member>,
    pub base: Option<usize>,
    pub compact_id: Option<u32>,
    pub span: Span,
}

/// The encodings that an entity's own declaration allows, before its contents narrow them.
pub open spec fn own_encodings(e: &Entity) -> SupportedEncodings {
    match e.kind {
        EntityKind::Struct => SupportedEncodings { slice1: true, slice2: true },
        EntityKind::Exception => if e.base is Some {
            SupportedEncodings { slice1: true, slice2: false }
        } else {
            SupportedEncodings { slice1: true, slice2: true }
        },
        EntityKind::Class => SupportedEncodings { slice1: true, slice2: false },
        EntityKind::CustomType => SupportedEncodings { slice1: false, slice2: true },
    }
}

/// The encodings of a type, given those of the entities before it.
pub open spec fn type_encodings(table: Seq<SupportedEncodings>, t: DataType) -> SupportedEncodings {
    match t {
        DataType::Primitive(p) => primitive_encodings(p),
        DataType::Entity(j) => table[j as int],
    }
}

/// The encodings that every member type of `members` supports.
pub open spec fn members_encodings(table: Seq<SupportedEncodings>, members: Seq<Member>) -> SupportedEncodings
    decreases members.len(),
{
    if members.len() == 0 {
        SupportedEncodings { slice1: true, slice2: true }
    } else {
        members_encodings(table, members.drop_last()).meet(
            type_encodings(table, members.last().data_type.definition),
        )
    }
}

pub open spec fn base_encodings(table: Seq<SupportedEncodings>, base: Option<usize>) -> SupportedEncodings {
    match base {
        Some(b) => table[b as int],
        None => SupportedEncodings { slice1: true, slice2: true },
    }
}

/// The encodings of an entity: its own restriction, met with those of its members and its base.
pub open spec fn entity_encodings(table: Seq<SupportedEncodings>, e: &Entity) -> SupportedEncodings {
    own_encodings(e).meet(members_encodings(table, e.members@)).meet(base_encodings(table, e.base))
}

/// The encodings of the first `n` entities.
pub open spec fn encodings_table(entities: Seq<Entity>, n: nat) -> Seq<SupportedEncodings>
    decreases n,
{
    if n == 0 {
        Seq::empty()
    } else {
        let t = encodings_table(entities, (n - 1) as nat);
        t.push(entity_encodings(t, &entities[n - 1]))
    }
}

/// An entity holds a class: it is one, or a member type or its base holds one.
pub open spec fn holds_class(entities: Seq<Entity>, i: int) -> bool
    decreases i,
{
    if i < 0 || i >= entities.len() {
        false
    } else {
        let e = entities[i];
        ||| e.kind == EntityKind::Class
        ||| exists|k: int| 0 <= k < e.members@.len() && #[trigger] member_holds_class(e.members@[k], i) && (
            match e.members@[k].data_type.definition {
                DataType::Primitive(p) => p == Primitive::AnyClass,
                DataType::Entity(j) => j < i && holds_class(entities, j as int),
            })
        ||| (e.base matches Some(b) && b < i && holds_class(entities, b as int))
    }
}

/// Names the member `m` of the entity at `i` in the quantifier of `holds_class`.
pub open spec fn member_holds_class(m: Member, i: int) -> bool {
    true
}

/// The set of declared entities. Every reference (member type or base) points at an earlier entity.
#[derive(Debug)]
pub struct Ast {
    pub entities: Vec<Entity>,
    /// The encodings of each entity, once `resolve_encodings` has run; empty before.
    pub encodings: Vec<SupportedEncodings>,
}

pub open spec fn type_is_before(t: DataType, i: int) -> bool {
    match t {
        DataType::Primitive(_) => true,
        DataType::Entity(j) => j < i,
    }
}

pub open spec fn entity_wf(entities: Seq<Entity>, i: int) -> bool {
    let e = entities[i];
    &&& forall|k: int| 0 <= k < e.members@.len() ==> type_is_before(#[trigger] e.members@[k].data_type.definition, i)
    &&& match e.base {
        Some(b) => b < i && (e.kind == EntityKind::Class || e.kind == EntityKind::Exception) && entities[b as int].kind == e.kind,
        None => true,
    }
    &&& e.kind == EntityKind::CustomType ==> e.members@.len() == 0
}

impl Ast {
    pub open spec fn wf(&self) -> bool {
        forall|i: int| 0 <= i < self.entities@.len() ==> entity_wf(self.entities@, i)
    }

    pub open spec fn is_resolved(&self) -> bool {
        self.encodings@ == encodings_table(self.entities@, self.entities@.len())
    }

    /// The encodings that the entity at `i` supports.
    pub open spec fn spec_encodings(&self, i: int) -> SupportedEncodings {
        encodings_table(self.entities@, self.entities@.len())[i]
    }

    pub fn new() -> (r: Ast)
        ensures
            r.entities@.len() == 0,
            r.encodings@.len() == 0,
            r.wf(),
    {
        Ast { entities: Vec::new(), encodings: Vec::new() }
    }

    /// Adds an entity; its references must point at entities already added.
    pub fn add(&mut self, e: Entity) -> (index: usize)
        requires
            old(self).wf(),
            old(self).entities@.len() < usize::MAX,
            entity_wf(old(self).entities@.push(e), old(self).entities@.len() as int),
        ensures
            final(self).wf(),
            final(self).entities@ == old(self).entities@.push(e),
            final(self).encodings@.len() == 0,
            index == old(self).entities@.len(),
    {
        let index = self.entities.len();
        self.entities.push(e);
        self.encodings = Vec::new();
        proof {
            assert forall|i: int| 0 <= i < self.entities@.len() implies entity_wf(self.entities@, i) by {
                if i < index {
                    assert(entity_wf(old(self).entities@, i));
                    assert(self.entities@[i] == old(self).entities@[i]);
                }
            }
        }
        index
    }

    /// Computes, once, the supported encodings of every entity.
    pub fn resolve_encodings(&mut self)
        requires
            old(self).wf(),
        ensures
            final(self).entities@ == old(self).entities@,
            final(self).is_resolved(),
            final(self).wf(),
    {
        let n = self.entities.len();
        let mut table: Vec<SupportedEncodings> = Vec::new();
        let mut i: usize = 0;
        while i < n
            invariant
                n == self.entities@.len(),
                i <= n,
                self.wf(),
                table@ == encodings_table(self.entities@, i as nat),
            decreases n - i,
        {
            let e = &self.entities[i];
            assert(entity_wf(self.entities@, i as int));
            let mut enc = match e.kind {
                EntityKind::Struct => SupportedEncodings::all(),
                EntityKind::Exception => if e.base.is_some() {
                    SupportedEncodings::only(Encoding::Slice1)
                } else {
                    SupportedEncodings::all()
                },
                EntityKind::Class => SupportedEncodings::only(Encoding::Slice1),
                EntityKind::CustomType => SupportedEncodings::only(Encoding::Slice2),
            };
            assert(enc == own_encodings(e));
            let mut m = SupportedEncodings::all();
            proof {
                lemma_table_len(self.entities@, i as nat);
            }
            let mut k: usize = 0;
            while k < e.members.len()
                invariant
                    k <= e.members@.len(),
                    i < table@.len() + 1,
                    table@.len() == i,
                    entity_wf(self.entities@, i as int),
                    *e == self.entities@[i as int],
                    m == members_encodings(table@, e.members@.subrange(0, k as int)),
                decreases e.members@.len() - k,
            {
                let t = match e.members[k].data_type.definition {
                    DataType::Primitive(p) => p.supported_encodings(),
                    DataType::Entity(j) => {
                        assert(type_is_before(e.members@[k as int].data_type.definition, i as int));
                        table[j]
                    },
                };
                assert(e.members@.subrange(0, k + 1).drop_last() =~= e.members@.subrange(0, k as int));
                m = m.intersect(&t);
                k = k + 1;
            }
            assert(e.members@.subrange(0, e.members@.len() as int) =~= e.members@);
            enc = enc.intersect(&m);
            let b = match e.base {
                Some(b) => table[b],
                None => SupportedEncodings::all(),
            };
            enc = enc.intersect(&b);
            table.push(enc);
            i = i + 1;
        }
        self.encodings = table;
    }

    /// The supported encodings of the entity at `i`; they must have been resolved first.
    pub fn supported_encodings(&self, i: usize) -> (r: SupportedEncodings)
        requires
            self.is_resolved(),
            i < self.entities@.len(),
        ensures
            r == self.spec_encodings(i as int),
    {
        proof { lemma_table_len(self.entities@, self.entities@.len()); }
        self.encodings[i]
    }

    /// The supported encodings of the entity at `i`, or `None` while they are not resolved.
    pub fn try_supported_encodings(&self, i: usize) -> (r: Option<SupportedEncodings>)
        requires
            i < self.entities@.len(),
        ensures
            self.is_resolved() ==> r == Some(self.spec_encodings(i as int)),
            self.encodings@.len() == 0 ==> r is None,
    {
        proof {
            lemma_table_len(self.entities@, self.entities@.len());
        }
        if i < self.encodings.len() {
            Some(self.encodings[i])
        } else {
            None
        }
    }

    /// True when the entity is a class.
    pub fn is_class_type(&self, i: usize) -> (r: bool)
        requires
            i < self.entities@.len(),
        ensures
            r == (self.entities@[i as int].kind == EntityKind::Class),
    {
        match self.entities[i].kind {
            EntityKind::Class => true,
            _ => false,
        }
    }
}

/// A type that only the target language defines; the Slice2 encoding alone supports it.
#[derive(Debug)]
pub struct CustomType {
    pub identifier: String,
    pub span: Span,
    pub supported_encodings: Option<SupportedEncodings>,
}

impl CustomType {
    pub fn new(identifier: String, span: Span) -> (r: CustomType)
        ensures
            r.identifier == identifier,
            r.span == span,
            r.supported_encodings == Some(SupportedEncodings { slice1: false, slice2: true }),
    {
        CustomType { identifier, span, supported_encodings: Some(SupportedEncodings::only(Encoding::Slice2)) }
    }

    pub fn type_string(&self) -> (r: String)
        ensures
            r@ == self.identifier@,
    {
        self.identifier.clone()
    }

    pub fn fixed_wire_size(&self) -> (r: Option<u32>)
        ensures
            r is None,
    {
        None
    }

    pub fn is_class_type(&self) -> (r: bool)
        ensures
            !r,
    {
        false
    }

    /// Custom types exist only under Slice2, which has no tag formats.
    pub fn tag_format(&self) -> (r: Option<TagFormat>)
        ensures
            r is None,
    {
        None
    }

    /// The resolved encodings; asking before they are set is a programming error.
    pub fn supported_encodings(&self) -> (r: SupportedEncodings)
        requires
            self.supported_encodings is Some,
        ensures
            Some(r) == self.supported_encodings,
    {
        self.supported_encodings.unwrap()
    }
}

/// A parameter or a return member of an operation.
#[derive(Debug)]
pub struct Parameter {
    pub identifier: String,
    pub scoped_identifier: String,
    pub data_type: TypeRef,
    pub tag: Option<u32>,
    pub is_streamed: bool,
    pub span: Span,
}

/// An exception named in a `throws` clause: the index of an exception entity.
#[derive(Debug)]
pub struct ExceptionRef {
    pub definition: usize,
    pub span: Span,
}

#[derive(Debug)]
pub struct ParamTag {
    pub identifier: String,
    pub span: Span,
}

#[derive(Debug)]
pub struct ReturnsTag {
    pub identifier: Option<String>,
    pub span: Span,
    pub message_span: Span,
}

/// A `throws` tag; `thrown_type` is the exception entity it names, when that resolved.
#[derive(Debug)]
pub struct ThrowsTag {
    pub thrown_type: Option<usize>,
    pub span: Span,
    pub message_span: Span,
}

/// A parsed doc comment.
#[derive(Debug)]
pub struct DocComment {
    pub overview: String,
    pub params: Vec<ParamTag>,
    pub returns: Vec<ReturnsTag>,
    pub throws: Vec<ThrowsTag>,
}

/// A remote procedure of an interface.
#[derive(Debug)]
pub struct Operation {
    pub identifier: String,
    pub scoped_identifier: String,
    pub parameters: Vec<Parameter>,
    pub return_members: Vec<Parameter>,
    /// The return type was written as a parenthesized tuple.
    pub returns_tuple: bool,
    pub exception_specification: Vec<ExceptionRef>,
    pub encoding: Encoding,
    pub comment: Option<DocComment>,
    pub has_encoded_result: bool,
    pub span: Span,
}

impl Operation {
    /// Every exception of the `throws` clause, and every resolved `throws` tag, names an exception
    /// entity of `ast`.
    pub open spec fn refs_wf(&self, ast: &Ast) -> bool {
        &&& forall|k: int| 0 <= k < self.exception_specification@.len() ==> (#[trigger] self.exception_specification@[k]).definition < ast.entities@.len()
        &&& (self.comment matches Some(c) ==> forall|k: int| 0 <= k < c.throws@.len() ==> ((#[trigger] c.throws@[k]).thrown_type matches Some(d) ==> d < ast.entities@.len()))
    }
}

pub open spec fn is_compatible(entities: Seq<Entity>, thrown: int, documented: int) -> bool
    decreases documented,
{
    if documented < 0 || documented >= entities.len() {
        false
    } else if thrown == documented {
        true
    } else {
        match entities[documented].base {
            Some(b) => b < documented && is_compatible(entities, thrown, b as int),
            None => false,
        }
    }
}

pub proof fn lemma_table_len(entities: Seq<Entity>, n: nat)
    ensures
        encodings_table(entities, n).len() == n,
    decreases n,
{
    if n > 0 {
        lemma_table_len(entities, (n - 1) as nat);
    }
}

/// Each entry of the table does not change as more entities are resolved.
pub proof fn lemma_table_prefix(entities: Seq<Entity>, n: nat, m: nat, i: int)
    requires
        0 <= i < n <= m,
    ensures
        encodings_table(entities, m)[i] == encodings_table(entities, n)[i],
    decreases m,
{
    lemma_table_len(entities, n);
    if m > n {
        lemma_table_prefix(entities, n, (m - 1) as nat, i);
        lemma_table_len(entities, (m - 1) as nat);
    }
}

proof fn lemma_members_has(table: Seq<SupportedEncodings>, members: Seq<Member>, x: Encoding)
    ensures
        members_encodings(table, members).has(x) <==> forall|k: int|
            0 <= k < members.len() ==> type_encodings(table, #[trigger] members[k].data_type.definition).has(x),
    decreases members.len(),
{
    if members.len() > 0 {
        let rest = members.drop_last();
        lemma_members_has(table, rest, x);
        assert forall|k: int| 0 <= k < rest.len() implies #[trigger] rest[k] == members[k] by {}
        if members_encodings(table, members).has(x) {
            assert forall|k: int| 0 <= k < members.len() implies type_encodings(
                table,
                #[trigger] members[k].data_type.definition,
            ).has(x) by {
                if k < members.len() - 1 {
                    assert(rest[k] == members[k]);
                }
            }
        }
        if forall|k: int|
            0 <= k < members.len() ==> type_encodings(table, #[trigger] members[k].data_type.definition).has(x) {
            assert forall|k: int| 0 <= k < rest.len() implies type_encodings(
                table,
                #[trigger] rest[k].data_type.definition,
            ).has(x) by {
                assert(members[k] == rest[k]);
            }
        }
    }
}

/// The encodings of an entity are exactly those that its own declaration allows and that every
/// member type and its base support; so a class anywhere in what an entity holds removes Slice2.
pub proof fn lemma_supported_encodings(ast: &Ast, i: int)
    requires
        ast.wf(),
        0 <= i < ast.entities@.len(),
    ensures
        ({
            let e = ast.entities@[i];
            let table = encodings_table(ast.entities@, i as nat);
            ast.spec_encodings(i) == own_encodings(&e).meet(members_encodings(table, e.members@)).meet(
                base_encodings(table, e.base))
        }),
        forall|x: Encoding| #[trigger] ast.spec_encodings(i).has(x) <==> {
            let e = ast.entities@[i];
            &&& own_encodings(&e).has(x)
            &&& forall|k: int| 0 <= k < e.members@.len() ==> (match #[trigger] e.members@[k].data_type.definition {
                DataType::Primitive(p) => primitive_encodings(p).has(x),
                DataType::Entity(j) => ast.spec_encodings(j as int).has(x),
            })
            &&& (e.base matches Some(b) ==> ast.spec_encodings(b as int).has(x))
        },
        holds_class(ast.entities@, i) ==> !ast.spec_encodings(i).slice2,
    decreases i,
{
    let ents = ast.entities@;
    let n = ents.len();
    let e = ents[i];
    let t = encodings_table(ents, i as nat);
    lemma_table_len(ents, i as nat);
    lemma_table_prefix(ents, (i + 1) as nat, n, i);
    assert(entity_wf(ents, i));
    assert forall|x: Encoding| #[trigger] ast.spec_encodings(i).has(x) <==> {
        &&& own_encodings(&e).has(x)
        &&& forall|k: int| 0 <= k < e.members@.len() ==> (match #[trigger] e.members@[k].data_type.definition {
            DataType::Primitive(p) => primitive_encodings(p).has(x),
            DataType::Entity(j) => ast.spec_encodings(j as int).has(x),
        })
        &&& (e.base matches Some(b) ==> ast.spec_encodings(b as int).has(x))
    } by {
        lemma_members_has(t, e.members@, x);
        assert forall|k: int| 0 <= k < e.members@.len() implies (match #[trigger] e.members@[k].data_type.definition {
            DataType::Primitive(p) => primitive_encodings(p).has(x),
            DataType::Entity(j) => ast.spec_encodings(j as int).has(x),
        }) == type_encodings(t, e.members@[k].data_type.definition).has(x) by {
            assert(type_is_before(e.members@[k].data_type.definition, i));
            if let DataType::Entity(j) = e.members@[k].data_type.definition {
                lemma_table_prefix(ents, i as nat, n, j as int);
            }
        }
        if let Some(b) = e.base {
            lemma_table_prefix(ents, i as nat, n, b as int);
        }
    }
    if holds_class(ents, i) && e.kind != EntityKind::Class {
        if exists|k: int| 0 <= k < e.members@.len() && #[trigger] member_holds_class(e.members@[k], i) && (
            match e.members@[k].data_type.definition {
                DataType::Primitive(p) => p == Primitive::AnyClass,
                DataType::Entity(j) => j < i && holds_class(ents, j as int),
            }) {
            let k = choose|k: int| 0 <= k < e.members@.len() && #[trigger] member_holds_class(e.members@[k], i) && (
                match e.members@[k].data_type.definition {
                    DataType::Primitive(p) => p == Primitive::AnyClass,
                    DataType::Entity(j) => j < i && holds_class(ents, j as int),
                });
            if let DataType::Entity(j) = e.members@[k].data_type.definition {
                lemma_supported_encodings(ast, j as int);
            }
            assert(!ast.spec_encodings(i).has(Encoding::Slice2));
        } else if let Some(b) = e.base {
            lemma_supported_encodings(ast, b as int);
            assert(!ast.spec_encodings(i).has(Encoding::Slice2));
        }
    }
    if e.kind == EntityKind::Class {
        assert(!ast.spec_encodings(i).has(Encoding::Slice2));
    }
    assert(holds_class(ents, i) ==> !ast.spec_encodings(i).has(Encoding::Slice2));
}

} // verus!
