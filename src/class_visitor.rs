use vstd::prelude::*;

use crate::grammar::{entity_wf, Ast, Entity, EntityKind};

verus! {

/// A member of the entity at index `entity`: its position `member` in that entity's members.
#[derive(Clone, Copy, Debug, PartialEq, Eq, Structural)]
pub struct MemberRef {
    pub entity: usize,
    pub member: usize,
}

pub open spec fn own_members(entities: Seq<Entity>, c: int) -> Seq<MemberRef> {
    Seq::new(entities[c].members@.len(), |k: int| MemberRef { entity: c as usize, member: k as usize })
}

/// The members of the class at `c` and of all its bases, base-to-derived, each in declaration order.
pub open spec fn all_members(entities: Seq<Entity>, c: int) -> Seq<MemberRef>
    decreases c,
{
    if c < 0 || c >= entities.len() {
        Seq::empty()
    } else {
        match entities[c].base {
            Some(b) => if b < c {
                all_members(entities, b as int) + own_members(entities, c)
            } else {
                own_members(entities, c)
            },
            None => own_members(entities, c),
        }
    }
}

/// The members of the base of `c` and of its bases.
pub open spec fn base_members(entities: Seq<Entity>, c: int) -> Seq<MemberRef> {
    match entities[c].base {
        Some(b) => all_members(entities, b as int),
        None => Seq::empty(),
    }
}

pub open spec fn is_defaulted(entities: Seq<Entity>, m: MemberRef) -> bool {
    entities[m.entity as int].members@[m.member as int].has_default
}

/// The members of `s` that have no default initializer, in order.
pub open spec fn mandatory(entities: Seq<Entity>, s: Seq<MemberRef>) -> Seq<MemberRef>
    decreases s.len(),
{
    if s.len() == 0 {
        Seq::empty()
    } else if is_defaulted(entities, s.last()) {
        mandatory(entities, s.drop_last())
    } else {
        mandatory(entities, s.drop_last()).push(s.last())
    }
}

/// A generated constructor: its parameters, what it passes to the base constructor, and the fields
/// its body assigns.
#[derive(Debug)]
pub struct Constructor {
    pub parameters: Vec<MemberRef>,
    pub base_arguments: Vec<MemberRef>,
    pub assignments: Vec<MemberRef>,
}

/// How a class writes and reads its own slice.
#[derive(Debug)]
pub struct SliceCode {
    /// Start-slice arguments: the type id, and the compact id when the class has one.
    pub compact_id: Option<u32>,
    /// The members this level writes and reads, in declaration order.
    pub members: Vec<MemberRef>,
    /// The slice is the last one (the class has no base), so no base encoder or decoder follows.
    pub is_last: bool,
}

/// What is generated for one class.
#[derive(Debug)]
pub struct ClassCode {
    pub class: usize,
    pub base: Option<usize>,
    pub fields: Vec<MemberRef>,
    pub constructors: Vec<Constructor>,
    /// The fields that the decoding constructor initializes with placeholders.
    pub decode_initialized: Vec<MemberRef>,
    pub slice: SliceCode,
}

/// Collects the generated code of each class it visits.
#[derive(Debug)]
pub struct ClassVisitor {
    pub code_map: Vec<ClassCode>,
}

pub open spec fn wf_class(ast: &Ast, c: int) -> bool {
    &&& ast.wf()
    &&& 0 <= c < ast.entities@.len()
    &&& ast.entities@[c].kind == EntityKind::Class
}

fn own_member_refs(ast: &Ast, c: usize) -> (r: Vec<MemberRef>)
    requires
        c < ast.entities@.len(),
    ensures
        r@ == own_members(ast.entities@, c as int),
{
    let n = ast.entities[c].members.len();
    let mut r: Vec<MemberRef> = Vec::new();
    let mut k: usize = 0;
    while k < n
        invariant
            n == ast.entities@[c as int].members@.len(),
            k <= n,
            r@ =~= own_members(ast.entities@, c as int).take(k as int),
        decreases n - k,
    {
        r.push(MemberRef { entity: c, member: k });
        k = k + 1;
    }
    assert(own_members(ast.entities@, c as int).take(n as int) =~= own_members(ast.entities@, c as int));
    r
}

/// The members of the class at `c` and of its bases, base-to-derived.
pub fn all_data_members(ast: &Ast, c: usize) -> (r: Vec<MemberRef>)
    requires
        ast.wf(),
        c < ast.entities@.len(),
    ensures
        r@ == all_members(ast.entities@, c as int),
    decreases c,
{
    proof {
        assert(entity_wf(ast.entities@, c as int));
    }
    match ast.entities[c].base {
        Some(b) => {
            let mut r = all_data_members(ast, b);
            let mut own = own_member_refs(ast, c);
            r.append(&mut own);
            r
        },
        None => own_member_refs(ast, c),
    }
}

/// The members of `s` without a default initializer, in order.
pub fn mandatory_members(ast: &Ast, s: &Vec<MemberRef>) -> (r: Vec<MemberRef>)
    requires
        forall|k: int| 0 <= k < s@.len() ==> (#[trigger] s@[k]).entity < ast.entities@.len()
            && s@[k].member < ast.entities@[s@[k].entity as int].members@.len(),
    ensures
        r@ == mandatory(ast.entities@, s@),
{
    let mut r: Vec<MemberRef> = Vec::new();
    let mut k: usize = 0;
    while k < s.len()
        invariant
            k <= s@.len(),
            forall|j: int| 0 <= j < s@.len() ==> (#[trigger] s@[j]).entity < ast.entities@.len()
                && s@[j].member < ast.entities@[s@[j].entity as int].members@.len(),
            r@ == mandatory(ast.entities@, s@.take(k as int)),
        decreases s@.len() - k,
    {
        let m = s[k];
        assert(s@.take(k + 1).drop_last() =~= s@.take(k as int));
        assert(s@.take(k + 1).last() == m);
        if !ast.entities[m.entity].members[m.member].has_default {
            r.push(m);
        }
        k = k + 1;
    }
    assert(s@.take(s@.len() as int) =~= s@);
    r
}

proof fn lemma_all_members_valid(ast: &Ast, c: int)
    requires
        ast.wf(),
        ast.entities@.len() <= usize::MAX,
        0 <= c < ast.entities@.len(),
    ensures
        forall|k: int| 0 <= k < all_members(ast.entities@, c).len() ==> {
            let m = #[trigger] all_members(ast.entities@, c)[k];
            m.entity <= c && m.member < ast.entities@[m.entity as int].members@.len()
        },
    decreases c,
{
    assert(entity_wf(ast.entities@, c));
    if let Some(b) = ast.entities@[c].base {
        lemma_all_members_valid(ast, b as int);
        let a = all_members(ast.entities@, b as int);
        assert forall|k: int| 0 <= k < all_members(ast.entities@, c).len() implies {
            let m = #[trigger] all_members(ast.entities@, c)[k];
            m.entity <= c && m.member < ast.entities@[m.entity as int].members@.len()
        } by {
            if k < a.len() {
                assert(all_members(ast.entities@, c)[k] == a[k]);
            } else {
                assert(all_members(ast.entities@, c)[k] == own_members(ast.entities@, c)[k - a.len()]);
            }
        }
    } else {
        assert forall|k: int| 0 <= k < all_members(ast.entities@, c).len() implies {
            let m = #[trigger] all_members(ast.entities@, c)[k];
            m.entity <= c && m.member < ast.entities@[m.entity as int].members@.len()
        } by {
            assert(all_members(ast.entities@, c)[k] == own_members(ast.entities@, c)[k]);
        }
    }
}

/// The "one-shot" constructor over every member of the chain, then, when some members have a
/// default initializer, a second one over the others; a class without members gets a single
/// parameterless constructor.
pub fn primary_constructors(ast: &Ast, c: usize) -> (r: Vec<Constructor>)
    requires
        wf_class(ast, c as int),
    ensures
        ({
            let ents = ast.entities@;
            let all = all_members(ents, c as int);
            let base = base_members(ents, c as int);
            let own = own_members(ents, c as int);
            &&& all.len() == 0 ==> r@.len() == 1 && r@[0].parameters@.len() == 0 && r@[0].base_arguments@.len() == 0
                && r@[0].assignments@.len() == 0
            &&& all.len() > 0 ==> {
                &&& r@.len() == if mandatory(ents, all).len() < all.len() { 2int } else { 1int }
                &&& r@[0].parameters@ == all
                &&& r@[0].base_arguments@ == base
                &&& r@[0].assignments@ == own
                &&& r@.len() == 2 ==> r@[1].parameters@ == mandatory(ents, all) && r@[1].base_arguments@
                    == mandatory(ents, base) && r@[1].assignments@ == mandatory(ents, own)
            }
        }),
{
    let all = all_data_members(ast, c);
    let mut r: Vec<Constructor> = Vec::new();
    if all.len() == 0 {
        r.push(Constructor { parameters: Vec::new(), base_arguments: Vec::new(), assignments: Vec::new() });
        return r;
    }
    let entity_count = ast.entities.len();
    proof {
        assert(entity_wf(ast.entities@, c as int));
        assert(ast.entities@.len() == entity_count);
        lemma_all_members_valid(ast, c as int);
        if let Some(b) = ast.entities@[c as int].base {
            lemma_all_members_valid(ast, b as int);
        }
    }
    let base = match ast.entities[c].base {
        Some(b) => all_data_members(ast, b),
        None => Vec::new(),
    };
    let own = own_member_refs(ast, c);
    let all_mandatory = mandatory_members(ast, &all);
    let base_mandatory = mandatory_members(ast, &base);
    let own_mandatory = mandatory_members(ast, &own);
    let second = all_mandatory.len() < all.len();
    r.push(Constructor { parameters: all, base_arguments: base, assignments: own });
    if second {
        r.push(Constructor { parameters: all_mandatory, base_arguments: base_mandatory, assignments: own_mandatory });
    }
    r
}

/// How the class at `c` encodes and decodes its own slice.
pub fn encode_and_decode(ast: &Ast, c: usize) -> (r: SliceCode)
    requires
        wf_class(ast, c as int),
    ensures
        r.compact_id == ast.entities@[c as int].compact_id,
        r.members@ == own_members(ast.entities@, c as int),
        r.is_last == (ast.entities@[c as int].base is None),
{
    SliceCode {
        compact_id: ast.entities[c].compact_id,
        members: own_member_refs(ast, c),
        is_last: ast.entities[c].base.is_none(),
    }
}

impl ClassVisitor {
    pub fn new() -> (r: ClassVisitor)
        ensures
            r.code_map@.len() == 0,
    {
        ClassVisitor { code_map: Vec::new() }
    }

    /// Generates the code of the class at `c`: its fields, its constructors (the primary ones,
    /// and one for decoding that initializes the fields without a default), and its slice code.
    pub fn visit_class_start(&mut self, ast: &Ast, c: usize)
        requires
            wf_class(ast, c as int),
        ensures
            final(self).code_map@.len() == old(self).code_map@.len() + 1,
            final(self).code_map@.take(old(self).code_map@.len() as int) == old(self).code_map@,
            ({
                let code = final(self).code_map@.last();
                let ents = ast.entities@;
                &&& code.class == c
                &&& code.base == ents[c as int].base
                &&& code.fields@ == own_members(ents, c as int)
                &&& code.decode_initialized@ == mandatory(ents, own_members(ents, c as int))
                &&& code.slice.compact_id == ents[c as int].compact_id
                &&& code.slice.members@ == own_members(ents, c as int)
                &&& code.slice.is_last == (ents[c as int].base is None)
                &&& all_members(ents, c as int).len() == 0 ==> code.constructors@.len() == 1
                &&& all_members(ents, c as int).len() > 0 ==> code.constructors@.len() == if mandatory(
                    ents,
                    all_members(ents, c as int),
                ).len() < all_members(ents, c as int).len() {
                    2int
                } else {
                    1int
                }
            }),
    {
        let fields = own_member_refs(ast, c);
        let decode_initialized = mandatory_members(ast, &fields);
        let constructors = primary_constructors(ast, c);
        let slice = encode_and_decode(ast, c);
        let code = ClassCode { class: c, base: ast.entities[c].base, fields, constructors, decode_initialized, slice };
        let ghost before = self.code_map@;
        self.code_map.push(code);
        assert(self.code_map@.take(before.len() as int) =~= before);
    }
}

} // verus!
