use vstd::prelude::*;

use crate::grammar::{entity_wf, Ast, Entity, EntityKind};

verus! {

/// A member value carried on the wire.
#[derive(Clone, Copy, Debug, PartialEq, Eq, Structural)]
pub enum Value {
    Bool(bool),
    Int(i64),
}

/// One item of an encoded class instance.
#[derive(Debug, PartialEq, Eq)]
pub enum SliceItem {
    StartSlice { type_id: String, compact_id: Option<u32>, is_last: bool },
    Member(Value),
    EndSlice,
}

pub enum ItemView {
    StartSlice { type_id: Seq<char>, compact_id: Option<u32>, is_last: bool },
    Member(Value),
    EndSlice,
}

impl View for SliceItem {
    type V = ItemView;

    open spec fn view(&self) -> ItemView {
        match self {
            SliceItem::StartSlice { type_id, compact_id, is_last } => ItemView::StartSlice {
                type_id: type_id@,
                compact_id: *compact_id,
                is_last: *is_last,
            },
            SliceItem::Member(v) => ItemView::Member(*v),
            SliceItem::EndSlice => ItemView::EndSlice,
        }
    }
}

pub open spec fn items_view(items: Seq<SliceItem>) -> Seq<ItemView> {
    items.map_values(|i: SliceItem| i@)
}

/// The inheritance chain of the class at `c`: itself, then its base, up to the root.
pub open spec fn class_chain(entities: Seq<Entity>, c: int) -> Seq<int>
    decreases c,
{
    if c < 0 || c >= entities.len() {
        Seq::empty()
    } else {
        seq![c] + match entities[c].base {
            Some(b) => if b < c {
                class_chain(entities, b as int)
            } else {
                Seq::empty()
            },
            None => Seq::empty(),
        }
    }
}

/// The slice of one level: its start (type id, compact id, and whether it is the root), its
/// members in declaration order, and its end.
pub open spec fn level_items(e: Entity, values: Seq<Value>) -> Seq<ItemView> {
    seq![ItemView::StartSlice { type_id: e.identifier@, compact_id: e.compact_id, is_last: e.base is None }]
        + values.map_values(|v: Value| ItemView::Member(v)) + seq![ItemView::EndSlice]
}

/// The slices of the levels of `chain`, most-derived first.
pub open spec fn slices_of(entities: Seq<Entity>, chain: Seq<int>, levels: Seq<Seq<Value>>) -> Seq<ItemView>
    decreases chain.len(),
{
    if chain.len() == 0 || levels.len() == 0 {
        Seq::empty()
    } else {
        slices_of(entities, chain.drop_last(), levels.drop_last()) + level_items(
            entities[chain.last()],
            levels.last(),
        )
    }
}

/// `levels` holds one list of values per level of `chain`, each as long as that level's members.
pub open spec fn fits(entities: Seq<Entity>, chain: Seq<int>, levels: Seq<Seq<Value>>) -> bool {
    &&& levels.len() == chain.len()
    &&& forall|l: int| 0 <= l < chain.len() ==> (#[trigger] levels[l]).len() == entities[chain[l]].members@.len()
}

/// The wire form of an instance of the class at `c`.
pub open spec fn encoded(ast: &Ast, c: int, levels: Seq<Seq<Value>>) -> Seq<ItemView> {
    slices_of(ast.entities@, class_chain(ast.entities@, c), levels)
}

pub open spec fn is_class(ast: &Ast, c: int) -> bool {
    0 <= c < ast.entities@.len() && ast.entities@[c].kind == EntityKind::Class
}

proof fn lemma_chain(ast: &Ast, c: int)
    requires
        ast.wf(),
        0 <= c < ast.entities@.len(),
    ensures
        ({
            let ch = class_chain(ast.entities@, c);
            &&& ch.len() >= 1
            &&& ch[0] == c
            &&& forall|l: int| 0 <= l < ch.len() ==> 0 <= #[trigger] ch[l] < ast.entities@.len()
            &&& forall|l: int| 0 <= l < ch.len() - 1 ==> ast.entities@[#[trigger] ch[l]].base == Some(ch[l + 1] as usize)
            &&& ast.entities@[ch.last()].base is None
            &&& ast.entities@[c].kind == EntityKind::Class ==> forall|l: int| 0 <= l < ch.len() ==> ast.entities@[#[trigger] ch[l]].kind == EntityKind::Class
        }),
    decreases c,
{
    assert(entity_wf(ast.entities@, c));
    if let Some(b) = ast.entities@[c].base {
        lemma_chain(ast, b as int);
        let ch = class_chain(ast.entities@, c);
        let rest = class_chain(ast.entities@, b as int);
        assert(ch =~= seq![c] + rest);
        assert forall|l: int| 0 <= l < ch.len() - 1 implies ast.entities@[#[trigger] ch[l]].base == Some(ch[l + 1] as usize) by {
            if l > 0 {
                assert(ch[l] == rest[l - 1]);
                assert(ch[l + 1] == rest[l]);
            }
        }
        assert forall|l: int| 0 <= l < ch.len() implies 0 <= #[trigger] ch[l] < ast.entities@.len() by {
            if l > 0 {
                assert(ch[l] == rest[l - 1]);
            }
        }
        if ast.entities@[c].kind == EntityKind::Class {
            assert forall|l: int| 0 <= l < ch.len() implies ast.entities@[#[trigger] ch[l]].kind == EntityKind::Class by {
                if l > 0 {
                    assert(ch[l] == rest[l - 1]);
                }
            }
        }
    }
}

proof fn lemma_slices_step(entities: Seq<Entity>, chain: Seq<int>, levels: Seq<Seq<Value>>, l: int)
    requires
        0 <= l < chain.len(),
        l < levels.len(),
    ensures
        slices_of(entities, chain.take(l + 1), levels.take(l + 1)) == slices_of(entities, chain.take(l), levels.take(l))
            + level_items(entities[chain[l]], levels[l]),
{
    assert(chain.take(l + 1).drop_last() =~= chain.take(l));
    assert(levels.take(l + 1).drop_last() =~= levels.take(l));
}

/// Encodes an instance of a class: one slice per level of its inheritance chain, most-derived
/// first, each holding that level's members.
pub fn encode_class(ast: &Ast, class: usize, levels: &Vec<Vec<Value>>) -> (r: Vec<SliceItem>)
    requires
        ast.wf(),
        is_class(ast, class as int),
        fits(ast.entities@, class_chain(ast.entities@, class as int), levels@.map_values(|v: Vec<Value>| v@)),
    ensures
        items_view(r@) == encoded(ast, class as int, levels@.map_values(|v: Vec<Value>| v@)),
{
    let ghost chain = class_chain(ast.entities@, class as int);
    let ghost lv = levels@.map_values(|v: Vec<Value>| v@);
    proof {
        lemma_chain(ast, class as int);
    }
    let mut r: Vec<SliceItem> = Vec::new();
    let mut c: usize = class;
    let mut l: usize = 0;
    assert(items_view(r@) =~= slices_of(ast.entities@, chain.take(0), lv.take(0)));
    while l < levels.len()
        invariant
            ast.wf(),
            chain == class_chain(ast.entities@, class as int),
            lv == levels@.map_values(|v: Vec<Value>| v@),
            fits(ast.entities@, chain, lv),
            l <= levels@.len(),
            l < levels@.len() ==> c == chain[l as int],
            forall|k: int| 0 <= k < chain.len() ==> 0 <= #[trigger] chain[k] < ast.entities@.len(),
            forall|k: int| 0 <= k < chain.len() - 1 ==> ast.entities@[#[trigger] chain[k]].base == Some(chain[k + 1] as usize),
            items_view(r@) == slices_of(ast.entities@, chain.take(l as int), lv.take(l as int)),
        decreases levels@.len() - l,
    {
        let e = &ast.entities[c];
        let ghost before = items_view(r@);
        let ghost prev = r@;
        r.push(SliceItem::StartSlice { type_id: e.identifier.clone(), compact_id: e.compact_id, is_last: e.base.is_none() });
        assert(items_view(r@) =~= before.push(ItemView::StartSlice { type_id: e.identifier@, compact_id: e.compact_id, is_last: e.base is None }));
        let values = &levels[l];
        let mut k: usize = 0;
        while k < values.len()
            invariant
                k <= values@.len(),
                before == slices_of(ast.entities@, chain.take(l as int), lv.take(l as int)),
                l < levels@.len(),
                c == chain[l as int],
                *e == ast.entities@[c as int],
                items_view(r@) == before + seq![ItemView::StartSlice { type_id: e.identifier@, compact_id: e.compact_id, is_last: e.base is None }]
                    + values@.take(k as int).map_values(|v: Value| ItemView::Member(v)),
            decreases values@.len() - k,
        {
            let ghost prev = r@;
            r.push(SliceItem::Member(values[k]));
            assert(items_view(r@) =~= items_view(prev).push(ItemView::Member(values@[k as int])));
            assert(values@.take(k + 1).map_values(|v: Value| ItemView::Member(v)) =~= values@.take(k as int).map_values(|v: Value| ItemView::Member(v)).push(ItemView::Member(values@[k as int])));
            assert(items_view(r@) =~= before + seq![ItemView::StartSlice { type_id: e.identifier@, compact_id: e.compact_id, is_last: e.base is None }]
                    + values@.take(k + 1).map_values(|v: Value| ItemView::Member(v)));
            k = k + 1;
        }
        let ghost prev = r@;
        r.push(SliceItem::EndSlice);
        proof {
            assert(items_view(r@) =~= items_view(prev).push(ItemView::EndSlice));
            assert(values@.take(values@.len() as int) =~= values@);
            assert(lv[l as int] == values@);
            lemma_slices_step(ast.entities@, chain, lv, l as int);
            assert(items_view(r@) =~= slices_of(ast.entities@, chain.take(l + 1), lv.take(l + 1)));
        }
        let entity_count = ast.entities.len();
        if l + 1 < levels.len() {
            assert(ast.entities@[chain[l as int]].base == Some(chain[l + 1] as usize));
            assert(0 <= chain[l + 1] < entity_count);
            c = e.base.unwrap();
        }
        l = l + 1;
    }
    assert(chain.take(l as int) =~= chain);
    assert(lv.take(l as int) =~= lv);
    r
}


pub open spec fn slices_len(entities: Seq<Entity>, chain: Seq<int>) -> int
    decreases chain.len(),
{
    if chain.len() == 0 {
        0
    } else {
        slices_len(entities, chain.drop_last()) + entities[chain.last()].members@.len() + 2
    }
}

proof fn lemma_slices_len(entities: Seq<Entity>, chain: Seq<int>, levels: Seq<Seq<Value>>)
    requires
        fits(entities, chain, levels),
    ensures
        slices_of(entities, chain, levels).len() == slices_len(entities, chain),
    decreases chain.len(),
{
    if chain.len() > 0 {
        assert(fits(entities, chain.drop_last(), levels.drop_last())) by {
            assert forall|l: int| 0 <= l < chain.drop_last().len() implies (#[trigger] levels.drop_last()[l]).len()
                == entities[chain.drop_last()[l]].members@.len() by {
                assert(levels.drop_last()[l] == levels[l]);
                assert(chain.drop_last()[l] == chain[l]);
            }
        }
        lemma_slices_len(entities, chain.drop_last(), levels.drop_last());
        assert(levels.last() == levels[levels.len() - 1]);
    }
}

proof fn lemma_fits_take(entities: Seq<Entity>, chain: Seq<int>, levels: Seq<Seq<Value>>, m: int)
    requires
        fits(entities, chain, levels),
        0 <= m <= chain.len(),
    ensures
        fits(entities, chain.take(m), levels.take(m)),
{
    assert forall|l: int| 0 <= l < chain.take(m).len() implies (#[trigger] levels.take(m)[l]).len()
        == entities[chain.take(m)[l]].members@.len() by {
        assert(levels.take(m)[l] == levels[l]);
        assert(chain.take(m)[l] == chain[l]);
    }
}

/// Two instances of one chain that encode alike hold the same values.
proof fn lemma_slices_injective(entities: Seq<Entity>, chain: Seq<int>, a: Seq<Seq<Value>>, b: Seq<Seq<Value>>)
    requires
        fits(entities, chain, a),
        fits(entities, chain, b),
        slices_of(entities, chain, a) == slices_of(entities, chain, b),
    ensures
        a == b,
    decreases chain.len(),
{
    if chain.len() > 0 {
        let n = chain.len() - 1;
        lemma_fits_take(entities, chain, a, n);
        lemma_fits_take(entities, chain, b, n);
        assert(chain.drop_last() =~= chain.take(n));
        assert(a.drop_last() =~= a.take(n));
        assert(b.drop_last() =~= b.take(n));
        lemma_slices_len(entities, chain.drop_last(), a.drop_last());
        lemma_slices_len(entities, chain.drop_last(), b.drop_last());
        let pa = slices_of(entities, chain.drop_last(), a.drop_last());
        let pb = slices_of(entities, chain.drop_last(), b.drop_last());
        let la = level_items(entities[chain.last()], a.last());
        let lb = level_items(entities[chain.last()], b.last());
        let whole = slices_of(entities, chain, a);
        assert(pa =~= whole.subrange(0, pa.len() as int));
        assert(pb =~= whole.subrange(0, pb.len() as int));
        lemma_slices_injective(entities, chain.drop_last(), a.drop_last(), b.drop_last());
        assert(la =~= whole.subrange(pa.len() as int, whole.len() as int));
        assert(lb =~= whole.subrange(pb.len() as int, whole.len() as int));
        assert(a.last().len() == b.last().len()) by {
            assert(a[n].len() == entities[chain[n]].members@.len());
            assert(b[n].len() == entities[chain[n]].members@.len());
        }
        assert forall|k: int| 0 <= k < a.last().len() implies a.last()[k] == b.last()[k] by {
            assert(la[k + 1] == lb[k + 1]);
        }
        assert(a.last() =~= b.last());
        assert(a =~= a.drop_last().push(a.last()));
        assert(b =~= b.drop_last().push(b.last()));
    }
}

/// Round trip: decoding what `encode_class` wrote gives back the values of every level, also of
/// a level that has no members; no other values encode to the same items.
pub proof fn lemma_round_trip(ast: &Ast, class: int, levels: Seq<Seq<Value>>, decoded: Seq<Seq<Value>>)
    requires
        fits(ast.entities@, class_chain(ast.entities@, class), levels),
        fits(ast.entities@, class_chain(ast.entities@, class), decoded),
        encoded(ast, class, decoded) == encoded(ast, class, levels),
    ensures
        decoded == levels,
{
    lemma_slices_injective(ast.entities@, class_chain(ast.entities@, class), decoded, levels);
}

/// The prefix of an encoding that covers its first `m` levels.
proof fn lemma_slices_prefix(entities: Seq<Entity>, chain: Seq<int>, levels: Seq<Seq<Value>>, m: int)
    requires
        fits(entities, chain, levels),
        0 <= m <= chain.len(),
    ensures
        slices_len(entities, chain.take(m)) <= slices_of(entities, chain, levels).len(),
        slices_of(entities, chain.take(m), levels.take(m)) =~= slices_of(entities, chain, levels).take(
            slices_len(entities, chain.take(m)),
        ),
    decreases chain.len(),
{
    lemma_fits_take(entities, chain, levels, m);
    lemma_slices_len(entities, chain.take(m), levels.take(m));
    if m < chain.len() {
        let n = chain.len() - 1;
        lemma_fits_take(entities, chain, levels, n);
        assert(chain.drop_last() =~= chain.take(n));
        assert(levels.drop_last() =~= levels.take(n));
        lemma_slices_prefix(entities, chain.drop_last(), levels.drop_last(), m);
        assert(chain.drop_last().take(m) =~= chain.take(m));
        assert(levels.drop_last().take(m) =~= levels.take(m));
    } else {
        assert(chain.take(m) =~= chain);
        assert(levels.take(m) =~= levels);
        lemma_slices_len(entities, chain, levels);
    }
}

/// The items of `iv` from `pos` on start with the slice of `e` that holds `vs`.
pub open spec fn level_at(iv: Seq<ItemView>, pos: int, e: Entity, vs: Seq<Value>) -> bool {
    &&& vs.len() == e.members@.len()
    &&& 0 <= pos
    &&& pos + vs.len() + 2 <= iv.len()
    &&& iv.subrange(pos, pos + vs.len() + 2) == level_items(e, vs)
}

/// Reads one slice of the entity `e` at `pos`: start, then exactly its members, then end.
fn decode_level(e: &Entity, items: &Vec<SliceItem>, pos: usize) -> (r: Option<(Vec<Value>, usize)>)
    requires
        pos <= items@.len(),
    ensures
        r matches Some((vs, p)) ==> p == pos + vs@.len() + 2 && level_at(items_view(items@), pos as int, *e, vs@),
        (exists|vs: Seq<Value>| #[trigger] level_at(items_view(items@), pos as int, *e, vs)) ==> r is Some,
{
    let ghost iv = items_view(items@);
    let ghost wit: Option<Seq<Value>> = if exists|vs: Seq<Value>| #[trigger] level_at(iv, pos as int, *e, vs) {
        Some(choose|vs: Seq<Value>| #[trigger] level_at(iv, pos as int, *e, vs))
    } else {
        None
    };
    let m = e.members.len();
    if items.len() - pos < 2 || items.len() - pos - 2 < m {
        return None;
    }
    proof {
        if let Some(w) = wit {
            assert(level_items(*e, w)[0] == iv[pos as int]);
        }
    }
    let start_ok = match &items[pos] {
        SliceItem::StartSlice { type_id, compact_id, is_last } => {
            let same_id = match (compact_id, &e.compact_id) {
                (Some(x), Some(y)) => *x == *y,
                (None, None) => true,
                _ => false,
            };
            *type_id == e.identifier && same_id && *is_last == e.base.is_none()
        },
        _ => false,
    };
    if !start_ok {
        return None;
    }
    let mut vs: Vec<Value> = Vec::new();
    let mut k: usize = 0;
    let n_items = items.len();
    while k < m
        invariant
            n_items == items@.len(),
            m == e.members@.len(),
            pos + m + 2 <= items@.len(),
            iv == items_view(items@),
            wit matches Some(w) ==> level_at(iv, pos as int, *e, w) && w.take(k as int) == vs@,
            (exists|vs: Seq<Value>| #[trigger] level_at(iv, pos as int, *e, vs)) ==> wit is Some,
            k <= m,
            vs@.len() == k,
            forall|j: int| 0 <= j < k ==> items@[pos + 1 + j]@ == ItemView::Member(#[trigger] vs@[j]),
        decreases m - k,
    {
        proof {
            if let Some(w) = wit {
                assert(level_items(*e, w)[1 + k] == iv[pos + 1 + k]);
            }
        }
        match items[pos + 1 + k] {
            SliceItem::Member(v) => {
                vs.push(v);
                proof {
                    if let Some(w) = wit {
                        assert(w.take(k + 1) =~= vs@);
                    }
                }
            },
            _ => {
                proof {
                    if let Some(w) = wit {
                        assert(iv[pos + 1 + k] == items@[pos + 1 + k]@);
                    }
                }
                return None;
            },
        }
        k = k + 1;
    }
    proof {
        if let Some(w) = wit {
            assert(level_items(*e, w)[1 + m] == iv[pos + 1 + m]);
        }
    }
    match items[pos + 1 + m] {
        SliceItem::EndSlice => {},
        _ => {
            return None;
        },
    }
    let p = pos + m + 2;
    assert(items_view(items@).subrange(pos as int, p as int) =~= level_items(*e, vs@));
    Some((vs, p))
}

proof fn lemma_level_injective(e: Entity, a: Seq<Value>, b: Seq<Value>)
    requires
        a.len() == b.len(),
        level_items(e, a) == level_items(e, b),
    ensures
        a == b,
{
    assert forall|k: int| 0 <= k < a.len() implies a[k] == b[k] by {
        assert(level_items(e, a)[k + 1] == ItemView::Member(a[k]));
        assert(level_items(e, b)[k + 1] == ItemView::Member(b[k]));
    }
    assert(a =~= b);
}

/// Decodes an instance of the class at `class`: one slice per level of its chain, most-derived
/// first, each checked against that level's type id, compact id and root flag, then its members,
/// then its end; all items must be used. It succeeds exactly on what `encode_class` writes.
pub fn decode_class(ast: &Ast, class: usize, items: &Vec<SliceItem>) -> (r: Option<Vec<Vec<Value>>>)
    requires
        ast.wf(),
        is_class(ast, class as int),
    ensures
        r matches Some(ls) ==> {
            &&& fits(ast.entities@, class_chain(ast.entities@, class as int), ls@.map_values(|v: Vec<Value>| v@))
            &&& encoded(ast, class as int, ls@.map_values(|v: Vec<Value>| v@)) == items_view(items@)
        },
        (exists|ls: Seq<Seq<Value>>|
            fits(ast.entities@, class_chain(ast.entities@, class as int), ls) && #[trigger] encoded(
                ast,
                class as int,
                ls,
            ) == items_view(items@)) ==> r is Some,
{
    let ghost ents = ast.entities@;
    let ghost chain = class_chain(ents, class as int);
    let ghost iv = items_view(items@);
    let ghost wit: Option<Seq<Seq<Value>>> = if exists|ls: Seq<Seq<Value>>|
        fits(ents, chain, ls) && #[trigger] encoded(ast, class as int, ls) == iv {
        Some(choose|ls: Seq<Seq<Value>>| fits(ents, chain, ls) && #[trigger] encoded(ast, class as int, ls) == iv)
    } else {
        None
    };
    proof {
        lemma_chain(ast, class as int);
    }
    let mut out: Vec<Vec<Value>> = Vec::new();
    let mut c: usize = class;
    let mut l: usize = 0;
    let mut pos: usize = 0;
    let mut done = false;
    assert(chain.take(0) =~= Seq::<int>::empty());
    assert(iv.take(0) =~= slices_of(ents, chain.take(0), out@.map_values(|v: Vec<Value>| v@)));
    while !done
        invariant
            ast.wf(),
            ents == ast.entities@,
            chain == class_chain(ents, class as int),
            iv == items_view(items@),
            chain.len() >= 1,
            forall|k: int| 0 <= k < chain.len() ==> 0 <= #[trigger] chain[k] < ents.len(),
            forall|k: int| 0 <= k < chain.len() - 1 ==> ents[#[trigger] chain[k]].base == Some(chain[k + 1] as usize),
            ents[chain.last()].base is None,
            l <= chain.len(),
            done <==> l == chain.len(),
            !done ==> c == chain[l as int],
            out@.len() == l,
            fits(ents, chain.take(l as int), out@.map_values(|v: Vec<Value>| v@)),
            pos <= items@.len(),
            iv.take(pos as int) == slices_of(ents, chain.take(l as int), out@.map_values(|v: Vec<Value>| v@)),
            (exists|ls: Seq<Seq<Value>>| fits(ents, chain, ls) && #[trigger] encoded(ast, class as int, ls) == iv) ==> wit is Some,
            wit matches Some(w) ==> fits(ents, chain, w) && slices_of(ents, chain, w) == iv && out@.map_values(
                |v: Vec<Value>| v@,
            ) == w.take(l as int),
        decreases chain.len() - l,
    {
        let e = &ast.entities[c];
        let ghost ov = out@.map_values(|v: Vec<Value>| v@);
        proof {
            if let Some(w) = wit {
                lemma_slices_prefix(ents, chain, w, l + 1);
                lemma_slices_step(ents, chain, w, l as int);
                lemma_fits_take(ents, chain, w, l as int);
                lemma_slices_len(ents, chain.take(l as int), w.take(l as int));
                lemma_fits_take(ents, chain, w, l + 1);
                lemma_slices_len(ents, chain.take(l + 1), w.take(l + 1));
                let small = slices_of(ents, chain.take(l as int), w.take(l as int));
                let big = slices_of(ents, chain.take(l + 1), w.take(l + 1));
                assert(w[l as int].len() == ents[chain[l as int]].members@.len());
                assert(iv.subrange(pos as int, pos + w[l as int].len() + 2) =~= big.subrange(
                    small.len() as int,
                    big.len() as int,
                ));
                assert(small =~= iv.take(pos as int));
                assert(big.subrange(small.len() as int, big.len() as int) =~= level_items(*e, w[l as int]));
                assert(level_at(iv, pos as int, *e, w[l as int]));
            }
        }
        match decode_level(e, items, pos) {
            None => {
                return None;
            },
            Some((vs, p)) => {
                proof {
                    if let Some(w) = wit {
                        lemma_level_injective(*e, vs@, w[l as int]);
                        assert(ov.push(vs@) =~= w.take(l + 1));
                    }
                    let ov2 = ov.push(vs@);
                    lemma_slices_step(ents, chain, ov2, l as int);
                    assert(chain.take(l + 1).take(l as int) =~= chain.take(l as int));
                    assert(ov2.take(l + 1) =~= ov2);
                    assert(ov2.take(l as int) =~= ov);
                    assert(iv.take(p as int) =~= iv.take(pos as int) + iv.subrange(pos as int, p as int));
                    assert forall|k: int| 0 <= k < chain.take(l + 1).len() implies (#[trigger] ov2[k]).len()
                        == ents[chain.take(l + 1)[k]].members@.len() by {
                        if k < l {
                            assert(ov2[k] == ov[k]);
                            assert(chain.take(l + 1)[k] == chain.take(l as int)[k]);
                        }
                    }
                }
                out.push(vs);
                assert(out@.map_values(|v: Vec<Value>| v@) =~= ov.push(out@[l as int]@));
                pos = p;
            },
        }
        l = out.len();
        assert(chain.last() == chain[chain.len() - 1]);
        match e.base {
            Some(b) => {
                assert(l < chain.len());
                let entity_count = ast.entities.len();
                assert(ents[chain[l - 1]].base == Some(chain[l as int] as usize));
                assert(0 <= chain[l as int] < entity_count);
                c = b;
            },
            None => {
                assert(l - 1 < chain.len() - 1 ==> ents[chain[l - 1]].base is Some);
                done = true;
            },
        }
    }
    proof {
        assert(chain.take(l as int) =~= chain);
        lemma_slices_len(ents, chain, out@.map_values(|v: Vec<Value>| v@));
        if let Some(w) = wit {
            assert(w.take(l as int) =~= w);
        }
    }
    if pos != items.len() {
        return None;
    }
    assert(iv.take(pos as int) =~= iv);
    Some(out)
}

} // verus!
