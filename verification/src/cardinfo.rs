//! The card reference normalizer: turns the raw card-info payload into the
//! canonical card catalog, and augments a caller-supplied set-name index
//! with each card's id, deduplicated, in first-seen order.

use vstd::prelude::*;

use crate::codec::Wire;

verus! {

/// One card set attached to a source card of the card-info payload.
pub struct YGOPDCardSet {
    pub set_name: String,
    pub set_code: String,
    pub set_rarity: String,
}

/// One card record of the card-info payload.
pub struct YGOPDCard {
    pub id: u32,
    pub name: String,
    pub card_type: String,
    pub desc: String,
    pub atk: Option<u32>,
    pub def: Option<u32>,
    pub level: Option<u8>,
    pub race: String,
    pub attribute: Option<String>,
    pub archetype: Option<String>,
    pub scale: Option<u8>,
    pub linkval: Option<u8>,
    pub card_sets: Option<Vec<YGOPDCardSet>>,
}

/// The card-info payload: a list of card records.
pub struct YGOPDData {
    pub data: Vec<YGOPDCard>,
}

/// A canonical catalog card.
pub struct Card {
    pub id: u32,
    pub name: String,
    pub card_type: String,
    pub description: String,
    pub atk: Option<u32>,
    pub def: Option<u32>,
    pub level: Option<u8>,
    pub race: String,
    pub attribute: Option<String>,
    pub archetype: Option<String>,
    pub pend_scale: Option<u8>,
    pub link_rating: Option<u8>,
}

/// The canonical card a source record normalizes to.
pub open spec fn canon_card(c: YGOPDCard) -> Card {
    Card {
        id: c.id,
        name: c.name,
        card_type: c.card_type,
        description: c.desc,
        atk: c.atk,
        def: c.def,
        level: c.level,
        race: c.race,
        attribute: c.attribute,
        archetype: c.archetype,
        pend_scale: c.scale,
        link_rating: c.linkval,
    }
}

/// Converts one source record to its canonical card.
fn convert_card(c: YGOPDCard) -> (r: (Card, Option<Vec<YGOPDCardSet>>))
    ensures
        r.0 == canon_card(c),
        r.1 == c.card_sets,
{
    let YGOPDCard {
        id,
        name,
        card_type,
        desc,
        atk,
        def,
        level,
        race,
        attribute,
        archetype,
        scale,
        linkval,
        card_sets,
    } = c;
    (
        Card {
            id,
            name,
            card_type,
            description: desc,
            atk,
            def,
            level,
            race,
            attribute,
            archetype,
            pend_scale: scale,
            link_rating: linkval,
        },
        card_sets,
    )
}

/// The set names attached to one source record.
pub open spec fn set_names_of(c: YGOPDCard) -> Seq<Seq<char>> {
    match c.card_sets {
        Some(v) => v@.map_values(|cs: YGOPDCardSet| cs.set_name@),
        None => Seq::empty(),
    }
}

/// A set-name index is well formed when set names are unique and every id
/// list is duplicate-free.
pub open spec fn index_wf(idx: Seq<(Seq<char>, Seq<u32>)>) -> bool {
    &&& forall|i: int, j: int| 0 <= i < j < idx.len() ==> (#[trigger] idx[i]).0 != (#[trigger] idx[j]).0
    &&& forall|i: int, p: int, q: int|
        #![trigger idx[i].1[p], idx[i].1[q]]
        0 <= i < idx.len() && 0 <= p < q < idx[i].1.len() ==> idx[i].1[p] != idx[i].1[q]
}

/// The id list an index holds for a set name; empty when the name is absent.
pub open spec fn ids_of(idx: Seq<(Seq<char>, Seq<u32>)>, name: Seq<char>) -> Seq<u32>
    decreases idx.len(),
{
    if idx.len() == 0 {
        Seq::empty()
    } else if idx[0].0 == name {
        idx[0].1
    } else {
        ids_of(idx.drop_first(), name)
    }
}

/// One id appended once under one set name: a fresh name gains a singleton
/// list at the end; a known name gains the id only if its list lacks it.
pub open spec fn index_put(idx: Seq<(Seq<char>, Seq<u32>)>, name: Seq<char>, id: u32) -> Seq<
    (Seq<char>, Seq<u32>),
>
    decreases idx.len(),
{
    if idx.len() == 0 {
        seq![(name, seq![id])]
    } else if idx[0].0 == name {
        if idx[0].1.contains(id) {
            idx
        } else {
            seq![(idx[0].0, idx[0].1.push(id))] + idx.drop_first()
        }
    } else {
        seq![idx[0]] + index_put(idx.drop_first(), name, id)
    }
}

/// One id appended under each of a record's set names in order.
pub open spec fn index_put_all(
    idx: Seq<(Seq<char>, Seq<u32>)>,
    names: Seq<Seq<char>>,
    id: u32,
) -> Seq<(Seq<char>, Seq<u32>)>
    decreases names.len(),
{
    if names.len() == 0 {
        idx
    } else {
        index_put_all(index_put(idx, names[0], id), names.drop_first(), id)
    }
}

/// The view of a concrete index.
pub open spec fn index_view(v: Vec<(String, Vec<u32>)>) -> Seq<(Seq<char>, Seq<u32>)> {
    v@.map_values(|e: (String, Vec<u32>)| (e.0@, e.1@))
}

/// The index after normalizing a list of card records, front first.
pub open spec fn catalog_index(
    idx: Seq<(Seq<char>, Seq<u32>)>,
    cards: Seq<YGOPDCard>,
) -> Seq<(Seq<char>, Seq<u32>)>
    decreases cards.len(),
{
    if cards.len() == 0 {
        idx
    } else {
        catalog_index(
            index_put_all(idx, set_names_of(cards[0]), cards[0].id),
            cards.drop_first(),
        )
    }
}

/// One canonical card keyed into the catalog: a known id is replaced in
/// place, a fresh id appends at the end.
pub open spec fn map_put(m: Seq<(u32, Card)>, id: u32, c: Card) -> Seq<(u32, Card)>
    decreases m.len(),
{
    if m.len() == 0 {
        seq![(id, c)]
    } else if m[0].0 == id {
        seq![(id, c)] + m.drop_first()
    } else {
        seq![m[0]] + map_put(m.drop_first(), id, c)
    }
}

/// The catalog after normalizing a list of card records, front first.
pub open spec fn catalog_map(m: Seq<(u32, Card)>, cards: Seq<YGOPDCard>) -> Seq<(u32, Card)>
    decreases cards.len(),
{
    if cards.len() == 0 {
        m
    } else {
        catalog_map(map_put(m, cards[0].id, canon_card(cards[0])), cards.drop_first())
    }
}

proof fn lemma_index_put_at(idx: Seq<(Seq<char>, Seq<u32>)>, name: Seq<char>, id: u32, k: int)
    requires
        0 <= k < idx.len(),
        idx[k].0 == name,
        forall|p: int| 0 <= p < k ==> (#[trigger] idx[p]).0 != name,
    ensures
        index_put(idx, name, id) == if idx[k].1.contains(id) {
            idx
        } else {
            idx.update(k, (idx[k].0, idx[k].1.push(id)))
        },
    decreases k,
{
    if k == 0 {
        if !idx[0].1.contains(id) {
            assert(seq![(idx[0].0, idx[0].1.push(id))] + idx.drop_first() =~= idx.update(
                0,
                (idx[0].0, idx[0].1.push(id)),
            ));
        }
    } else {
        lemma_index_put_at(idx.drop_first(), name, id, k - 1);
        if idx[k].1.contains(id) {
            assert(seq![idx[0]] + idx.drop_first() =~= idx);
        } else {
            assert(seq![idx[0]] + idx.drop_first().update(
                k - 1,
                (idx[k].0, idx[k].1.push(id)),
            ) =~= idx.update(k, (idx[k].0, idx[k].1.push(id))));
        }
    }
}

proof fn lemma_index_put_absent(idx: Seq<(Seq<char>, Seq<u32>)>, name: Seq<char>, id: u32)
    requires
        forall|p: int| 0 <= p < idx.len() ==> (#[trigger] idx[p]).0 != name,
    ensures
        index_put(idx, name, id) == idx.push((name, seq![id])),
    decreases idx.len(),
{
    if idx.len() == 0 {
        assert(seq![(name, seq![id])] =~= idx.push((name, seq![id])));
    } else {
        lemma_index_put_absent(idx.drop_first(), name, id);
        assert(seq![idx[0]] + idx.drop_first().push((name, seq![id])) =~= idx.push(
            (name, seq![id]),
        ));
    }
}

/// Law: the index stays well formed under every insertion, and after
/// inserting an id under a set name the name's list holds that id.
pub proof fn lemma_index_put_wf(idx: Seq<(Seq<char>, Seq<u32>)>, name: Seq<char>, id: u32)
    requires
        index_wf(idx),
    ensures
        index_wf(index_put(idx, name, id)),
        ids_of(index_put(idx, name, id), name).contains(id),
    decreases idx.len(),
{
    let p = index_put(idx, name, id);
    if idx.len() == 0 {
        assert(p[0].1 == seq![id]);
        assert(p[0].1[0] == id);
    } else if idx[0].0 == name {
        if idx[0].1.contains(id) {
        } else {
            assert(p =~= seq![(idx[0].0, idx[0].1.push(id))] + idx.drop_first());
            assert forall|i: int, a: int, b: int|
                #![trigger p[i].1[a], p[i].1[b]]
                0 <= i < p.len() && 0 <= a < b < p[i].1.len() implies p[i].1[a] != p[i].1[b] by {
                if i == 0 {
                    assert(p[0].1 == idx[0].1.push(id));
                    if b == idx[0].1.len() {
                        assert(p[0].1[a] == idx[0].1[a]);
                        assert(idx[0].1.contains(idx[0].1[a]));
                    } else {
                        assert(p[0].1[a] == idx[0].1[a]);
                        assert(p[0].1[b] == idx[0].1[b]);
                    }
                } else {
                    assert(p[i] == idx[i]);
                }
            }
            assert(p[0].1.last() == id);
            assert(p[0].1.contains(id));
        }
    } else {
        let rest = idx.drop_first();
        assert forall|i: int, j: int|
            0 <= i < j < rest.len() implies (#[trigger] rest[i]).0 != (#[trigger] rest[j]).0 by {
            assert(rest[i] == idx[i + 1]);
            assert(rest[j] == idx[j + 1]);
        }
        assert forall|i: int, a: int, b: int|
            #![trigger rest[i].1[a], rest[i].1[b]]
            0 <= i < rest.len() && 0 <= a < b < rest[i].1.len() implies rest[i].1[a]
            != rest[i].1[b] by {
            assert(rest[i] == idx[i + 1]);
            assert(idx[i + 1].1[a] != idx[i + 1].1[b]);
        }
        lemma_index_put_wf(rest, name, id);
        lemma_index_put_names(rest, name, id);
        let q = index_put(rest, name, id);
        assert(p =~= seq![idx[0]] + q);
        assert forall|i: int, j: int|
            0 <= i < j < p.len() implies (#[trigger] p[i]).0 != (#[trigger] p[j]).0 by {
            if i == 0 {
                if j - 1 < rest.len() {
                    assert(q[j - 1].0 == rest[j - 1].0 || q[j - 1].0 == name);
                } else {
                    assert(q[j - 1].0 == name);
                }
                assert(idx[0].0 != name);
            } else {
                assert(p[i] == q[i - 1] && p[j] == q[j - 1]);
            }
        }
        assert forall|i: int, a: int, b: int|
            #![trigger p[i].1[a], p[i].1[b]]
            0 <= i < p.len() && 0 <= a < b < p[i].1.len() implies p[i].1[a] != p[i].1[b] by {
            if i == 0 {
                assert(p[0] == idx[0]);
                assert(idx[0].1[a] != idx[0].1[b]);
            } else {
                assert(p[i] == q[i - 1]);
                assert(q[i - 1].1[a] != q[i - 1].1[b]);
            }
        }
        assert(p.drop_first() =~= q);
    }
}

/// Every name in an updated index is an old name at the same place, or the
/// inserted name at the end.
proof fn lemma_index_put_names(idx: Seq<(Seq<char>, Seq<u32>)>, name: Seq<char>, id: u32)
    ensures
        ({
            let p = index_put(idx, name, id);
            &&& idx.len() <= p.len() <= idx.len() + 1
            &&& forall|k: int| 0 <= k < idx.len() ==> (#[trigger] p[k]).0 == idx[k].0
            &&& p.len() == idx.len() + 1 ==> p[idx.len() as int].0 == name
        }),
    decreases idx.len(),
{
    if idx.len() == 0 {
    } else if idx[0].0 == name {
    } else {
        lemma_index_put_names(idx.drop_first(), name, id);
    }
}

/// Law: listing the same set twice on one card adds its id once — a second
/// insertion of the same id under the same name changes nothing.
pub proof fn lemma_index_dedup(idx: Seq<(Seq<char>, Seq<u32>)>, name: Seq<char>, id: u32)
    ensures
        index_put(index_put(idx, name, id), name, id) == index_put(idx, name, id),
    decreases idx.len(),
{
    let p = index_put(idx, name, id);
    if idx.len() == 0 {
        assert(p[0].0 == name);
        assert(p[0].1 == seq![id]);
        assert(p[0].1[0] == id);
        assert(p[0].1.contains(id));
    } else if idx[0].0 == name {
        if idx[0].1.contains(id) {
        } else {
            assert(p =~= seq![(idx[0].0, idx[0].1.push(id))] + idx.drop_first());
            assert(p[0].1.last() == id);
            assert(p[0].1.contains(id));
        }
    } else {
        lemma_index_dedup(idx.drop_first(), name, id);
        let q = index_put(idx.drop_first(), name, id);
        assert(p =~= seq![idx[0]] + q);
        assert(p[0] == idx[0]);
        assert(p.drop_first() =~= q);
        assert(index_put(p, name, id) =~= seq![idx[0]] + index_put(q, name, id));
    }
}

proof fn lemma_map_put_at(m: Seq<(u32, Card)>, id: u32, c: Card, k: int)
    requires
        0 <= k < m.len(),
        m[k].0 == id,
        forall|p: int| 0 <= p < k ==> (#[trigger] m[p]).0 != id,
    ensures
        map_put(m, id, c) == m.update(k, (id, c)),
    decreases k,
{
    if k == 0 {
        assert(seq![(id, c)] + m.drop_first() =~= m.update(0, (id, c)));
    } else {
        lemma_map_put_at(m.drop_first(), id, c, k - 1);
        assert(seq![m[0]] + m.drop_first().update(k - 1, (id, c)) =~= m.update(k, (id, c)));
    }
}

proof fn lemma_map_put_absent(m: Seq<(u32, Card)>, id: u32, c: Card)
    requires
        forall|p: int| 0 <= p < m.len() ==> (#[trigger] m[p]).0 != id,
    ensures
        map_put(m, id, c) == m.push((id, c)),
    decreases m.len(),
{
    if m.len() == 0 {
        assert(seq![(id, c)] =~= m.push((id, c)));
    } else {
        lemma_map_put_absent(m.drop_first(), id, c);
        assert(seq![m[0]] + m.drop_first().push((id, c)) =~= m.push((id, c)));
    }
}

proof fn lemma_put_all_snoc(
    idx: Seq<(Seq<char>, Seq<u32>)>,
    names: Seq<Seq<char>>,
    x: Seq<char>,
    id: u32,
)
    ensures
        index_put_all(idx, names.push(x), id) == index_put(index_put_all(idx, names, id), x, id),
    decreases names.len(),
{
    if names.len() == 0 {
        assert(names.push(x)[0] == x);
        assert(names.push(x).drop_first() =~= Seq::<Seq<char>>::empty());
        assert(index_put_all(index_put(idx, x, id), Seq::<Seq<char>>::empty(), id) == index_put(
            idx,
            x,
            id,
        ));
        assert(index_put_all(idx, names, id) == idx);
    } else {
        assert(names.push(x)[0] == names[0]);
        assert(names.push(x).drop_first() =~= names.drop_first().push(x));
        lemma_put_all_snoc(index_put(idx, names[0], id), names.drop_first(), x, id);
        assert(index_put_all(idx, names.push(x), id) == index_put_all(
            index_put(idx, names[0], id),
            names.drop_first().push(x),
            id,
        ));
        assert(index_put_all(idx, names, id) == index_put_all(
            index_put(idx, names[0], id),
            names.drop_first(),
            id,
        ));
    }
}

proof fn lemma_catalog_index_snoc(
    idx: Seq<(Seq<char>, Seq<u32>)>,
    cards: Seq<YGOPDCard>,
    c: YGOPDCard,
)
    ensures
        catalog_index(idx, cards.push(c)) == index_put_all(
            catalog_index(idx, cards),
            set_names_of(c),
            c.id,
        ),
    decreases cards.len(),
{
    if cards.len() == 0 {
        assert(cards.push(c)[0] == c);
        assert(cards.push(c).drop_first() =~= Seq::<YGOPDCard>::empty());
        assert(catalog_index(idx, cards) == idx);
        assert(catalog_index(
            index_put_all(idx, set_names_of(c), c.id),
            Seq::<YGOPDCard>::empty(),
        ) == index_put_all(idx, set_names_of(c), c.id));
    } else {
        assert(cards.push(c)[0] == cards[0]);
        assert(cards.push(c).drop_first() =~= cards.drop_first().push(c));
        lemma_catalog_index_snoc(
            index_put_all(idx, set_names_of(cards[0]), cards[0].id),
            cards.drop_first(),
            c,
        );
        assert(catalog_index(idx, cards.push(c)) == catalog_index(
            index_put_all(idx, set_names_of(cards[0]), cards[0].id),
            cards.drop_first().push(c),
        ));
        assert(catalog_index(idx, cards) == catalog_index(
            index_put_all(idx, set_names_of(cards[0]), cards[0].id),
            cards.drop_first(),
        ));
    }
}

proof fn lemma_catalog_map_snoc(m: Seq<(u32, Card)>, cards: Seq<YGOPDCard>, c: YGOPDCard)
    ensures
        catalog_map(m, cards.push(c)) == map_put(catalog_map(m, cards), c.id, canon_card(c)),
    decreases cards.len(),
{
    if cards.len() == 0 {
        assert(cards.push(c)[0] == c);
        assert(cards.push(c).drop_first() =~= Seq::<YGOPDCard>::empty());
        assert(catalog_map(m, cards) == m);
        assert(catalog_map(map_put(m, c.id, canon_card(c)), Seq::<YGOPDCard>::empty()) == map_put(
            m,
            c.id,
            canon_card(c),
        ));
    } else {
        assert(cards.push(c)[0] == cards[0]);
        assert(cards.push(c).drop_first() =~= cards.drop_first().push(c));
        lemma_catalog_map_snoc(
            map_put(m, cards[0].id, canon_card(cards[0])),
            cards.drop_first(),
            c,
        );
        assert(catalog_map(m, cards.push(c)) == catalog_map(
            map_put(m, cards[0].id, canon_card(cards[0])),
            cards.drop_first().push(c),
        ));
        assert(catalog_map(m, cards) == catalog_map(
            map_put(m, cards[0].id, canon_card(cards[0])),
            cards.drop_first(),
        ));
    }
}

fn vec_contains_u32(v: &Vec<u32>, id: u32) -> (b: bool)
    ensures
        b == v@.contains(id),
{
    let mut k: usize = 0;
    while k < v.len()
        invariant
            k <= v@.len(),
            forall|p: int| 0 <= p < k ==> v@[p] != id,
        decreases v@.len() - k,
    {
        if v[k] == id {
            return true;
        }
        k += 1;
    }
    false
}

/// Appends one card id under one set name, deduplicated, first-seen order.
fn put_id(idx: &mut Vec<(String, Vec<u32>)>, name: String, id: u32)
    ensures
        index_view(*final(idx)) == index_put(index_view(*old(idx)), name@, id),
{
    let ghost v0 = index_view(*old(idx));
    let mut k: usize = 0;
    while k < idx.len()
        invariant
            v0 == index_view(*idx),
            v0 == index_view(*old(idx)),
            v0.len() == idx@.len(),
            k <= idx@.len(),
            forall|p: int| 0 <= p < k ==> (#[trigger] v0[p]).0 != name@,
        decreases idx@.len() - k,
    {
        if idx[k].0 == name {
            proof {
                assert(v0[k as int].0 == name@);
            }
            let has = vec_contains_u32(&idx[k].1, id);
            proof {
                assert(v0[k as int].1 == idx@[k as int].1@);
                lemma_index_put_at(v0, name@, id, k as int);
            }
            if has == false {
                let ghost vpre = idx@;
                let mut entry = idx.remove(k);
                entry.1.push(id);
                idx.insert(k, entry);
                proof {
                    assert(idx@ =~= vpre.update(k as int, (entry.0, entry.1)));
                    assert(entry.0@ == v0[k as int].0);
                    assert(entry.1@ == v0[k as int].1.push(id));
                    assert(index_view(*idx) =~= v0.update(
                        k as int,
                        (v0[k as int].0, v0[k as int].1.push(id)),
                    ));
                }
            }
            return ;
        }
        k += 1;
    }
    let mut fresh: Vec<u32> = Vec::new();
    fresh.push(id);
    proof {
        assert(fresh@ =~= seq![id]);
        lemma_index_put_absent(v0, name@, id);
    }
    idx.push((name, fresh));
    proof {
        assert(index_view(*idx) =~= v0.push((name@, seq![id])));
    }
}

/// Appends one card's id under each of its listed set names, in order.
fn put_card_sets(idx: &mut Vec<(String, Vec<u32>)>, sets: Vec<YGOPDCardSet>, id: u32)
    ensures
        index_view(*final(idx)) == index_put_all(
            index_view(*old(idx)),
            sets@.map_values(|cs: YGOPDCardSet| cs.set_name@),
            id,
        ),
{
    let ghost v0 = index_view(*old(idx));
    let ghost names = sets@.map_values(|cs: YGOPDCardSet| cs.set_name@);
    let mut rest = sets;
    let _total = rest.len();
    let mut j: usize = 0;
    proof {
        assert(names.take(0) =~= Seq::<Seq<char>>::empty());
        assert(rest@.map_values(|cs: YGOPDCardSet| cs.set_name@) =~= names.skip(0));
        assert(index_put_all(v0, names.take(0), id) == v0);
    }
    while rest.len() > 0
        invariant
            names.len() <= usize::MAX,
            j + rest@.len() == names.len(),
            rest@.map_values(|cs: YGOPDCardSet| cs.set_name@) == names.skip(j as int),
            index_view(*idx) == index_put_all(v0, names.take(j as int), id),
            v0 == index_view(*old(idx)),
        decreases rest@.len(),
    {
        let ghost pre = rest@;
        let cs = rest.remove(0);
        proof {
            assert(pre.map_values(|c: YGOPDCardSet| c.set_name@)[0] == cs.set_name@);
            assert(names.skip(j as int)[0] == names[j as int]);
            assert(cs.set_name@ == names[j as int]);
            assert(rest@ =~= pre.drop_first());
            assert forall|p: int|
                0 <= p < rest@.len() implies (#[trigger] rest@[p]).set_name@ == names.skip(
                j as int + 1,
            )[p] by {
                assert(rest@[p] == pre[p + 1]);
                assert(pre.map_values(|c: YGOPDCardSet| c.set_name@)[p + 1] == names.skip(
                    j as int,
                )[p + 1]);
            }
            assert(rest@.map_values(|c: YGOPDCardSet| c.set_name@) =~= names.skip(j as int + 1));
        }
        put_id(idx, cs.set_name, id);
        proof {
            assert(names.take(j as int + 1) =~= names.take(j as int).push(names[j as int]));
            lemma_put_all_snoc(v0, names.take(j as int), names[j as int], id);
        }
        j += 1;
    }
    proof {
        assert(names.take(names.len() as int) =~= names);
    }
}

/// Replaces or appends one canonical card under its id.
fn map_insert(m: &mut Vec<(u32, Card)>, id: u32, c: Card)
    ensures
        final(m)@ == map_put(old(m)@, id, c),
{
    let ghost m0 = old(m)@;
    let mut k: usize = 0;
    while k < m.len()
        invariant
            m@ == m0,
            m0 == old(m)@,
            k <= m0.len(),
            forall|p: int| 0 <= p < k ==> (#[trigger] m0[p]).0 != id,
        decreases m0.len() - k,
    {
        if m[k].0 == id {
            proof {
                lemma_map_put_at(m0, id, c, k as int);
            }
            m[k] = (id, c);
            return ;
        }
        k += 1;
    }
    proof {
        lemma_map_put_absent(m0, id, c);
    }
    m.push((id, c));
}

/// Normalizes the raw card-info payload: returns the canonical catalog map
/// (keyed by card id, first-seen order, later duplicates replacing earlier
/// ones) and augments the caller's set-name index with each card's id once
/// per listed set, set names and ids both in first-seen order.
pub fn parse(data: YGOPDData, card_set_map: &mut Vec<(String, Vec<u32>)>) -> (r: Vec<(u32, Card)>)
    ensures
        index_view(*final(card_set_map)) == catalog_index(
            index_view(*old(card_set_map)),
            data.data@,
        ),
        r@ == catalog_map(Seq::empty(), data.data@),
{
    let ghost all = data.data@;
    let ghost idx0 = index_view(*old(card_set_map));
    let mut cards = data.data;
    let mut m: Vec<(u32, Card)> = Vec::new();
    let mut j: usize = 0;
    proof {
        assert(all.take(0) =~= Seq::<YGOPDCard>::empty());
        assert(cards@ =~= all.skip(0));
    }
    let _total = cards.len();
    while cards.len() > 0
        invariant
            all.len() <= usize::MAX,
            j + cards@.len() == all.len(),
            cards@ == all.skip(j as int),
            index_view(*card_set_map) == catalog_index(idx0, all.take(j as int)),
            m@ == catalog_map(Seq::empty(), all.take(j as int)),
            idx0 == index_view(*old(card_set_map)),
        decreases cards@.len(),
    {
        let card = cards.remove(0);
        let ghost gcard = card;
        proof {
            assert(all.skip(j as int)[0] == all[j as int]);
            assert(cards@ =~= all.skip(j as int + 1));
        }
        let (canon, csets) = convert_card(card);
        let cid = canon.id;
        map_insert(&mut m, cid, canon);
        let ghost before = index_view(*card_set_map);
        match csets {
            Some(sets) => {
                proof {
                    assert(sets@.map_values(|cs: YGOPDCardSet| cs.set_name@) == set_names_of(
                        gcard,
                    ));
                }
                put_card_sets(card_set_map, sets, cid);
            },
            None => {
                proof {
                    assert(set_names_of(gcard) =~= Seq::<Seq<char>>::empty());
                    assert(index_put_all(before, set_names_of(gcard), gcard.id) == before);
                }
            },
        }
        proof {
            assert(all.take(j as int + 1) =~= all.take(j as int).push(all[j as int]));
            lemma_catalog_index_snoc(idx0, all.take(j as int), gcard);
            lemma_catalog_map_snoc(Seq::empty(), all.take(j as int), gcard);
        }
        j += 1;
    }
    proof {
        assert(all.take(all.len() as int) =~= all);
    }
    m
}

/// Model of a canonical catalog card.
pub struct CardModel {
    pub id: u32,
    pub name: Seq<char>,
    pub card_type: Seq<char>,
    pub description: Seq<char>,
    pub atk: Option<u32>,
    pub def: Option<u32>,
    pub level: Option<u8>,
    pub race: Seq<char>,
    pub attribute: Option<Seq<char>>,
    pub archetype: Option<Seq<char>>,
    pub pend_scale: Option<u8>,
    pub link_rating: Option<u8>,
}

impl Wire for Card {
    type M = CardModel;

    open spec fn model(self) -> CardModel {
        CardModel {
            id: self.id,
            name: self.name.model(),
            card_type: self.card_type.model(),
            description: self.description.model(),
            atk: self.atk.model(),
            def: self.def.model(),
            level: self.level.model(),
            race: self.race.model(),
            attribute: self.attribute.model(),
            archetype: self.archetype.model(),
            pend_scale: self.pend_scale.model(),
            link_rating: self.link_rating.model(),
        }
    }

    open spec fn wf(m: CardModel) -> bool {
        &&& <String as Wire>::wf(m.name)
        &&& <String as Wire>::wf(m.card_type)
        &&& <String as Wire>::wf(m.description)
        &&& <Option<u32> as Wire>::wf(m.atk)
        &&& <Option<u32> as Wire>::wf(m.def)
        &&& <Option<u8> as Wire>::wf(m.level)
        &&& <String as Wire>::wf(m.race)
        &&& <Option<String> as Wire>::wf(m.attribute)
        &&& <Option<String> as Wire>::wf(m.archetype)
        &&& <Option<u8> as Wire>::wf(m.pend_scale)
        &&& <Option<u8> as Wire>::wf(m.link_rating)
    }

    open spec fn senc(m: CardModel) -> Seq<u8> {
        <u32 as Wire>::senc(m.id) + <String as Wire>::senc(m.name) + <String as Wire>::senc(m.card_type) + <String as Wire>::senc(m.description) + <Option<u32> as Wire>::senc(m.atk) + <Option<u32> as Wire>::senc(m.def) + <Option<u8> as Wire>::senc(m.level) + <String as Wire>::senc(m.race) + <Option<String> as Wire>::senc(m.attribute) + <Option<String> as Wire>::senc(m.archetype) + <Option<u8> as Wire>::senc(m.pend_scale) + <Option<u8> as Wire>::senc(m.link_rating)
    }

    open spec fn sdec(s: Seq<u8>) -> Option<(CardModel, Seq<u8>)> {
        match <u32 as Wire>::sdec(s) {
            Some((id, r1)) =>             match <String as Wire>::sdec(r1) {
                Some((name, r2)) =>                 match <String as Wire>::sdec(r2) {
                    Some((card_type, r3)) =>                     match <String as Wire>::sdec(r3) {
                        Some((description, r4)) =>                         match <Option<u32> as Wire>::sdec(r4) {
                            Some((atk, r5)) =>                             match <Option<u32> as Wire>::sdec(r5) {
                                Some((def, r6)) =>                                 match <Option<u8> as Wire>::sdec(r6) {
                                    Some((level, r7)) =>                                     match <String as Wire>::sdec(r7) {
                                        Some((race, r8)) =>                                         match <Option<String> as Wire>::sdec(r8) {
                                            Some((attribute, r9)) =>                                             match <Option<String> as Wire>::sdec(r9) {
                                                Some((archetype, r10)) =>                                                 match <Option<u8> as Wire>::sdec(r10) {
                                                    Some((pend_scale, r11)) =>                                                     match <Option<u8> as Wire>::sdec(r11) {
                                                        Some((link_rating, r12)) => Some((CardModel { id, name, card_type, description, atk, def, level, race, attribute, archetype, pend_scale, link_rating }, r12)),
                                                        None => None,
                                                    },
                                                    None => None,
                                                },
                                                None => None,
                                            },
                                            None => None,
                                        },
                                        None => None,
                                    },
                                    None => None,
                                },
                                None => None,
                            },
                            None => None,
                        },
                        None => None,
                    },
                    None => None,
                },
                None => None,
            },
            None => None,
        }
    }

    #[verifier::rlimit(100)]
    proof fn lemma_rt(m: CardModel, rest: Seq<u8>) {
        let e1 = <u32 as Wire>::senc(m.id);
        let e2 = <String as Wire>::senc(m.name);
        let e3 = <String as Wire>::senc(m.card_type);
        let e4 = <String as Wire>::senc(m.description);
        let e5 = <Option<u32> as Wire>::senc(m.atk);
        let e6 = <Option<u32> as Wire>::senc(m.def);
        let e7 = <Option<u8> as Wire>::senc(m.level);
        let e8 = <String as Wire>::senc(m.race);
        let e9 = <Option<String> as Wire>::senc(m.attribute);
        let e10 = <Option<String> as Wire>::senc(m.archetype);
        let e11 = <Option<u8> as Wire>::senc(m.pend_scale);
        let e12 = <Option<u8> as Wire>::senc(m.link_rating);
        assert((e1 + e2 + e3 + e4 + e5 + e6 + e7 + e8 + e9 + e10 + e11 + e12) + rest =~= (e1 + e2 + e3 + e4 + e5 + e6 + e7 + e8 + e9 + e10 + e11) + (e12 + rest));
        assert((e1 + e2 + e3 + e4 + e5 + e6 + e7 + e8 + e9 + e10 + e11) + (e12 + rest) =~= (e1 + e2 + e3 + e4 + e5 + e6 + e7 + e8 + e9 + e10) + (e11 + (e12 + rest)));
        assert((e1 + e2 + e3 + e4 + e5 + e6 + e7 + e8 + e9 + e10) + (e11 + (e12 + rest)) =~= (e1 + e2 + e3 + e4 + e5 + e6 + e7 + e8 + e9) + (e10 + (e11 + (e12 + rest))));
        assert((e1 + e2 + e3 + e4 + e5 + e6 + e7 + e8 + e9) + (e10 + (e11 + (e12 + rest))) =~= (e1 + e2 + e3 + e4 + e5 + e6 + e7 + e8) + (e9 + (e10 + (e11 + (e12 + rest)))));
        assert((e1 + e2 + e3 + e4 + e5 + e6 + e7 + e8) + (e9 + (e10 + (e11 + (e12 + rest)))) =~= (e1 + e2 + e3 + e4 + e5 + e6 + e7) + (e8 + (e9 + (e10 + (e11 + (e12 + rest))))));
        assert((e1 + e2 + e3 + e4 + e5 + e6 + e7) + (e8 + (e9 + (e10 + (e11 + (e12 + rest))))) =~= (e1 + e2 + e3 + e4 + e5 + e6) + (e7 + (e8 + (e9 + (e10 + (e11 + (e12 + rest)))))));
        assert((e1 + e2 + e3 + e4 + e5 + e6) + (e7 + (e8 + (e9 + (e10 + (e11 + (e12 + rest)))))) =~= (e1 + e2 + e3 + e4 + e5) + (e6 + (e7 + (e8 + (e9 + (e10 + (e11 + (e12 + rest))))))));
        assert((e1 + e2 + e3 + e4 + e5) + (e6 + (e7 + (e8 + (e9 + (e10 + (e11 + (e12 + rest))))))) =~= (e1 + e2 + e3 + e4) + (e5 + (e6 + (e7 + (e8 + (e9 + (e10 + (e11 + (e12 + rest)))))))));
        assert((e1 + e2 + e3 + e4) + (e5 + (e6 + (e7 + (e8 + (e9 + (e10 + (e11 + (e12 + rest)))))))) =~= (e1 + e2 + e3) + (e4 + (e5 + (e6 + (e7 + (e8 + (e9 + (e10 + (e11 + (e12 + rest))))))))));
        assert((e1 + e2 + e3) + (e4 + (e5 + (e6 + (e7 + (e8 + (e9 + (e10 + (e11 + (e12 + rest))))))))) =~= (e1 + e2) + (e3 + (e4 + (e5 + (e6 + (e7 + (e8 + (e9 + (e10 + (e11 + (e12 + rest)))))))))));
        assert((e1 + e2) + (e3 + (e4 + (e5 + (e6 + (e7 + (e8 + (e9 + (e10 + (e11 + (e12 + rest)))))))))) =~= (e1) + (e2 + (e3 + (e4 + (e5 + (e6 + (e7 + (e8 + (e9 + (e10 + (e11 + (e12 + rest))))))))))));
        <u32 as Wire>::lemma_rt(m.id, (e2 + (e3 + (e4 + (e5 + (e6 + (e7 + (e8 + (e9 + (e10 + (e11 + (e12 + rest))))))))))));
        <String as Wire>::lemma_rt(m.name, (e3 + (e4 + (e5 + (e6 + (e7 + (e8 + (e9 + (e10 + (e11 + (e12 + rest)))))))))));
        <String as Wire>::lemma_rt(m.card_type, (e4 + (e5 + (e6 + (e7 + (e8 + (e9 + (e10 + (e11 + (e12 + rest))))))))));
        <String as Wire>::lemma_rt(m.description, (e5 + (e6 + (e7 + (e8 + (e9 + (e10 + (e11 + (e12 + rest)))))))));
        <Option<u32> as Wire>::lemma_rt(m.atk, (e6 + (e7 + (e8 + (e9 + (e10 + (e11 + (e12 + rest))))))));
        <Option<u32> as Wire>::lemma_rt(m.def, (e7 + (e8 + (e9 + (e10 + (e11 + (e12 + rest)))))));
        <Option<u8> as Wire>::lemma_rt(m.level, (e8 + (e9 + (e10 + (e11 + (e12 + rest))))));
        <String as Wire>::lemma_rt(m.race, (e9 + (e10 + (e11 + (e12 + rest)))));
        <Option<String> as Wire>::lemma_rt(m.attribute, (e10 + (e11 + (e12 + rest))));
        <Option<String> as Wire>::lemma_rt(m.archetype, (e11 + (e12 + rest)));
        <Option<u8> as Wire>::lemma_rt(m.pend_scale, (e12 + rest));
        <Option<u8> as Wire>::lemma_rt(m.link_rating, rest);
        assert(CardModel { id: m.id, name: m.name, card_type: m.card_type, description: m.description, atk: m.atk, def: m.def, level: m.level, race: m.race, attribute: m.attribute, archetype: m.archetype, pend_scale: m.pend_scale, link_rating: m.link_rating } == m);
    }

    #[verifier::rlimit(100)]
    proof fn lemma_progress(s: Seq<u8>) {
        match <u32 as Wire>::sdec(s) {
            Some((a1, r1)) => {
                <u32 as Wire>::lemma_progress(s);
                match <String as Wire>::sdec(r1) {
                    Some((a2, r2)) => {
                        <String as Wire>::lemma_progress(r1);
                        match <String as Wire>::sdec(r2) {
                            Some((a3, r3)) => {
                                <String as Wire>::lemma_progress(r2);
                                match <String as Wire>::sdec(r3) {
                                    Some((a4, r4)) => {
                                        <String as Wire>::lemma_progress(r3);
                                        match <Option<u32> as Wire>::sdec(r4) {
                                            Some((a5, r5)) => {
                                                <Option<u32> as Wire>::lemma_progress(r4);
                                                match <Option<u32> as Wire>::sdec(r5) {
                                                    Some((a6, r6)) => {
                                                        <Option<u32> as Wire>::lemma_progress(r5);
                                                        match <Option<u8> as Wire>::sdec(r6) {
                                                            Some((a7, r7)) => {
                                                                <Option<u8> as Wire>::lemma_progress(r6);
                                                                match <String as Wire>::sdec(r7) {
                                                                    Some((a8, r8)) => {
                                                                        <String as Wire>::lemma_progress(r7);
                                                                        match <Option<String> as Wire>::sdec(r8) {
                                                                            Some((a9, r9)) => {
                                                                                <Option<String> as Wire>::lemma_progress(r8);
                                                                                match <Option<String> as Wire>::sdec(r9) {
                                                                                    Some((a10, r10)) => {
                                                                                        <Option<String> as Wire>::lemma_progress(r9);
                                                                                        match <Option<u8> as Wire>::sdec(r10) {
                                                                                            Some((a11, r11)) => {
                                                                                                <Option<u8> as Wire>::lemma_progress(r10);
                                                                                                <Option<u8> as Wire>::lemma_progress(r11);
                                                                                            },
                                                                                            None => {},
                                                                                        }
                                                                                    },
                                                                                    None => {},
                                                                                }
                                                                            },
                                                                            None => {},
                                                                        }
                                                                    },
                                                                    None => {},
                                                                }
                                                            },
                                                            None => {},
                                                        }
                                                    },
                                                    None => {},
                                                }
                                            },
                                            None => {},
                                        }
                                    },
                                    None => {},
                                }
                            },
                            None => {},
                        }
                    },
                    None => {},
                }
            },
            None => {},
        }
    }

    #[verifier::rlimit(100)]
    fn enc(&self, out: &mut Vec<u8>) {
        self.id.enc(out);
        self.name.enc(out);
        self.card_type.enc(out);
        self.description.enc(out);
        self.atk.enc(out);
        self.def.enc(out);
        self.level.enc(out);
        self.race.enc(out);
        self.attribute.enc(out);
        self.archetype.enc(out);
        self.pend_scale.enc(out);
        self.link_rating.enc(out);
        proof {
            let e1 = <u32 as Wire>::senc(self.id);
            let e2 = <String as Wire>::senc(self.name.model());
            let e3 = <String as Wire>::senc(self.card_type.model());
            let e4 = <String as Wire>::senc(self.description.model());
            let e5 = <Option<u32> as Wire>::senc(self.atk.model());
            let e6 = <Option<u32> as Wire>::senc(self.def.model());
            let e7 = <Option<u8> as Wire>::senc(self.level.model());
            let e8 = <String as Wire>::senc(self.race.model());
            let e9 = <Option<String> as Wire>::senc(self.attribute.model());
            let e10 = <Option<String> as Wire>::senc(self.archetype.model());
            let e11 = <Option<u8> as Wire>::senc(self.pend_scale.model());
            let e12 = <Option<u8> as Wire>::senc(self.link_rating.model());
            assert(old(out)@ + e1 + e2 =~= old(out)@ + (e1 + e2));
            assert(old(out)@ + (e1 + e2) + e3 =~= old(out)@ + (e1 + e2 + e3));
            assert(old(out)@ + (e1 + e2 + e3) + e4 =~= old(out)@ + (e1 + e2 + e3 + e4));
            assert(old(out)@ + (e1 + e2 + e3 + e4) + e5 =~= old(out)@ + (e1 + e2 + e3 + e4 + e5));
            assert(old(out)@ + (e1 + e2 + e3 + e4 + e5) + e6 =~= old(out)@ + (e1 + e2 + e3 + e4 + e5 + e6));
            assert(old(out)@ + (e1 + e2 + e3 + e4 + e5 + e6) + e7 =~= old(out)@ + (e1 + e2 + e3 + e4 + e5 + e6 + e7));
            assert(old(out)@ + (e1 + e2 + e3 + e4 + e5 + e6 + e7) + e8 =~= old(out)@ + (e1 + e2 + e3 + e4 + e5 + e6 + e7 + e8));
            assert(old(out)@ + (e1 + e2 + e3 + e4 + e5 + e6 + e7 + e8) + e9 =~= old(out)@ + (e1 + e2 + e3 + e4 + e5 + e6 + e7 + e8 + e9));
            assert(old(out)@ + (e1 + e2 + e3 + e4 + e5 + e6 + e7 + e8 + e9) + e10 =~= old(out)@ + (e1 + e2 + e3 + e4 + e5 + e6 + e7 + e8 + e9 + e10));
            assert(old(out)@ + (e1 + e2 + e3 + e4 + e5 + e6 + e7 + e8 + e9 + e10) + e11 =~= old(out)@ + (e1 + e2 + e3 + e4 + e5 + e6 + e7 + e8 + e9 + e10 + e11));
            assert(old(out)@ + (e1 + e2 + e3 + e4 + e5 + e6 + e7 + e8 + e9 + e10 + e11) + e12 =~= old(out)@ + (e1 + e2 + e3 + e4 + e5 + e6 + e7 + e8 + e9 + e10 + e11 + e12));
        }
    }

    fn dec(buf: &Vec<u8>, pos: usize) -> (r: Option<(Self, usize)>) {
        match <u32 as Wire>::dec(buf, pos) {
            Some((id, p1)) =>             match <String as Wire>::dec(buf, p1) {
                Some((name, p2)) =>                 match <String as Wire>::dec(buf, p2) {
                    Some((card_type, p3)) =>                     match <String as Wire>::dec(buf, p3) {
                        Some((description, p4)) =>                         match <Option<u32> as Wire>::dec(buf, p4) {
                            Some((atk, p5)) =>                             match <Option<u32> as Wire>::dec(buf, p5) {
                                Some((def, p6)) =>                                 match <Option<u8> as Wire>::dec(buf, p6) {
                                    Some((level, p7)) =>                                     match <String as Wire>::dec(buf, p7) {
                                        Some((race, p8)) =>                                         match <Option<String> as Wire>::dec(buf, p8) {
                                            Some((attribute, p9)) =>                                             match <Option<String> as Wire>::dec(buf, p9) {
                                                Some((archetype, p10)) =>                                                 match <Option<u8> as Wire>::dec(buf, p10) {
                                                    Some((pend_scale, p11)) =>                                                     match <Option<u8> as Wire>::dec(buf, p11) {
                                                        Some((link_rating, p12)) => Some((Card { id, name, card_type, description, atk, def, level, race, attribute, archetype, pend_scale, link_rating }, p12)),
                                                        None => None,
                                                    },
                                                    None => None,
                                                },
                                                None => None,
                                            },
                                            None => None,
                                        },
                                        None => None,
                                    },
                                    None => None,
                                },
                                None => None,
                            },
                            None => None,
                        },
                        None => None,
                    },
                    None => None,
                },
                None => None,
            },
            None => None,
        }
    }
}

} // verus!
