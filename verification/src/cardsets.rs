//! The set cross-referencer: annotates the raw set-listing payload with the
//! card ids known for each set, taken from the normalizer's set-name index.
//! An absent index entry means "no known cards", never an error.

use vstd::prelude::*;

use crate::cardinfo::{ids_of, index_view};
use crate::codec::Wire;

verus! {

/// One set record of the set-listing payload.
pub struct YGOPDSet {
    pub set_name: String,
    pub set_code: String,
    pub num_of_cards: u32,
    pub tcg_date: String,
}

/// A set annotated with the card ids known for it.
pub struct CardSet {
    pub name: String,
    pub code: String,
    pub num_of_cards: u32,
    pub tcg_date: String,
    pub cards: Vec<u32>,
}

/// Model of an annotated set.
pub struct CardSetModel {
    pub name: Seq<char>,
    pub code: Seq<char>,
    pub num_of_cards: u32,
    pub tcg_date: Seq<char>,
    pub cards: Seq<u32>,
}

/// What cross-referencing yields: each source set carried over, annotated
/// with the index's ids for its name.
pub open spec fn cross_ref_spec(
    sets: Seq<YGOPDSet>,
    idx: Seq<(Seq<char>, Seq<u32>)>,
) -> Seq<CardSetModel> {
    sets.map_values(
        |s: YGOPDSet|
            CardSetModel {
                name: s.set_name@,
                code: s.set_code@,
                num_of_cards: s.num_of_cards,
                tcg_date: s.tcg_date@,
                cards: ids_of(idx, s.set_name@),
            },
    )
}

proof fn lemma_ids_of_at(idx: Seq<(Seq<char>, Seq<u32>)>, name: Seq<char>, k: int)
    requires
        0 <= k < idx.len(),
        idx[k].0 == name,
        forall|p: int| 0 <= p < k ==> (#[trigger] idx[p]).0 != name,
    ensures
        ids_of(idx, name) == idx[k].1,
    decreases k,
{
    if k > 0 {
        lemma_ids_of_at(idx.drop_first(), name, k - 1);
    }
}

proof fn lemma_ids_of_absent(idx: Seq<(Seq<char>, Seq<u32>)>, name: Seq<char>)
    requires
        forall|p: int| 0 <= p < idx.len() ==> (#[trigger] idx[p]).0 != name,
    ensures
        ids_of(idx, name) == Seq::<u32>::empty(),
    decreases idx.len(),
{
    if idx.len() > 0 {
        lemma_ids_of_absent(idx.drop_first(), name);
    }
}

/// The ids the index knows for one set name; empty when the name is absent.
fn lookup_ids(map: &Vec<(String, Vec<u32>)>, name: &String) -> (r: Vec<u32>)
    ensures
        r@ == ids_of(index_view(*map), name@),
{
    let ghost v0 = index_view(*map);
    let mut k: usize = 0;
    while k < map.len()
        invariant
            v0 == index_view(*map),
            v0.len() == map@.len(),
            k <= map@.len(),
            forall|p: int| 0 <= p < k ==> (#[trigger] v0[p]).0 != name@,
        decreases map@.len() - k,
    {
        if map[k].0 == *name {
            proof {
                assert(v0[k as int].0 == name@);
                lemma_ids_of_at(v0, name@, k as int);
            }
            let src = &map[k].1;
            let mut out: Vec<u32> = Vec::new();
            let mut i: usize = 0;
            while i < src.len()
                invariant
                    i <= src@.len(),
                    out@ == src@.take(i as int),
                decreases src@.len() - i,
            {
                out.push(src[i]);
                proof {
                    assert(out@ =~= src@.take(i as int + 1));
                }
                i += 1;
            }
            proof {
                assert(src@.take(src@.len() as int) =~= src@);
                assert(v0[k as int].1 == map@[k as int].1@);
            }
            return out;
        }
        k += 1;
    }
    proof {
        lemma_ids_of_absent(v0, name@);
    }
    Vec::new()
}

/// Cross-references the set listing: every source set in order, annotated
/// with the ids the index holds for its name.
pub fn parse(sets: Vec<YGOPDSet>, card_set_map: &Vec<(String, Vec<u32>)>) -> (r: Vec<CardSet>)
    ensures
        r@.map_values(|cs: CardSet| cs.model()) == cross_ref_spec(sets@, index_view(*card_set_map)),
{
    let ghost all = sets@;
    let ghost idx = index_view(*card_set_map);
    let mut rest = sets;
    let mut out: Vec<CardSet> = Vec::new();
    let mut j: usize = 0;
    let _total = rest.len();
    proof {
        assert(rest@ =~= all.skip(0));
    }
    while rest.len() > 0
        invariant
            all.len() <= usize::MAX,
            j + rest@.len() == all.len(),
            rest@ == all.skip(j as int),
            out@.len() == j,
            idx == index_view(*card_set_map),
            forall|p: int|
                0 <= p < j ==> (#[trigger] out@[p]).model() == cross_ref_spec(all, idx)[p],
        decreases rest@.len(),
    {
        let s = rest.remove(0);
        proof {
            assert(all.skip(j as int)[0] == all[j as int]);
            assert(rest@ =~= all.skip(j as int + 1));
        }
        let ids = lookup_ids(card_set_map, &s.set_name);
        let YGOPDSet { set_name, set_code, num_of_cards, tcg_date } = s;
        let annotated = CardSet {
            name: set_name,
            code: set_code,
            num_of_cards,
            tcg_date,
            cards: ids,
        };
        proof {
            assert(annotated.cards.model() =~= annotated.cards@);
            assert(annotated.model() == cross_ref_spec(all, idx)[j as int]);
        }
        out.push(annotated);
        j += 1;
    }
    proof {
        assert forall|p: int|
            0 <= p < out@.len() implies (#[trigger] out@[p]).model() == cross_ref_spec(
            all,
            idx,
        )[p] by {}
        assert(out@.map_values(|cs: CardSet| cs.model()) =~= cross_ref_spec(all, idx));
    }
    out
}

impl Wire for CardSet {
    type M = CardSetModel;

    open spec fn model(self) -> CardSetModel {
        CardSetModel {
            name: self.name@,
            code: self.code@,
            num_of_cards: self.num_of_cards,
            tcg_date: self.tcg_date@,
            cards: self.cards.model(),
        }
    }

    open spec fn wf(m: CardSetModel) -> bool {
        &&& <String as Wire>::wf(m.name)
        &&& <String as Wire>::wf(m.code)
        &&& <String as Wire>::wf(m.tcg_date)
        &&& <Vec<u32> as Wire>::wf(m.cards)
    }

    open spec fn senc(m: CardSetModel) -> Seq<u8> {
        <String as Wire>::senc(m.name) + <String as Wire>::senc(m.code) + <u32 as Wire>::senc(
            m.num_of_cards,
        ) + <String as Wire>::senc(m.tcg_date) + <Vec<u32> as Wire>::senc(m.cards)
    }

    open spec fn sdec(s: Seq<u8>) -> Option<(CardSetModel, Seq<u8>)> {
        match <String as Wire>::sdec(s) {
            Some((name, r1)) => match <String as Wire>::sdec(r1) {
                Some((code, r2)) => match <u32 as Wire>::sdec(r2) {
                    Some((num_of_cards, r3)) => match <String as Wire>::sdec(r3) {
                        Some((tcg_date, r4)) => match <Vec<u32> as Wire>::sdec(r4) {
                            Some((cards, r5)) => Some(
                                (CardSetModel { name, code, num_of_cards, tcg_date, cards }, r5),
                            ),
                            None => None,
                        },
                        None => None,
                    },
                    None => None,
                },
                None => None,
            },
            None => None,
        }
    }

    #[verifier::rlimit(100)]
    proof fn lemma_rt(m: CardSetModel, rest: Seq<u8>) {
        let e1 = <String as Wire>::senc(m.name);
        let e2 = <String as Wire>::senc(m.code);
        let e3 = <u32 as Wire>::senc(m.num_of_cards);
        let e4 = <String as Wire>::senc(m.tcg_date);
        let e5 = <Vec<u32> as Wire>::senc(m.cards);
        assert((e1 + e2 + e3 + e4 + e5) + rest =~= e1 + (e2 + (e3 + (e4 + (e5 + rest)))));
        <String as Wire>::lemma_rt(m.name, e2 + (e3 + (e4 + (e5 + rest))));
        <String as Wire>::lemma_rt(m.code, e3 + (e4 + (e5 + rest)));
        <u32 as Wire>::lemma_rt(m.num_of_cards, e4 + (e5 + rest));
        <String as Wire>::lemma_rt(m.tcg_date, e5 + rest);
        <Vec<u32> as Wire>::lemma_rt(m.cards, rest);
        assert(CardSetModel {
            name: m.name,
            code: m.code,
            num_of_cards: m.num_of_cards,
            tcg_date: m.tcg_date,
            cards: m.cards,
        } == m);
    }

    proof fn lemma_progress(s: Seq<u8>) {
        match <String as Wire>::sdec(s) {
            Some((a1, r1)) => {
                <String as Wire>::lemma_progress(s);
                match <String as Wire>::sdec(r1) {
                    Some((a2, r2)) => {
                        <String as Wire>::lemma_progress(r1);
                        match <u32 as Wire>::sdec(r2) {
                            Some((a3, r3)) => {
                                <u32 as Wire>::lemma_progress(r2);
                                match <String as Wire>::sdec(r3) {
                                    Some((a4, r4)) => {
                                        <String as Wire>::lemma_progress(r3);
                                        <Vec<u32> as Wire>::lemma_progress(r4);
                                    },
                                    None => {},
                                }
                            },
                            None => {},
                        }
                    },
                    None => {},
                }
            },
            None => {},
        }
    }

    fn enc(&self, out: &mut Vec<u8>) {
        self.name.enc(out);
        self.code.enc(out);
        self.num_of_cards.enc(out);
        self.tcg_date.enc(out);
        self.cards.enc(out);
        proof {
            let e1 = <String as Wire>::senc(self.name@);
            let e2 = <String as Wire>::senc(self.code@);
            let e3 = <u32 as Wire>::senc(self.num_of_cards);
            let e4 = <String as Wire>::senc(self.tcg_date@);
            let e5 = <Vec<u32> as Wire>::senc(self.cards.model());
            assert(old(out)@ + e1 + e2 + e3 + e4 + e5 =~= old(out)@ + (e1 + e2 + e3 + e4 + e5));
        }
    }

    fn dec(buf: &Vec<u8>, pos: usize) -> (r: Option<(Self, usize)>) {
        match String::dec(buf, pos) {
            Some((name, p1)) => match String::dec(buf, p1) {
                Some((code, p2)) => match u32::dec(buf, p2) {
                    Some((num_of_cards, p3)) => match String::dec(buf, p3) {
                        Some((tcg_date, p4)) => match <Vec<u32> as Wire>::dec(buf, p4) {
                            Some((cards, p5)) => Some(
                                (CardSet { name, code, num_of_cards, tcg_date, cards }, p5),
                            ),
                            None => None,
                        },
                        None => None,
                    },
                    None => None,
                },
                None => None,
            },
            None => None,
        }
    }
}

} // verus!
