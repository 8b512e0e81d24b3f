//! A user's owned-card collection: a multiset of cards keyed by catalog id,
//! a tag index, an action log, and an ordered journal of reversible changes.

use vstd::prelude::*;

use crate::draft::DraftSettings;
use std::collections::VecDeque;

verus! {

/// A card owned in a collection, identified by its catalog id alone so that
/// collection data survives catalog schema changes.
#[derive(PartialEq, Eq, Structural, Clone, Copy, Debug, Hash)]
pub struct Card {
    pub id: u32,
}

/// Content applied by a [`Change`]: the cards touched, the date the change
/// was made, and optionally the draft round it was made in.
pub struct ChangeContent {
    pub cards: Vec<Card>,
    pub date: String,
    pub round: Option<u16>,
}

/// A reversible modification of a collection's owned cards.
///
/// `Nothing` is an inert placeholder arising from default construction; applying
/// it is a no-op and it is never journaled.
pub enum Change {
    Nothing,
    Add(ChangeContent),
    Remove(ChangeContent),
}

/// One entry of the append-only action log.
pub struct Action {
    pub name: String,
    pub date: String,
}

/// The metadata-bearing prefix of a collection: its name, the timestamp of
/// the last save, and the draft configuration it was assembled for.
pub struct MetaData {
    pub name: String,
    pub last_changed: String,
    pub draft_settings: DraftSettings,
}

/// A collection: quantities of owned cards (each entry strictly positive,
/// card ids unique), a journal of changes (most recent first), a tag index,
/// and an action log.
pub struct Collection {
    pub meta_data: MetaData,
    pub cards: Vec<(Card, u64)>,
    pub changes: VecDeque<Change>,
    pub tags: Vec<(String, Vec<Card>)>,
    pub actions: Vec<Action>,
}

/// The error of undoing on an empty journal.
#[derive(PartialEq, Eq, Structural, Clone, Copy, Debug)]
pub enum UndoError {
    EmptyJournal,
}

impl ChangeContent {
    /// Creates content used by a change.
    pub fn new(cards: Vec<Card>, date: String, round: Option<u16>) -> (r: Self)
        ensures
            r.cards == cards,
            r.date == date,
            r.round == round,
    {
        Self { cards, date, round }
    }
}

impl Default for Change {
    /// A change defaults to the inert placeholder.
    fn default() -> (r: Self)
        ensures
            r is Nothing,
    {
        Change::Nothing
    }
}

/// How many times `id` occurs among the first `n` cards of `s`.
pub open spec fn count_pfx(s: Seq<Card>, n: int, id: u32) -> int
    decreases n,
{
    if n <= 0 {
        0
    } else {
        count_pfx(s, n - 1, id) + if s[n - 1].id == id {
            1int
        } else {
            0
        }
    }
}

/// How many times `id` occurs in `s`.
pub open spec fn count_id(s: Seq<Card>, id: u32) -> int {
    count_pfx(s, s.len() as int, id)
}

/// Quantity of `id` in a card/quantity list: the quantity at the first
/// entry carrying `id`, or zero when no entry does.
pub open spec fn qty_in(s: Seq<(Card, u64)>, id: u32) -> u64
    decreases s.len(),
{
    if s.len() == 0 {
        0u64
    } else if s[0].0.id == id {
        s[0].1
    } else {
        qty_in(s.drop_first(), id)
    }
}

/// Well-formed quantity list: card ids are unique and every quantity is
/// strictly positive (an entry that would fall to zero is deleted).
pub open spec fn cards_wf(s: Seq<(Card, u64)>) -> bool {
    &&& forall|i: int, j: int|
        0 <= i < j < s.len() ==> (#[trigger] s[i]).0.id != (#[trigger] s[j]).0.id
    &&& forall|i: int| 0 <= i < s.len() ==> (#[trigger] s[i]).1 > 0
}

/// Subtraction floored at zero.
pub open spec fn sub_floor(q: int, n: int) -> int {
    if q >= n {
        q - n
    } else {
        0
    }
}

/// What a change does to the quantity of one card id.
pub open spec fn apply_change_qty(q: int, change: Change, id: u32) -> int {
    match change {
        Change::Nothing => q,
        Change::Add(content) => q + count_id(content.cards@, id),
        Change::Remove(content) => sub_floor(q, count_id(content.cards@, id)),
    }
}

/// The structural inverse of a change: an addition undoes a removal and the
/// other way round; the placeholder inverts to itself.
pub open spec fn invert_change(change: Change) -> Change {
    match change {
        Change::Nothing => Change::Nothing,
        Change::Add(content) => Change::Remove(content),
        Change::Remove(content) => Change::Add(content),
    }
}

proof fn lemma_count_pfx_nonneg(s: Seq<Card>, n: int, id: u32)
    ensures
        0 <= count_pfx(s, n, id),
    decreases n,
{
    if n > 0 {
        lemma_count_pfx_nonneg(s, n - 1, id);
    }
}

/// A card id occurs in a list between zero and the list's length many
/// times: what a caller needs to meet the machine limit of an addition.
pub proof fn lemma_count_id_bounds(s: Seq<Card>, id: u32)
    ensures
        0 <= count_id(s, id) <= s.len(),
{
    lemma_count_pfx_le(s, s.len() as int, id);
}

proof fn lemma_count_pfx_le(s: Seq<Card>, n: int, id: u32)
    ensures
        count_pfx(s, n, id) <= if n >= 0 {
            n
        } else {
            0
        },
        0 <= count_pfx(s, n, id),
    decreases n,
{
    if n > 0 {
        lemma_count_pfx_le(s, n - 1, id);
    }
}

proof fn lemma_count_pfx_mono(s: Seq<Card>, n: int, m: int, id: u32)
    requires
        n <= m,
    ensures
        count_pfx(s, n, id) <= count_pfx(s, m, id),
    decreases m - n,
{
    if n < m {
        lemma_count_pfx_mono(s, n, m - 1, id);
    }
}

/// In a unique list, the quantity of an id present at position `i` is the
/// quantity stored there.
proof fn lemma_qty_at(s: Seq<(Card, u64)>, id: u32, i: int)
    requires
        forall|p: int, q: int|
            0 <= p < q < s.len() ==> (#[trigger] s[p]).0.id != (#[trigger] s[q]).0.id,
        0 <= i < s.len(),
        s[i].0.id == id,
    ensures
        qty_in(s, id) == s[i].1,
    decreases s.len(),
{
    if i > 0 {
        lemma_qty_at(s.drop_first(), id, i - 1);
    }
}

/// The quantity of an id carried by no entry is zero.
proof fn lemma_qty_absent(s: Seq<(Card, u64)>, id: u32)
    requires
        forall|p: int| 0 <= p < s.len() ==> (#[trigger] s[p]).0.id != id,
    ensures
        qty_in(s, id) == 0,
    decreases s.len(),
{
    if s.len() > 0 {
        lemma_qty_absent(s.drop_first(), id);
    }
}

/// Raises the quantity of `card` by one, creating its entry at one if absent.
fn bump(cards: &mut Vec<(Card, u64)>, card: Card)
    requires
        cards_wf(old(cards)@),
        qty_in(old(cards)@, card.id) < u64::MAX,
    ensures
        cards_wf(final(cards)@),
        forall|id: u32|
            qty_in(final(cards)@, id) as int == qty_in(old(cards)@, id) as int + if id
                == card.id {
                1int
            } else {
                0
            },
{
    let ghost s0 = cards@;
    let mut i: usize = 0;
    while i < cards.len()
        invariant
            cards@ == s0,
            old(cards)@ == s0,
            cards_wf(s0),
            qty_in(s0, card.id) < u64::MAX,
            i <= s0.len(),
            forall|k: int| 0 <= k < i ==> (#[trigger] s0[k]).0.id != card.id,
        decreases s0.len() - i,
    {
        if cards[i].0.id == card.id {
            let q = cards[i].1;
            proof {
                lemma_qty_at(s0, card.id, i as int);
            }
            cards[i] = (card, q + 1);
            let ghost s1 = cards@;
            proof {
                assert forall|k: int|
                    0 <= k < s1.len() implies (#[trigger] s1[k]).0.id == s0[k].0.id by {}
                assert(cards_wf(s1));
                assert forall|id: u32|
                    qty_in(s1, id) as int == qty_in(s0, id) as int + if id == card.id {
                        1int
                    } else {
                        0
                    } by {
                    if id == card.id {
                        lemma_qty_at(s1, id, i as int);
                    } else {
                        if exists|j: int| 0 <= j < s1.len() && (#[trigger] s1[j]).0.id == id {
                            let j = choose|j: int|
                                0 <= j < s1.len() && (#[trigger] s1[j]).0.id == id;
                            assert(s0[j].0.id == id);
                            lemma_qty_at(s1, id, j);
                            lemma_qty_at(s0, id, j);
                        } else {
                            assert forall|p: int|
                                0 <= p < s1.len() implies (#[trigger] s1[p]).0.id != id by {}
                            lemma_qty_absent(s1, id);
                            assert forall|p: int|
                                0 <= p < s0.len() implies (#[trigger] s0[p]).0.id != id by {
                                assert(s1[p].0.id == s0[p].0.id);
                            }
                            lemma_qty_absent(s0, id);
                        }
                    }
                }
            }
            return ;
        }
        i += 1;
    }
    proof {
        lemma_qty_absent(s0, card.id);
    }
    cards.push((card, 1));
    let ghost s1 = cards@;
    proof {
        assert(cards_wf(s1));
        assert forall|id: u32|
            qty_in(s1, id) as int == qty_in(s0, id) as int + if id == card.id {
                1int
            } else {
                0
            } by {
            if id == card.id {
                lemma_qty_at(s1, id, s0.len() as int);
            } else {
                if exists|j: int| 0 <= j < s0.len() && (#[trigger] s0[j]).0.id == id {
                    let j = choose|j: int| 0 <= j < s0.len() && (#[trigger] s0[j]).0.id == id;
                    assert(s1[j].0.id == id);
                    lemma_qty_at(s1, id, j);
                    lemma_qty_at(s0, id, j);
                } else {
                    assert forall|p: int|
                        0 <= p < s1.len() implies (#[trigger] s1[p]).0.id != id by {
                        if p < s0.len() {
                            assert(s1[p].0.id == s0[p].0.id);
                        }
                    }
                    lemma_qty_absent(s1, id);
                    lemma_qty_absent(s0, id);
                }
            }
        }
    }
}

/// Lowers the quantity of `card` by one; the entry is deleted when its
/// quantity would fall to zero, and an absent card is silently absorbed.
fn drop_one(cards: &mut Vec<(Card, u64)>, card: Card)
    requires
        cards_wf(old(cards)@),
    ensures
        cards_wf(final(cards)@),
        forall|id: u32|
            qty_in(final(cards)@, id) as int == sub_floor(
                qty_in(old(cards)@, id) as int,
                if id == card.id {
                    1int
                } else {
                    0
                },
            ),
{
    let ghost s0 = cards@;
    let mut i: usize = 0;
    while i < cards.len()
        invariant
            cards@ == s0,
            old(cards)@ == s0,
            cards_wf(s0),
            i <= s0.len(),
            forall|k: int| 0 <= k < i ==> (#[trigger] s0[k]).0.id != card.id,
        decreases s0.len() - i,
    {
        if cards[i].0.id == card.id {
            let q = cards[i].1;
            proof {
                lemma_qty_at(s0, card.id, i as int);
            }
            if q <= 1 {
                cards.remove(i);
            } else {
                cards[i] = (card, q - 1);
            }
            let ghost s1 = cards@;
            proof {
                if q <= 1 {
                    s0.remove_ensures(i as int);
                    assert forall|k: int| 0 <= k < i implies #[trigger] s1[k] == s0[k] by {}
                    assert forall|k: int|
                        i <= k < s1.len() implies #[trigger] s1[k] == s0[k + 1] by {}
                    assert forall|p: int, r: int|
                        0 <= p < r < s1.len() implies (#[trigger] s1[p]).0.id != (
                        #[trigger] s1[r]).0.id by {
                        if p < i {
                            assert(s1[p] == s0[p]);
                        } else {
                            assert(s1[p] == s0[p + 1]);
                        }
                        if r < i {
                            assert(s1[r] == s0[r]);
                        } else {
                            assert(s1[r] == s0[r + 1]);
                        }
                    }
                    assert(cards_wf(s1));
                } else {
                    assert forall|k: int|
                        0 <= k < s1.len() implies (#[trigger] s1[k]).0.id == s0[k].0.id by {}
                    assert(cards_wf(s1));
                }
                assert forall|id: u32|
                    qty_in(s1, id) as int == sub_floor(
                        qty_in(s0, id) as int,
                        if id == card.id {
                            1int
                        } else {
                            0
                        },
                    ) by {
                    if id == card.id {
                        if q <= 1 {
                            assert forall|p: int|
                                0 <= p < s1.len() implies (#[trigger] s1[p]).0.id != id by {
                                if p >= i {
                                    assert(s1[p] == s0[p + 1]);
                                    assert(s0[p + 1].0.id != s0[i as int].0.id);
                                }
                            }
                            lemma_qty_absent(s1, id);
                        } else {
                            lemma_qty_at(s1, id, i as int);
                        }
                    } else {
                        if exists|j: int| 0 <= j < s1.len() && (#[trigger] s1[j]).0.id == id {
                            let j = choose|j: int|
                                0 <= j < s1.len() && (#[trigger] s1[j]).0.id == id;
                            lemma_qty_at(s1, id, j);
                            if q <= 1 && j >= i {
                                assert(s1[j] == s0[j + 1]);
                                lemma_qty_at(s0, id, j + 1);
                            } else {
                                assert(s0[j].0.id == id);
                                lemma_qty_at(s0, id, j);
                            }
                        } else {
                            assert forall|p: int|
                                0 <= p < s1.len() implies (#[trigger] s1[p]).0.id != id by {}
                            lemma_qty_absent(s1, id);
                            assert forall|p: int|
                                0 <= p < s0.len() implies (#[trigger] s0[p]).0.id != id by {
                                if q <= 1 {
                                    if p < i {
                                        assert(s0[p] == s1[p]);
                                    } else if p > i {
                                        assert(s0[p] == s1[p - 1]);
                                    }
                                } else {
                                    assert(s0[p].0.id == s1[p].0.id);
                                }
                            }
                            lemma_qty_absent(s0, id);
                        }
                    }
                }
            }
            return ;
        }
        i += 1;
    }
    proof {
        lemma_qty_absent(s0, card.id);
    }
}


/// Assembles a new, empty collection before its first save.
pub struct CollectionBuilder {
    pub name: String,
    pub draft_settings: DraftSettings,
}

impl CollectionBuilder {
    /// An unnamed configuration with no draft.
    pub fn new() -> (r: Self)
        ensures
            r.name@ == Seq::<char>::empty(),
            r.draft_settings is Nothing,
    {
        Self { name: String::new(), draft_settings: DraftSettings::Nothing }
    }

    /// Sets the collection's name.
    pub fn name(self, name: String) -> (r: Self)
        ensures
            r.name == name,
            r.draft_settings == self.draft_settings,
    {
        Self { name, draft_settings: self.draft_settings }
    }

    /// Sets the draft configuration.
    pub fn draft_settings(self, draft_settings: DraftSettings) -> (r: Self)
        ensures
            r.name == self.name,
            r.draft_settings == draft_settings,
    {
        Self { name: self.name, draft_settings }
    }

    /// Assembles the collection: empty quantities, journal, tags and action
    /// log, the configured metadata, and no save timestamp yet.
    pub fn build(self) -> (r: Collection)
        ensures
            r.wf(),
            r.meta_data.name == self.name,
            r.meta_data.last_changed@ == Seq::<char>::empty(),
            r.meta_data.draft_settings == self.draft_settings,
            r.cards@ == Seq::<(Card, u64)>::empty(),
            r.changes@ == Seq::<Change>::empty(),
            r.tags@ == Seq::<(String, Vec<Card>)>::empty(),
            r.actions@ == Seq::<Action>::empty(),
    {
        Collection {
            meta_data: MetaData {
                name: self.name,
                last_changed: String::new(),
                draft_settings: self.draft_settings,
            },
            cards: Vec::new(),
            changes: VecDeque::new(),
            tags: Vec::new(),
            actions: Vec::new(),
        }
    }
}

impl Collection {
    /// Builds a configuration object for a new collection.
    pub fn builder() -> (r: CollectionBuilder)
        ensures
            r.name@ == Seq::<char>::empty(),
            r.draft_settings is Nothing,
    {
        CollectionBuilder::new()
    }

    /// Card ids unique and quantities strictly positive.
    pub open spec fn wf(self) -> bool {
        cards_wf(self.cards@)
    }

    /// The owned quantity of one card id; zero when the card is absent.
    pub open spec fn qty(self, id: u32) -> int {
        qty_in(self.cards@, id) as int
    }

    /// What a successful `add_change` leaves behind: quantities moved by the
    /// change, the change journaled at the front (placeholder changes leave
    /// everything untouched and are never journaled), and all else unchanged.
    pub open spec fn add_change_rel(pre: Self, post: Self, change: Change) -> bool {
        match change {
            Change::Nothing => post == pre,
            _ => {
                &&& forall|id: u32|
                    post.qty(id) == apply_change_qty(pre.qty(id), change, id)
                &&& post.changes@ == seq![change] + pre.changes@
                &&& post.meta_data == pre.meta_data
                &&& post.tags@ == pre.tags@
                &&& post.actions@ == pre.actions@
            },
        }
    }

    /// What a successful `undo_change` leaves behind: the most recent journal
    /// entry removed and its structural inverse applied to the quantities,
    /// all else unchanged.
    pub open spec fn undo_change_rel(pre: Self, post: Self) -> bool {
        &&& pre.changes@.len() > 0
        &&& post.changes@ == pre.changes@.drop_first()
        &&& forall|id: u32|
            post.qty(id) == apply_change_qty(pre.qty(id), invert_change(pre.changes@[0]), id)
        &&& post.meta_data == pre.meta_data
        &&& post.tags@ == pre.tags@
        &&& post.actions@ == pre.actions@
    }

    /// Machine limit: applying `change` must not push any quantity past the
    /// width of its counter.
    pub open spec fn change_fits(self, change: Change) -> bool {
        match change {
            Change::Add(content) => forall|id: u32|
                self.qty(id) + count_id(content.cards@, id) <= u64::MAX,
            _ => true,
        }
    }

    /// Machine limit for undoing: inverting a removal adds its cards back.
    pub open spec fn undo_fits(self) -> bool {
        self.changes@.len() > 0 ==> match self.changes@[0] {
            Change::Remove(content) => forall|id: u32|
                self.qty(id) + count_id(content.cards@, id) <= u64::MAX,
            _ => true,
        }
    }

    /// Raises the quantity of each listed card by one occurrence.
    fn add_cards(&mut self, cards: &Vec<Card>)
        requires
            old(self).wf(),
            forall|id: u32| old(self).qty(id) + count_id(cards@, id) <= u64::MAX,
        ensures
            final(self).wf(),
            forall|id: u32| final(self).qty(id) == old(self).qty(id) + count_id(cards@, id),
            final(self).meta_data == old(self).meta_data,
            final(self).changes@ == old(self).changes@,
            final(self).tags@ == old(self).tags@,
            final(self).actions@ == old(self).actions@,
    {
        let ghost q0 = *self;
        let mut j: usize = 0;
        while j < cards.len()
            invariant
                q0 == *old(self),
                self.wf(),
                j <= cards@.len(),
                forall|id: u32|
                    self.qty(id) == q0.qty(id) + count_pfx(cards@, j as int, id),
                forall|id: u32| q0.qty(id) + count_id(cards@, id) <= u64::MAX,
                self.meta_data == q0.meta_data,
                self.changes@ == q0.changes@,
                self.tags@ == q0.tags@,
                self.actions@ == q0.actions@,
            decreases cards@.len() - j,
        {
            let card = cards[j];
            let ghost mid = *self;
            proof {
                lemma_count_pfx_nonneg(cards@, j as int, card.id);
                lemma_count_pfx_mono(cards@, j as int + 1, cards@.len() as int, card.id);
                assert(count_pfx(cards@, j as int + 1, card.id) == count_pfx(
                    cards@,
                    j as int,
                    card.id,
                ) + 1);
                assert(mid.qty(card.id) == q0.qty(card.id) + count_pfx(
                    cards@,
                    j as int,
                    card.id,
                ));
                assert(q0.qty(card.id) + count_id(cards@, card.id) <= u64::MAX);
            }
            bump(&mut self.cards, card);
            proof {
                assert forall|id: u32|
                    self.qty(id) == q0.qty(id) + count_pfx(cards@, j as int + 1, id) by {
                    assert(mid.qty(id) == q0.qty(id) + count_pfx(cards@, j as int, id));
                    assert(qty_in(self.cards@, id) as int == qty_in(mid.cards@, id) as int + if id
                        == card.id {
                        1int
                    } else {
                        0
                    });
                    assert(count_pfx(cards@, j as int + 1, id) == count_pfx(cards@, j as int, id)
                        + if cards@[j as int].id == id {
                        1int
                    } else {
                        0
                    });
                }
            }
            j += 1;
        }
    }

    /// Lowers the quantity of each listed card by one occurrence, deleting
    /// entries that would fall to zero and absorbing absent cards as no-ops.
    fn remove_cards(&mut self, cards: &Vec<Card>)
        requires
            old(self).wf(),
        ensures
            final(self).wf(),
            forall|id: u32|
                final(self).qty(id) == sub_floor(old(self).qty(id), count_id(cards@, id)),
            final(self).meta_data == old(self).meta_data,
            final(self).changes@ == old(self).changes@,
            final(self).tags@ == old(self).tags@,
            final(self).actions@ == old(self).actions@,
    {
        let ghost q0 = *self;
        let mut j: usize = 0;
        while j < cards.len()
            invariant
                q0 == *old(self),
                self.wf(),
                j <= cards@.len(),
                forall|id: u32|
                    self.qty(id) == sub_floor(q0.qty(id), count_pfx(cards@, j as int, id)),
                self.meta_data == q0.meta_data,
                self.changes@ == q0.changes@,
                self.tags@ == q0.tags@,
                self.actions@ == q0.actions@,
            decreases cards@.len() - j,
        {
            let card = cards[j];
            let ghost mid = *self;
            drop_one(&mut self.cards, card);
            proof {
                assert forall|id: u32|
                    self.qty(id) == sub_floor(q0.qty(id), count_pfx(cards@, j as int + 1, id)) by {
                    assert(mid.qty(id) == sub_floor(q0.qty(id), count_pfx(cards@, j as int, id)));
                    assert(qty_in(self.cards@, id) as int == sub_floor(
                        qty_in(mid.cards@, id) as int,
                        if id == card.id {
                            1int
                        } else {
                            0
                        },
                    ));
                    lemma_count_pfx_nonneg(cards@, j as int, id);
                    assert(count_pfx(cards@, j as int + 1, id) == count_pfx(cards@, j as int, id)
                        + if cards@[j as int].id == id {
                        1int
                    } else {
                        0
                    });
                }
            }
            j += 1;
        }
    }

    /// Applies a change to the owned quantities and journals it at the
    /// front; the inert placeholder is a no-op and is never journaled.
    pub fn add_change(&mut self, change: Change)
        requires
            old(self).wf(),
            old(self).change_fits(change),
        ensures
            final(self).wf(),
            Self::add_change_rel(*old(self), *final(self), change),
    {
        let ghost pre = *self;
        match &change {
            Change::Add(content) => self.add_cards(&content.cards),
            Change::Remove(content) => self.remove_cards(&content.cards),
            _ => {
                return ;
            },
        }
        let ghost mid = *self;
        self.changes.push_front(change);
        proof {
            assert forall|id: u32|
                self.qty(id) == apply_change_qty(pre.qty(id), change, id) by {
                assert(mid.qty(id) == apply_change_qty(pre.qty(id), change, id));
                assert(self.cards == mid.cards);
            }
        }
    }

    /// Removes the most recent journal entry and applies its structural
    /// inverse; fails on an empty journal, leaving the collection untouched.
    pub fn undo_change(&mut self) -> (r: Result<(), UndoError>)
        requires
            old(self).wf(),
            old(self).undo_fits(),
        ensures
            final(self).wf(),
            old(self).changes@.len() == 0 ==> r == Result::<(), UndoError>::Err(
                UndoError::EmptyJournal,
            ) && final(self).changes@ == old(self).changes@ && final(self).cards == old(
                self,
            ).cards && final(self).meta_data == old(self).meta_data && final(self).tags == old(
                self,
            ).tags && final(self).actions == old(self).actions,
            old(self).changes@.len() > 0 ==> r == Result::<(), UndoError>::Ok(())
                && Self::undo_change_rel(*old(self), *final(self)),
    {
        let popped = self.changes.pop_front();
        proof {
            if old(self).changes@.len() > 0 {
                assert(self.changes@ =~= old(self).changes@.drop_first());
            }
        }
        let ghost mid = *self;
        match popped {
            Option::None => Result::Err(UndoError::EmptyJournal),
            Option::Some(change) => {
                proof {
                    assert(change == old(self).changes@[0]);
                    assert(mid.cards == old(self).cards);
                }
                match change {
                    Change::Add(content) => self.remove_cards(&content.cards),
                    Change::Remove(content) => {
                        proof {
                            assert forall|id: u32|
                                mid.qty(id) + count_id(content.cards@, id) <= u64::MAX by {
                                assert(old(self).qty(id) + count_id(content.cards@, id)
                                    <= u64::MAX);
                            }
                        }
                        self.add_cards(&content.cards)
                    },
                    Change::Nothing => {},
                }
                proof {
                    assert forall|id: u32|
                        self.qty(id) == apply_change_qty(
                            old(self).qty(id),
                            invert_change(old(self).changes@[0]),
                            id,
                        ) by {
                        assert(mid.qty(id) == old(self).qty(id));
                    }
                }
                Result::Ok(())
            },
        }
    }

    /// The owned quantity of one card id; zero when the card is absent.
    pub fn quantity(&self, id: u32) -> (q: u64)
        requires
            self.wf(),
        ensures
            q as int == self.qty(id),
    {
        let ghost s0 = self.cards@;
        let mut i: usize = 0;
        while i < self.cards.len()
            invariant
                self.cards@ == s0,
                cards_wf(s0),
                i <= s0.len(),
                forall|k: int| 0 <= k < i ==> (#[trigger] s0[k]).0.id != id,
            decreases s0.len() - i,
        {
            if self.cards[i].0.id == id {
                proof {
                    lemma_qty_at(s0, id, i as int);
                }
                return self.cards[i].1;
            }
            i += 1;
        }
        proof {
            lemma_qty_absent(s0, id);
        }
        0
    }
}

/// Quantity of one card id after a journal of changes, oldest first, applied
/// to an initially empty collection: additions raise it, removals lower it,
/// floored at zero at each removal.
pub open spec fn qty_after(changes: Seq<Change>, id: u32) -> int
    decreases changes.len(),
{
    if changes.len() == 0 {
        0
    } else {
        apply_change_qty(qty_after(changes.drop_last(), id), changes.last(), id)
    }
}

/// Total occurrences of one card id across the additions of a journal.
pub open spec fn added_total(changes: Seq<Change>, id: u32) -> int
    decreases changes.len(),
{
    if changes.len() == 0 {
        0
    } else {
        added_total(changes.drop_last(), id) + match changes.last() {
            Change::Add(content) => count_id(content.cards@, id),
            _ => 0,
        }
    }
}

/// Total occurrences of one card id across the removals of a journal.
pub open spec fn removed_total(changes: Seq<Change>, id: u32) -> int
    decreases changes.len(),
{
    if changes.len() == 0 {
        0
    } else {
        removed_total(changes.drop_last(), id) + match changes.last() {
            Change::Remove(content) => count_id(content.cards@, id),
            _ => 0,
        }
    }
}

/// Occurrences of one card id removed by a single change.
pub open spec fn removed_by(change: Change, id: u32) -> int {
    match change {
        Change::Remove(content) => count_id(content.cards@, id),
        _ => 0,
    }
}

/// Law: over any journal of changes a quantity stays between
/// (added − removed) and added, never falls below zero, and equals
/// (added − removed) exactly when no removal ever needs the floor.
pub proof fn lemma_quantity_bookkeeping(changes: Seq<Change>, id: u32)
    ensures
        0 <= qty_after(changes, id),
        added_total(changes, id) - removed_total(changes, id) <= qty_after(changes, id),
        qty_after(changes, id) <= added_total(changes, id),
        (forall|k: int|
            0 <= k < changes.len() ==> removed_by(#[trigger] changes[k], id) <= qty_after(
                changes.take(k),
                id,
            )) ==> qty_after(changes, id) == added_total(changes, id) - removed_total(
            changes,
            id,
        ),
    decreases changes.len(),
{
    if changes.len() > 0 {
        let prefix = changes.drop_last();
        lemma_quantity_bookkeeping(prefix, id);
        match changes.last() {
            Change::Nothing => {},
            Change::Add(content) => {
                lemma_count_pfx_nonneg(content.cards@, content.cards@.len() as int, id);
            },
            Change::Remove(content) => {
                lemma_count_pfx_nonneg(content.cards@, content.cards@.len() as int, id);
            },
        }
        assert(prefix =~= changes.take(changes.len() - 1));
        assert forall|k: int| 0 <= k < prefix.len() implies prefix.take(k) =~= changes.take(
            k,
        ) by {}
    }
}

/// Law: undoing immediately after adding removes exactly the added content,
/// restoring every pre-addition quantity and the pre-addition journal.
pub proof fn lemma_undo_restores_add(
    pre: Collection,
    mid: Collection,
    post: Collection,
    content: ChangeContent,
)
    requires
        Collection::add_change_rel(pre, mid, Change::Add(content)),
        Collection::undo_change_rel(mid, post),
    ensures
        forall|id: u32| post.qty(id) == pre.qty(id),
        post.changes@ == pre.changes@,
        post.meta_data == pre.meta_data,
        post.tags@ == pre.tags@,
        post.actions@ == pre.actions@,
{
    assert(mid.changes@[0] == Change::Add(content));
    assert forall|id: u32| post.qty(id) == pre.qty(id) by {
        lemma_count_pfx_nonneg(content.cards@, content.cards@.len() as int, id);
        assert(mid.qty(id) == pre.qty(id) + count_id(content.cards@, id));
    }
    assert(post.changes@ =~= pre.changes@);
}

} // verus!
