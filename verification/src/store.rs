//! Wire-format encodings of the collection and its parts, the full-record
//! and metadata-prefix decoders, and the round-trip laws of the persisted
//! store.

use vstd::prelude::*;

use crate::codec::Wire;
use crate::collection::{cards_wf, Action, Card, Change, ChangeContent, Collection, MetaData};
use crate::draft::{BattlePackSettings, ChoiceSettings, DraftSettings, SetRotation};

verus! {

/// Model of a change's content.
pub struct ChangeContentModel {
    pub cards: Seq<Card>,
    pub date: Seq<char>,
    pub round: Option<u16>,
}

/// Model of a change.
pub enum ChangeModel {
    Nothing,
    Add(ChangeContentModel),
    Remove(ChangeContentModel),
}

/// Model of an action-log entry.
pub struct ActionModel {
    pub name: Seq<char>,
    pub date: Seq<char>,
}

/// Model of a set-rotation setting.
pub enum SetRotationModel {
    Disabled,
    Enabled(usize),
}

/// Model of battle-pack draft settings.
pub struct BattlePackSettingsModel {
    pub rounds_num: usize,
    pub set_name: Seq<char>,
}

/// Model of choice draft settings.
pub struct ChoiceSettingsModel {
    pub rounds_num: usize,
    pub choices_num: usize,
    pub selections_num: usize,
    pub cards_num: usize,
    pub sets: Seq<Seq<Seq<char>>>,
    pub rotate: SetRotationModel,
    pub allow_undo: bool,
}

/// Model of a draft configuration.
pub enum DraftSettingsModel {
    Nothing,
    BattlePackDraft(BattlePackSettingsModel),
    ChoiceDraft(ChoiceSettingsModel),
}

/// Model of a collection's metadata.
pub struct MetaDataModel {
    pub name: Seq<char>,
    pub last_changed: Seq<char>,
    pub draft_settings: DraftSettingsModel,
}

/// Model of a whole collection.
pub struct CollectionModel {
    pub meta_data: MetaDataModel,
    pub cards: Seq<(Card, u64)>,
    pub changes: Seq<ChangeModel>,
    pub tags: Seq<(Seq<char>, Seq<Card>)>,
    pub actions: Seq<ActionModel>,
}

impl Wire for Card {
    type M = Card;

    open spec fn model(self) -> Card {
        self
    }

    open spec fn wf(m: Card) -> bool {
        true
    }

    open spec fn senc(m: Card) -> Seq<u8> {
        <u32 as Wire>::senc(m.id)
    }

    open spec fn sdec(s: Seq<u8>) -> Option<(Card, Seq<u8>)> {
        match <u32 as Wire>::sdec(s) {
            Some((id, r)) => Some((Card { id }, r)),
            None => None,
        }
    }

    proof fn lemma_rt(m: Card, rest: Seq<u8>) {
        <u32 as Wire>::lemma_rt(m.id, rest);
        assert(Card { id: m.id } == m);
    }

    proof fn lemma_progress(s: Seq<u8>) {
        <u32 as Wire>::lemma_progress(s);
    }

    fn enc(&self, out: &mut Vec<u8>) {
        self.id.enc(out);
    }

    fn dec(buf: &Vec<u8>, pos: usize) -> (r: Option<(Self, usize)>) {
        match u32::dec(buf, pos) {
            Some((id, p)) => Some((Card { id }, p)),
            None => None,
        }
    }
}

impl Wire for ChangeContent {
    type M = ChangeContentModel;

    open spec fn model(self) -> ChangeContentModel {
        ChangeContentModel { cards: self.cards.model(), date: self.date@, round: self.round }
    }

    open spec fn wf(m: ChangeContentModel) -> bool {
        <Vec<Card> as Wire>::wf(m.cards) && <String as Wire>::wf(m.date)
    }

    open spec fn senc(m: ChangeContentModel) -> Seq<u8> {
        <Vec<Card> as Wire>::senc(m.cards) + <String as Wire>::senc(m.date) + <Option<
            u16,
        > as Wire>::senc(m.round)
    }

    open spec fn sdec(s: Seq<u8>) -> Option<(ChangeContentModel, Seq<u8>)> {
        match <Vec<Card> as Wire>::sdec(s) {
            Some((cards, r1)) => match <String as Wire>::sdec(r1) {
                Some((date, r2)) => match <Option<u16> as Wire>::sdec(r2) {
                    Some((round, r3)) => Some((ChangeContentModel { cards, date, round }, r3)),
                    None => None,
                },
                None => None,
            },
            None => None,
        }
    }

    proof fn lemma_rt(m: ChangeContentModel, rest: Seq<u8>) {
        let e1 = <Vec<Card> as Wire>::senc(m.cards);
        let e2 = <String as Wire>::senc(m.date);
        let e3 = <Option<u16> as Wire>::senc(m.round);
        assert((e1 + e2 + e3) + rest =~= e1 + (e2 + (e3 + rest)));
        <Vec<Card> as Wire>::lemma_rt(m.cards, e2 + (e3 + rest));
        <String as Wire>::lemma_rt(m.date, e3 + rest);
        <Option<u16> as Wire>::lemma_rt(m.round, rest);
        assert(ChangeContentModel { cards: m.cards, date: m.date, round: m.round } == m);
    }

    proof fn lemma_progress(s: Seq<u8>) {
        match <Vec<Card> as Wire>::sdec(s) {
            Some((cards, r1)) => {
                <Vec<Card> as Wire>::lemma_progress(s);
                match <String as Wire>::sdec(r1) {
                    Some((date, r2)) => {
                        <String as Wire>::lemma_progress(r1);
                        <Option<u16> as Wire>::lemma_progress(r2);
                    },
                    None => {},
                }
            },
            None => {},
        }
    }

    fn enc(&self, out: &mut Vec<u8>) {
        self.cards.enc(out);
        self.date.enc(out);
        self.round.enc(out);
        proof {
            let e1 = <Vec<Card> as Wire>::senc(self.cards.model());
            let e2 = <String as Wire>::senc(self.date@);
            let e3 = <Option<u16> as Wire>::senc(self.round);
            assert(old(out)@ + e1 + e2 + e3 =~= old(out)@ + (e1 + e2 + e3));
        }
    }

    fn dec(buf: &Vec<u8>, pos: usize) -> (r: Option<(Self, usize)>) {
        match <Vec<Card> as Wire>::dec(buf, pos) {
            Some((cards, p1)) => match String::dec(buf, p1) {
                Some((date, p2)) => match <Option<u16> as Wire>::dec(buf, p2) {
                    Some((round, p3)) => Some((ChangeContent { cards, date, round }, p3)),
                    None => None,
                },
                None => None,
            },
            None => None,
        }
    }
}

impl Wire for Change {
    type M = ChangeModel;

    open spec fn model(self) -> ChangeModel {
        match self {
            Change::Nothing => ChangeModel::Nothing,
            Change::Add(c) => ChangeModel::Add(c.model()),
            Change::Remove(c) => ChangeModel::Remove(c.model()),
        }
    }

    open spec fn wf(m: ChangeModel) -> bool {
        match m {
            ChangeModel::Nothing => true,
            ChangeModel::Add(c) => <ChangeContent as Wire>::wf(c),
            ChangeModel::Remove(c) => <ChangeContent as Wire>::wf(c),
        }
    }

    open spec fn senc(m: ChangeModel) -> Seq<u8> {
        match m {
            ChangeModel::Nothing => seq![0u8],
            ChangeModel::Add(c) => seq![1u8] + <ChangeContent as Wire>::senc(c),
            ChangeModel::Remove(c) => seq![2u8] + <ChangeContent as Wire>::senc(c),
        }
    }

    open spec fn sdec(s: Seq<u8>) -> Option<(ChangeModel, Seq<u8>)> {
        if s.len() >= 1 && s[0] == 0 {
            Some((ChangeModel::Nothing, s.skip(1)))
        } else if s.len() >= 1 && (s[0] == 1 || s[0] == 2) {
            match <ChangeContent as Wire>::sdec(s.skip(1)) {
                Some((c, r)) => Some(
                    (
                        if s[0] == 1 {
                            ChangeModel::Add(c)
                        } else {
                            ChangeModel::Remove(c)
                        },
                        r,
                    ),
                ),
                None => None,
            }
        } else {
            None
        }
    }

    proof fn lemma_rt(m: ChangeModel, rest: Seq<u8>) {
        match m {
            ChangeModel::Nothing => {
                assert((Self::senc(m) + rest).skip(1) =~= rest);
            },
            ChangeModel::Add(c) => {
                let e = <ChangeContent as Wire>::senc(c);
                assert((seq![1u8] + e) + rest =~= seq![1u8] + (e + rest));
                assert((Self::senc(m) + rest).skip(1) =~= e + rest);
                <ChangeContent as Wire>::lemma_rt(c, rest);
            },
            ChangeModel::Remove(c) => {
                let e = <ChangeContent as Wire>::senc(c);
                assert((seq![2u8] + e) + rest =~= seq![2u8] + (e + rest));
                assert((Self::senc(m) + rest).skip(1) =~= e + rest);
                <ChangeContent as Wire>::lemma_rt(c, rest);
            },
        }
    }

    proof fn lemma_progress(s: Seq<u8>) {
        if s.len() >= 1 && (s[0] == 1 || s[0] == 2) {
            <ChangeContent as Wire>::lemma_progress(s.skip(1));
        }
    }

    fn enc(&self, out: &mut Vec<u8>) {
        match self {
            Change::Nothing => {
                out.push(0);
                assert(final(out)@ =~= old(out)@ + seq![0u8]);
            },
            Change::Add(c) => {
                out.push(1);
                c.enc(out);
                proof {
                    let e = <ChangeContent as Wire>::senc(c.model());
                    assert(old(out)@ + seq![1u8] + e =~= old(out)@ + (seq![1u8] + e));
                }
            },
            Change::Remove(c) => {
                out.push(2);
                c.enc(out);
                proof {
                    let e = <ChangeContent as Wire>::senc(c.model());
                    assert(old(out)@ + seq![2u8] + e =~= old(out)@ + (seq![2u8] + e));
                }
            },
        }
    }

    fn dec(buf: &Vec<u8>, pos: usize) -> (r: Option<(Self, usize)>) {
        if pos < buf.len() && buf[pos] == 0 {
            proof {
                assert(buf@.skip(pos as int).skip(1) =~= buf@.skip(pos as int + 1));
            }
            Some((Change::Nothing, pos + 1))
        } else if pos < buf.len() && (buf[pos] == 1 || buf[pos] == 2) {
            proof {
                assert(buf@.skip(pos as int).skip(1) =~= buf@.skip(pos as int + 1));
            }
            match ChangeContent::dec(buf, pos + 1) {
                Some((c, p)) => {
                    if buf[pos] == 1 {
                        Some((Change::Add(c), p))
                    } else {
                        Some((Change::Remove(c), p))
                    }
                },
                None => None,
            }
        } else {
            None
        }
    }
}

impl Wire for Action {
    type M = ActionModel;

    open spec fn model(self) -> ActionModel {
        ActionModel { name: self.name@, date: self.date@ }
    }

    open spec fn wf(m: ActionModel) -> bool {
        <String as Wire>::wf(m.name) && <String as Wire>::wf(m.date)
    }

    open spec fn senc(m: ActionModel) -> Seq<u8> {
        <String as Wire>::senc(m.name) + <String as Wire>::senc(m.date)
    }

    open spec fn sdec(s: Seq<u8>) -> Option<(ActionModel, Seq<u8>)> {
        match <String as Wire>::sdec(s) {
            Some((name, r1)) => match <String as Wire>::sdec(r1) {
                Some((date, r2)) => Some((ActionModel { name, date }, r2)),
                None => None,
            },
            None => None,
        }
    }

    proof fn lemma_rt(m: ActionModel, rest: Seq<u8>) {
        let e1 = <String as Wire>::senc(m.name);
        let e2 = <String as Wire>::senc(m.date);
        assert((e1 + e2) + rest =~= e1 + (e2 + rest));
        <String as Wire>::lemma_rt(m.name, e2 + rest);
        <String as Wire>::lemma_rt(m.date, rest);
        assert(ActionModel { name: m.name, date: m.date } == m);
    }

    proof fn lemma_progress(s: Seq<u8>) {
        match <String as Wire>::sdec(s) {
            Some((name, r1)) => {
                <String as Wire>::lemma_progress(s);
                <String as Wire>::lemma_progress(r1);
            },
            None => {},
        }
    }

    fn enc(&self, out: &mut Vec<u8>) {
        self.name.enc(out);
        self.date.enc(out);
        proof {
            let e1 = <String as Wire>::senc(self.name@);
            let e2 = <String as Wire>::senc(self.date@);
            assert(old(out)@ + e1 + e2 =~= old(out)@ + (e1 + e2));
        }
    }

    fn dec(buf: &Vec<u8>, pos: usize) -> (r: Option<(Self, usize)>) {
        match String::dec(buf, pos) {
            Some((name, p1)) => match String::dec(buf, p1) {
                Some((date, p2)) => Some((Action { name, date }, p2)),
                None => None,
            },
            None => None,
        }
    }
}

impl Wire for SetRotation {
    type M = SetRotationModel;

    open spec fn model(self) -> SetRotationModel {
        match self {
            SetRotation::Disabled => SetRotationModel::Disabled,
            SetRotation::Enabled(n) => SetRotationModel::Enabled(n),
        }
    }

    open spec fn wf(m: SetRotationModel) -> bool {
        match m {
            SetRotationModel::Disabled => true,
            SetRotationModel::Enabled(n) => <usize as Wire>::wf(n),
        }
    }

    open spec fn senc(m: SetRotationModel) -> Seq<u8> {
        match m {
            SetRotationModel::Disabled => seq![0u8],
            SetRotationModel::Enabled(n) => seq![1u8] + <usize as Wire>::senc(n),
        }
    }

    open spec fn sdec(s: Seq<u8>) -> Option<(SetRotationModel, Seq<u8>)> {
        if s.len() >= 1 && s[0] == 0 {
            Some((SetRotationModel::Disabled, s.skip(1)))
        } else if s.len() >= 1 && s[0] == 1 {
            match <usize as Wire>::sdec(s.skip(1)) {
                Some((n, r)) => Some((SetRotationModel::Enabled(n), r)),
                None => None,
            }
        } else {
            None
        }
    }

    proof fn lemma_rt(m: SetRotationModel, rest: Seq<u8>) {
        match m {
            SetRotationModel::Disabled => {
                assert((Self::senc(m) + rest).skip(1) =~= rest);
            },
            SetRotationModel::Enabled(n) => {
                let e = <usize as Wire>::senc(n);
                assert((seq![1u8] + e) + rest =~= seq![1u8] + (e + rest));
                assert((Self::senc(m) + rest).skip(1) =~= e + rest);
                <usize as Wire>::lemma_rt(n, rest);
            },
        }
    }

    proof fn lemma_progress(s: Seq<u8>) {
        if s.len() >= 1 && s[0] == 1 {
            <usize as Wire>::lemma_progress(s.skip(1));
        }
    }

    fn enc(&self, out: &mut Vec<u8>) {
        match self {
            SetRotation::Disabled => {
                out.push(0);
                assert(final(out)@ =~= old(out)@ + seq![0u8]);
            },
            SetRotation::Enabled(n) => {
                out.push(1);
                n.enc(out);
                proof {
                    let e = <usize as Wire>::senc(*n);
                    assert(old(out)@ + seq![1u8] + e =~= old(out)@ + (seq![1u8] + e));
                }
            },
        }
    }

    fn dec(buf: &Vec<u8>, pos: usize) -> (r: Option<(Self, usize)>) {
        if pos < buf.len() && buf[pos] == 0 {
            proof {
                assert(buf@.skip(pos as int).skip(1) =~= buf@.skip(pos as int + 1));
            }
            Some((SetRotation::Disabled, pos + 1))
        } else if pos < buf.len() && buf[pos] == 1 {
            proof {
                assert(buf@.skip(pos as int).skip(1) =~= buf@.skip(pos as int + 1));
            }
            match usize::dec(buf, pos + 1) {
                Some((n, p)) => Some((SetRotation::Enabled(n), p)),
                None => None,
            }
        } else {
            None
        }
    }
}

impl Wire for BattlePackSettings {
    type M = BattlePackSettingsModel;

    open spec fn model(self) -> BattlePackSettingsModel {
        BattlePackSettingsModel { rounds_num: self.rounds_num, set_name: self.set_name@ }
    }

    open spec fn wf(m: BattlePackSettingsModel) -> bool {
        <usize as Wire>::wf(m.rounds_num) && <String as Wire>::wf(m.set_name)
    }

    open spec fn senc(m: BattlePackSettingsModel) -> Seq<u8> {
        <usize as Wire>::senc(m.rounds_num) + <String as Wire>::senc(m.set_name)
    }

    open spec fn sdec(s: Seq<u8>) -> Option<(BattlePackSettingsModel, Seq<u8>)> {
        match <usize as Wire>::sdec(s) {
            Some((rounds_num, r1)) => match <String as Wire>::sdec(r1) {
                Some((set_name, r2)) => Some((BattlePackSettingsModel { rounds_num, set_name }, r2)),
                None => None,
            },
            None => None,
        }
    }

    proof fn lemma_rt(m: BattlePackSettingsModel, rest: Seq<u8>) {
        let e1 = <usize as Wire>::senc(m.rounds_num);
        let e2 = <String as Wire>::senc(m.set_name);
        assert((e1 + e2) + rest =~= e1 + (e2 + rest));
        <usize as Wire>::lemma_rt(m.rounds_num, e2 + rest);
        <String as Wire>::lemma_rt(m.set_name, rest);
        assert(BattlePackSettingsModel { rounds_num: m.rounds_num, set_name: m.set_name } == m);
    }

    proof fn lemma_progress(s: Seq<u8>) {
        match <usize as Wire>::sdec(s) {
            Some((n, r1)) => {
                <usize as Wire>::lemma_progress(s);
                <String as Wire>::lemma_progress(r1);
            },
            None => {},
        }
    }

    fn enc(&self, out: &mut Vec<u8>) {
        self.rounds_num.enc(out);
        self.set_name.enc(out);
        proof {
            let e1 = <usize as Wire>::senc(self.rounds_num);
            let e2 = <String as Wire>::senc(self.set_name@);
            assert(old(out)@ + e1 + e2 =~= old(out)@ + (e1 + e2));
        }
    }

    fn dec(buf: &Vec<u8>, pos: usize) -> (r: Option<(Self, usize)>) {
        match usize::dec(buf, pos) {
            Some((rounds_num, p1)) => match String::dec(buf, p1) {
                Some((set_name, p2)) => Some((BattlePackSettings { rounds_num, set_name }, p2)),
                None => None,
            },
            None => None,
        }
    }
}

impl Wire for ChoiceSettings {
    type M = ChoiceSettingsModel;

    open spec fn model(self) -> ChoiceSettingsModel {
        ChoiceSettingsModel {
            rounds_num: self.rounds_num,
            choices_num: self.choices_num,
            selections_num: self.selections_num,
            cards_num: self.cards_num,
            sets: self.sets.model(),
            rotate: self.rotate.model(),
            allow_undo: self.allow_undo,
        }
    }

    open spec fn wf(m: ChoiceSettingsModel) -> bool {
        &&& <usize as Wire>::wf(m.rounds_num)
        &&& <usize as Wire>::wf(m.choices_num)
        &&& <usize as Wire>::wf(m.selections_num)
        &&& <usize as Wire>::wf(m.cards_num)
        &&& <Vec<Vec<String>> as Wire>::wf(m.sets)
        &&& <SetRotation as Wire>::wf(m.rotate)
    }

    open spec fn senc(m: ChoiceSettingsModel) -> Seq<u8> {
        <usize as Wire>::senc(m.rounds_num) + <usize as Wire>::senc(m.choices_num) + <usize as Wire>::senc(
            m.selections_num,
        ) + <usize as Wire>::senc(m.cards_num) + <Vec<Vec<String>> as Wire>::senc(m.sets)
            + <SetRotation as Wire>::senc(m.rotate) + <bool as Wire>::senc(m.allow_undo)
    }

    open spec fn sdec(s: Seq<u8>) -> Option<(ChoiceSettingsModel, Seq<u8>)> {
        match <usize as Wire>::sdec(s) {
            Some((rounds_num, r1)) => match <usize as Wire>::sdec(r1) {
                Some((choices_num, r2)) => match <usize as Wire>::sdec(r2) {
                    Some((selections_num, r3)) => match <usize as Wire>::sdec(r3) {
                        Some((cards_num, r4)) => match <Vec<Vec<String>> as Wire>::sdec(r4) {
                            Some((sets, r5)) => match <SetRotation as Wire>::sdec(r5) {
                                Some((rotate, r6)) => match <bool as Wire>::sdec(r6) {
                                    Some((allow_undo, r7)) => Some(
                                        (
                                            ChoiceSettingsModel {
                                                rounds_num,
                                                choices_num,
                                                selections_num,
                                                cards_num,
                                                sets,
                                                rotate,
                                                allow_undo,
                                            },
                                            r7,
                                        ),
                                    ),
                                    None => None,
                                },
                                None => None,
                            },
                            None => None,
                        },
                        None => None,
                    },
                    None => None,
                },
                None => None,
            },
            None => None,
        }
    }

    proof fn lemma_rt(m: ChoiceSettingsModel, rest: Seq<u8>) {
        let e1 = <usize as Wire>::senc(m.rounds_num);
        let e2 = <usize as Wire>::senc(m.choices_num);
        let e3 = <usize as Wire>::senc(m.selections_num);
        let e4 = <usize as Wire>::senc(m.cards_num);
        let e5 = <Vec<Vec<String>> as Wire>::senc(m.sets);
        let e6 = <SetRotation as Wire>::senc(m.rotate);
        let e7 = <bool as Wire>::senc(m.allow_undo);
        assert((e1 + e2 + e3 + e4 + e5 + e6 + e7) + rest =~= e1 + (e2 + (e3 + (e4 + (e5 + (e6 + (e7
            + rest)))))));
        <usize as Wire>::lemma_rt(m.rounds_num, e2 + (e3 + (e4 + (e5 + (e6 + (e7 + rest))))));
        <usize as Wire>::lemma_rt(m.choices_num, e3 + (e4 + (e5 + (e6 + (e7 + rest)))));
        <usize as Wire>::lemma_rt(m.selections_num, e4 + (e5 + (e6 + (e7 + rest))));
        <usize as Wire>::lemma_rt(m.cards_num, e5 + (e6 + (e7 + rest)));
        <Vec<Vec<String>> as Wire>::lemma_rt(m.sets, e6 + (e7 + rest));
        <SetRotation as Wire>::lemma_rt(m.rotate, e7 + rest);
        <bool as Wire>::lemma_rt(m.allow_undo, rest);
        assert(ChoiceSettingsModel {
            rounds_num: m.rounds_num,
            choices_num: m.choices_num,
            selections_num: m.selections_num,
            cards_num: m.cards_num,
            sets: m.sets,
            rotate: m.rotate,
            allow_undo: m.allow_undo,
        } == m);
    }

    proof fn lemma_progress(s: Seq<u8>) {
        match <usize as Wire>::sdec(s) {
            Some((a1, r1)) => {
                <usize as Wire>::lemma_progress(s);
                match <usize as Wire>::sdec(r1) {
                    Some((a2, r2)) => {
                        <usize as Wire>::lemma_progress(r1);
                        match <usize as Wire>::sdec(r2) {
                            Some((a3, r3)) => {
                                <usize as Wire>::lemma_progress(r2);
                                match <usize as Wire>::sdec(r3) {
                                    Some((a4, r4)) => {
                                        <usize as Wire>::lemma_progress(r3);
                                        match <Vec<Vec<String>> as Wire>::sdec(r4) {
                                            Some((a5, r5)) => {
                                                <Vec<Vec<String>> as Wire>::lemma_progress(r4);
                                                match <SetRotation as Wire>::sdec(r5) {
                                                    Some((a6, r6)) => {
                                                        <SetRotation as Wire>::lemma_progress(r5);
                                                        <bool as Wire>::lemma_progress(r6);
                                                    },
                                                    None => {},
                                                }
                                            },
                                            None => {},
                                        }
                                    },
                                    None => {},
                                }
                            },
                            None => {},
                        }
                    },
                    None => {},
                }
            },
            None => {},
        }
    }

    fn enc(&self, out: &mut Vec<u8>) {
        self.rounds_num.enc(out);
        self.choices_num.enc(out);
        self.selections_num.enc(out);
        self.cards_num.enc(out);
        self.sets.enc(out);
        self.rotate.enc(out);
        self.allow_undo.enc(out);
        proof {
            let e1 = <usize as Wire>::senc(self.rounds_num);
            let e2 = <usize as Wire>::senc(self.choices_num);
            let e3 = <usize as Wire>::senc(self.selections_num);
            let e4 = <usize as Wire>::senc(self.cards_num);
            let e5 = <Vec<Vec<String>> as Wire>::senc(self.sets.model());
            let e6 = <SetRotation as Wire>::senc(self.rotate.model());
            let e7 = <bool as Wire>::senc(self.allow_undo);
            assert(old(out)@ + e1 + e2 + e3 + e4 + e5 + e6 + e7 =~= old(out)@ + (e1 + e2 + e3 + e4
                + e5 + e6 + e7));
        }
    }

    fn dec(buf: &Vec<u8>, pos: usize) -> (r: Option<(Self, usize)>) {
        match usize::dec(buf, pos) {
            Some((rounds_num, p1)) => match usize::dec(buf, p1) {
                Some((choices_num, p2)) => match usize::dec(buf, p2) {
                    Some((selections_num, p3)) => match usize::dec(buf, p3) {
                        Some((cards_num, p4)) => match <Vec<Vec<String>> as Wire>::dec(buf, p4) {
                            Some((sets, p5)) => match SetRotation::dec(buf, p5) {
                                Some((rotate, p6)) => match bool::dec(buf, p6) {
                                    Some((allow_undo, p7)) => Some(
                                        (
                                            ChoiceSettings {
                                                rounds_num,
                                                choices_num,
                                                selections_num,
                                                cards_num,
                                                sets,
                                                rotate,
                                                allow_undo,
                                            },
                                            p7,
                                        ),
                                    ),
                                    None => None,
                                },
                                None => None,
                            },
                            None => None,
                        },
                        None => None,
                    },
                    None => None,
                },
                None => None,
            },
            None => None,
        }
    }
}

impl Wire for DraftSettings {
    type M = DraftSettingsModel;

    open spec fn model(self) -> DraftSettingsModel {
        match self {
            DraftSettings::Nothing => DraftSettingsModel::Nothing,
            DraftSettings::BattlePackDraft(b) => DraftSettingsModel::BattlePackDraft(b.model()),
            DraftSettings::ChoiceDraft(c) => DraftSettingsModel::ChoiceDraft(c.model()),
        }
    }

    open spec fn wf(m: DraftSettingsModel) -> bool {
        match m {
            DraftSettingsModel::Nothing => true,
            DraftSettingsModel::BattlePackDraft(b) => <BattlePackSettings as Wire>::wf(b),
            DraftSettingsModel::ChoiceDraft(c) => <ChoiceSettings as Wire>::wf(c),
        }
    }

    open spec fn senc(m: DraftSettingsModel) -> Seq<u8> {
        match m {
            DraftSettingsModel::Nothing => seq![0u8],
            DraftSettingsModel::BattlePackDraft(b) => seq![1u8] + <BattlePackSettings as Wire>::senc(
                b,
            ),
            DraftSettingsModel::ChoiceDraft(c) => seq![2u8] + <ChoiceSettings as Wire>::senc(c),
        }
    }

    open spec fn sdec(s: Seq<u8>) -> Option<(DraftSettingsModel, Seq<u8>)> {
        if s.len() >= 1 && s[0] == 0 {
            Some((DraftSettingsModel::Nothing, s.skip(1)))
        } else if s.len() >= 1 && s[0] == 1 {
            match <BattlePackSettings as Wire>::sdec(s.skip(1)) {
                Some((b, r)) => Some((DraftSettingsModel::BattlePackDraft(b), r)),
                None => None,
            }
        } else if s.len() >= 1 && s[0] == 2 {
            match <ChoiceSettings as Wire>::sdec(s.skip(1)) {
                Some((c, r)) => Some((DraftSettingsModel::ChoiceDraft(c), r)),
                None => None,
            }
        } else {
            None
        }
    }

    proof fn lemma_rt(m: DraftSettingsModel, rest: Seq<u8>) {
        match m {
            DraftSettingsModel::Nothing => {
                assert((Self::senc(m) + rest).skip(1) =~= rest);
            },
            DraftSettingsModel::BattlePackDraft(b) => {
                let e = <BattlePackSettings as Wire>::senc(b);
                assert((seq![1u8] + e) + rest =~= seq![1u8] + (e + rest));
                assert((Self::senc(m) + rest).skip(1) =~= e + rest);
                <BattlePackSettings as Wire>::lemma_rt(b, rest);
            },
            DraftSettingsModel::ChoiceDraft(c) => {
                let e = <ChoiceSettings as Wire>::senc(c);
                assert((seq![2u8] + e) + rest =~= seq![2u8] + (e + rest));
                assert((Self::senc(m) + rest).skip(1) =~= e + rest);
                <ChoiceSettings as Wire>::lemma_rt(c, rest);
            },
        }
    }

    proof fn lemma_progress(s: Seq<u8>) {
        if s.len() >= 1 && s[0] == 1 {
            <BattlePackSettings as Wire>::lemma_progress(s.skip(1));
        }
        if s.len() >= 1 && s[0] == 2 {
            <ChoiceSettings as Wire>::lemma_progress(s.skip(1));
        }
    }

    fn enc(&self, out: &mut Vec<u8>) {
        match self {
            DraftSettings::Nothing => {
                out.push(0);
                assert(final(out)@ =~= old(out)@ + seq![0u8]);
            },
            DraftSettings::BattlePackDraft(b) => {
                out.push(1);
                b.enc(out);
                proof {
                    let e = <BattlePackSettings as Wire>::senc(b.model());
                    assert(old(out)@ + seq![1u8] + e =~= old(out)@ + (seq![1u8] + e));
                }
            },
            DraftSettings::ChoiceDraft(c) => {
                out.push(2);
                c.enc(out);
                proof {
                    let e = <ChoiceSettings as Wire>::senc(c.model());
                    assert(old(out)@ + seq![2u8] + e =~= old(out)@ + (seq![2u8] + e));
                }
            },
        }
    }

    fn dec(buf: &Vec<u8>, pos: usize) -> (r: Option<(Self, usize)>) {
        if pos < buf.len() && buf[pos] == 0 {
            proof {
                assert(buf@.skip(pos as int).skip(1) =~= buf@.skip(pos as int + 1));
            }
            Some((DraftSettings::Nothing, pos + 1))
        } else if pos < buf.len() && buf[pos] == 1 {
            proof {
                assert(buf@.skip(pos as int).skip(1) =~= buf@.skip(pos as int + 1));
            }
            match BattlePackSettings::dec(buf, pos + 1) {
                Some((b, p)) => Some((DraftSettings::BattlePackDraft(b), p)),
                None => None,
            }
        } else if pos < buf.len() && buf[pos] == 2 {
            proof {
                assert(buf@.skip(pos as int).skip(1) =~= buf@.skip(pos as int + 1));
            }
            match ChoiceSettings::dec(buf, pos + 1) {
                Some((c, p)) => Some((DraftSettings::ChoiceDraft(c), p)),
                None => None,
            }
        } else {
            None
        }
    }
}

impl Wire for MetaData {
    type M = MetaDataModel;

    open spec fn model(self) -> MetaDataModel {
        MetaDataModel {
            name: self.name@,
            last_changed: self.last_changed@,
            draft_settings: self.draft_settings.model(),
        }
    }

    open spec fn wf(m: MetaDataModel) -> bool {
        &&& <String as Wire>::wf(m.name)
        &&& <String as Wire>::wf(m.last_changed)
        &&& <DraftSettings as Wire>::wf(m.draft_settings)
    }

    open spec fn senc(m: MetaDataModel) -> Seq<u8> {
        <String as Wire>::senc(m.name) + <String as Wire>::senc(m.last_changed)
            + <DraftSettings as Wire>::senc(m.draft_settings)
    }

    open spec fn sdec(s: Seq<u8>) -> Option<(MetaDataModel, Seq<u8>)> {
        match <String as Wire>::sdec(s) {
            Some((name, r1)) => match <String as Wire>::sdec(r1) {
                Some((last_changed, r2)) => match <DraftSettings as Wire>::sdec(r2) {
                    Some((draft_settings, r3)) => Some(
                        (MetaDataModel { name, last_changed, draft_settings }, r3),
                    ),
                    None => None,
                },
                None => None,
            },
            None => None,
        }
    }

    proof fn lemma_rt(m: MetaDataModel, rest: Seq<u8>) {
        let e1 = <String as Wire>::senc(m.name);
        let e2 = <String as Wire>::senc(m.last_changed);
        let e3 = <DraftSettings as Wire>::senc(m.draft_settings);
        assert((e1 + e2 + e3) + rest =~= e1 + (e2 + (e3 + rest)));
        <String as Wire>::lemma_rt(m.name, e2 + (e3 + rest));
        <String as Wire>::lemma_rt(m.last_changed, e3 + rest);
        <DraftSettings as Wire>::lemma_rt(m.draft_settings, rest);
        assert(MetaDataModel {
            name: m.name,
            last_changed: m.last_changed,
            draft_settings: m.draft_settings,
        } == m);
    }

    proof fn lemma_progress(s: Seq<u8>) {
        match <String as Wire>::sdec(s) {
            Some((name, r1)) => {
                <String as Wire>::lemma_progress(s);
                match <String as Wire>::sdec(r1) {
                    Some((lc, r2)) => {
                        <String as Wire>::lemma_progress(r1);
                        <DraftSettings as Wire>::lemma_progress(r2);
                    },
                    None => {},
                }
            },
            None => {},
        }
    }

    fn enc(&self, out: &mut Vec<u8>) {
        self.name.enc(out);
        self.last_changed.enc(out);
        self.draft_settings.enc(out);
        proof {
            let e1 = <String as Wire>::senc(self.name@);
            let e2 = <String as Wire>::senc(self.last_changed@);
            let e3 = <DraftSettings as Wire>::senc(self.draft_settings.model());
            assert(old(out)@ + e1 + e2 + e3 =~= old(out)@ + (e1 + e2 + e3));
        }
    }

    fn dec(buf: &Vec<u8>, pos: usize) -> (r: Option<(Self, usize)>) {
        match String::dec(buf, pos) {
            Some((name, p1)) => match String::dec(buf, p1) {
                Some((last_changed, p2)) => match DraftSettings::dec(buf, p2) {
                    Some((draft_settings, p3)) => Some(
                        (MetaData { name, last_changed, draft_settings }, p3),
                    ),
                    None => None,
                },
                None => None,
            },
            None => None,
        }
    }
}

/// Whether a decoded card/quantity list satisfies the collection invariant:
/// unique card ids, strictly positive quantities.
fn check_cards_wf(v: &Vec<(Card, u64)>) -> (b: bool)
    ensures
        b == cards_wf(v@),
{
    let mut i: usize = 0;
    while i < v.len()
        invariant
            i <= v@.len(),
            forall|p: int, q: int|
                0 <= p < q < i ==> (#[trigger] v@[p]).0.id != (#[trigger] v@[q]).0.id,
            forall|p: int| 0 <= p < i ==> (#[trigger] v@[p]).1 > 0,
        decreases v@.len() - i,
    {
        if v[i].1 == 0 {
            return false;
        }
        let mut j: usize = 0;
        while j < i
            invariant
                j <= i,
                i < v@.len(),
                forall|p: int| 0 <= p < j ==> (#[trigger] v@[p]).0.id != v@[i as int].0.id,
            decreases i - j,
        {
            if v[j].0.id == v[i].0.id {
                return false;
            }
            j += 1;
        }
        i += 1;
    }
    true
}

impl Wire for Collection {
    type M = CollectionModel;

    open spec fn model(self) -> CollectionModel {
        CollectionModel {
            meta_data: self.meta_data.model(),
            cards: self.cards.model(),
            changes: self.changes.model(),
            tags: self.tags.model(),
            actions: self.actions.model(),
        }
    }

    open spec fn wf(m: CollectionModel) -> bool {
        &&& <MetaData as Wire>::wf(m.meta_data)
        &&& <Vec<(Card, u64)> as Wire>::wf(m.cards)
        &&& <std::collections::VecDeque<Change> as Wire>::wf(m.changes)
        &&& <Vec<(String, Vec<Card>)> as Wire>::wf(m.tags)
        &&& <Vec<Action> as Wire>::wf(m.actions)
        &&& cards_wf(m.cards)
    }

    open spec fn senc(m: CollectionModel) -> Seq<u8> {
        <MetaData as Wire>::senc(m.meta_data) + <Vec<(Card, u64)> as Wire>::senc(m.cards)
            + <std::collections::VecDeque<Change> as Wire>::senc(m.changes) + <Vec<
            (String, Vec<Card>),
        > as Wire>::senc(m.tags) + <Vec<Action> as Wire>::senc(m.actions)
    }

    open spec fn sdec(s: Seq<u8>) -> Option<(CollectionModel, Seq<u8>)> {
        match <MetaData as Wire>::sdec(s) {
            Some((meta_data, r1)) => match <Vec<(Card, u64)> as Wire>::sdec(r1) {
                Some((cards, r2)) => match <std::collections::VecDeque<Change> as Wire>::sdec(r2) {
                    Some((changes, r3)) => match <Vec<(String, Vec<Card>)> as Wire>::sdec(r3) {
                        Some((tags, r4)) => match <Vec<Action> as Wire>::sdec(r4) {
                            Some((actions, r5)) => if cards_wf(cards) {
                                Some(
                                    (
                                        CollectionModel { meta_data, cards, changes, tags, actions },
                                        r5,
                                    ),
                                )
                            } else {
                                None
                            },
                            None => None,
                        },
                        None => None,
                    },
                    None => None,
                },
                None => None,
            },
            None => None,
        }
    }

    #[verifier::rlimit(100)]
    proof fn lemma_rt(m: CollectionModel, rest: Seq<u8>) {
        let e1 = <MetaData as Wire>::senc(m.meta_data);
        let e2 = <Vec<(Card, u64)> as Wire>::senc(m.cards);
        let e3 = <std::collections::VecDeque<Change> as Wire>::senc(m.changes);
        let e4 = <Vec<(String, Vec<Card>)> as Wire>::senc(m.tags);
        let e5 = <Vec<Action> as Wire>::senc(m.actions);
        assert((e1 + e2 + e3 + e4 + e5) + rest =~= e1 + (e2 + (e3 + (e4 + (e5 + rest)))));
        <MetaData as Wire>::lemma_rt(m.meta_data, e2 + (e3 + (e4 + (e5 + rest))));
        <Vec<(Card, u64)> as Wire>::lemma_rt(m.cards, e3 + (e4 + (e5 + rest)));
        <std::collections::VecDeque<Change> as Wire>::lemma_rt(m.changes, e4 + (e5 + rest));
        <Vec<(String, Vec<Card>)> as Wire>::lemma_rt(m.tags, e5 + rest);
        <Vec<Action> as Wire>::lemma_rt(m.actions, rest);
        assert(CollectionModel {
            meta_data: m.meta_data,
            cards: m.cards,
            changes: m.changes,
            tags: m.tags,
            actions: m.actions,
        } == m);
    }

    proof fn lemma_progress(s: Seq<u8>) {
        match <MetaData as Wire>::sdec(s) {
            Some((a1, r1)) => {
                <MetaData as Wire>::lemma_progress(s);
                match <Vec<(Card, u64)> as Wire>::sdec(r1) {
                    Some((a2, r2)) => {
                        <Vec<(Card, u64)> as Wire>::lemma_progress(r1);
                        match <std::collections::VecDeque<Change> as Wire>::sdec(r2) {
                            Some((a3, r3)) => {
                                <std::collections::VecDeque<Change> as Wire>::lemma_progress(r2);
                                match <Vec<(String, Vec<Card>)> as Wire>::sdec(r3) {
                                    Some((a4, r4)) => {
                                        <Vec<(String, Vec<Card>)> as Wire>::lemma_progress(r3);
                                        <Vec<Action> as Wire>::lemma_progress(r4);
                                    },
                                    None => {},
                                }
                            },
                            None => {},
                        }
                    },
                    None => {},
                }
            },
            None => {},
        }
    }

    fn enc(&self, out: &mut Vec<u8>) {
        self.meta_data.enc(out);
        self.cards.enc(out);
        self.changes.enc(out);
        self.tags.enc(out);
        self.actions.enc(out);
        proof {
            let e1 = <MetaData as Wire>::senc(self.meta_data.model());
            let e2 = <Vec<(Card, u64)> as Wire>::senc(self.cards.model());
            let e3 = <std::collections::VecDeque<Change> as Wire>::senc(self.changes.model());
            let e4 = <Vec<(String, Vec<Card>)> as Wire>::senc(self.tags.model());
            let e5 = <Vec<Action> as Wire>::senc(self.actions.model());
            assert(old(out)@ + e1 + e2 + e3 + e4 + e5 =~= old(out)@ + (e1 + e2 + e3 + e4 + e5));
        }
    }

    fn dec(buf: &Vec<u8>, pos: usize) -> (r: Option<(Self, usize)>) {
        match MetaData::dec(buf, pos) {
            Some((meta_data, p1)) => match <Vec<(Card, u64)> as Wire>::dec(buf, p1) {
                Some((cards, p2)) => match <std::collections::VecDeque<Change> as Wire>::dec(
                    buf,
                    p2,
                ) {
                    Some((changes, p3)) => match <Vec<(String, Vec<Card>)> as Wire>::dec(buf, p3) {
                        Some((tags, p4)) => match <Vec<Action> as Wire>::dec(buf, p4) {
                            Some((actions, p5)) => {
                                proof {
                                    assert(cards.model() =~= cards@);
                                }
                                if check_cards_wf(&cards) {
                                    Some(
                                        (
                                            Collection { meta_data, cards, changes, tags, actions },
                                            p5,
                                        ),
                                    )
                                } else {
                                    None
                                }
                            },
                            None => None,
                        },
                        None => None,
                    },
                    None => None,
                },
                None => None,
            },
            None => None,
        }
    }
}

impl Collection {
    /// Serializes the whole structure in the wire format.
    pub fn to_bytes(&self) -> (r: Vec<u8>)
        ensures
            r@ == <Collection as Wire>::senc(self.model()),
    {
        let mut out: Vec<u8> = Vec::new();
        self.enc(&mut out);
        proof {
            assert(Seq::<u8>::empty() + <Collection as Wire>::senc(self.model())
                =~= <Collection as Wire>::senc(self.model()));
        }
        out
    }

    /// Fully decodes a persisted collection; fails exactly on bytes the wire
    /// format rejects. A decoded collection satisfies the invariant.
    pub fn from_bytes(bytes: &Vec<u8>) -> (r: Option<Collection>)
        ensures
            match r {
                Some(c) => <Collection as Wire>::sdec(bytes@) matches Some((m, rest)) && c.model()
                    == m && c.wf(),
                None => <Collection as Wire>::sdec(bytes@) is None,
            },
    {
        proof {
            assert(bytes@.skip(0) =~= bytes@);
        }
        match Collection::dec(bytes, 0) {
            Some((c, _)) => {
                proof {
                    assert(c.cards.model() =~= c.cards@);
                }
                Some(c)
            },
            None => None,
        }
    }

    /// Decodes only the metadata-bearing prefix of a persisted collection,
    /// through the identical wire format.
    pub fn metadata_from_bytes(bytes: &Vec<u8>) -> (r: Option<MetaData>)
        ensures
            match r {
                Some(md) => <MetaData as Wire>::sdec(bytes@) matches Some((m, rest)) && md.model()
                    == m,
                None => <MetaData as Wire>::sdec(bytes@) is None,
            },
    {
        proof {
            assert(bytes@.skip(0) =~= bytes@);
        }
        match MetaData::dec(bytes, 0) {
            Some((md, _)) => Some(md),
            None => None,
        }
    }
}

/// Relies on chrono's `Utc::now` formatted with "%Y-%m-%d %H:%M:%S": a
/// four-or-more-digit year and two-digit zero-padded fields, so at least 19
/// characters; the value itself depends on the clock.
#[verifier::external_body]
fn now_timestamp() -> (r: String)
    ensures
        r@.len() >= 19,
{
    format!("{}", chrono::Utc::now().format("%Y-%m-%d %H:%M:%S"))
}

impl Collection {
    /// Stamps the present moment into the metadata and serializes the whole
    /// structure, yielding the bytes one save writes.
    pub fn save_bytes(&mut self) -> (r: Vec<u8>)
        ensures
            final(self).meta_data.name == old(self).meta_data.name,
            final(self).meta_data.draft_settings == old(self).meta_data.draft_settings,
            final(self).meta_data.last_changed@.len() >= 19,
            final(self).cards == old(self).cards,
            final(self).changes == old(self).changes,
            final(self).tags == old(self).tags,
            final(self).actions == old(self).actions,
            r@ == <Collection as Wire>::senc(final(self).model()),
    {
        self.meta_data.last_changed = now_timestamp();
        self.to_bytes()
    }
}

/// Law: serializing a collection and deserializing the result reproduces an
/// identical structure, for arbitrary multiset, journal and metadata
/// contents whose lengths fit the format's length prefixes.
pub proof fn lemma_collection_round_trip(m: CollectionModel)
    requires
        <Collection as Wire>::wf(m),
    ensures
        <Collection as Wire>::sdec(<Collection as Wire>::senc(m)) == Some(
            (m, Seq::<u8>::empty()),
        ),
{
    <Collection as Wire>::lemma_rt(m, Seq::empty());
    assert(<Collection as Wire>::senc(m) + Seq::<u8>::empty() =~= <Collection as Wire>::senc(m));
}

/// Law: the metadata decoder reads exactly the metadata prefix of a full
/// collection record, through the same wire format.
pub proof fn lemma_metadata_prefix(m: CollectionModel)
    requires
        <Collection as Wire>::wf(m),
    ensures
        <MetaData as Wire>::sdec(<Collection as Wire>::senc(m)) matches Some((md, rest)) && md
            == m.meta_data,
{
    let e1 = <MetaData as Wire>::senc(m.meta_data);
    let e2 = <Vec<(Card, u64)> as Wire>::senc(m.cards);
    let e3 = <std::collections::VecDeque<Change> as Wire>::senc(m.changes);
    let e4 = <Vec<(String, Vec<Card>)> as Wire>::senc(m.tags);
    let e5 = <Vec<Action> as Wire>::senc(m.actions);
    assert(e1 + e2 + e3 + e4 + e5 =~= e1 + (e2 + (e3 + (e4 + e5))));
    <MetaData as Wire>::lemma_rt(m.meta_data, e2 + (e3 + (e4 + e5)));
}

} // verus!
