//! Draft configuration carried in a collection's metadata.

use vstd::prelude::*;

verus! {

/// Settings of a battle-pack draft: how many rounds are played from one pack.
pub struct BattlePackSettings {
    pub rounds_num: usize,
    pub set_name: String,
}

/// Settings of a choice draft: the round/choice/selection counts and the
/// card sets each round draws from, optionally rotating through them.
pub struct ChoiceSettings {
    pub rounds_num: usize,
    pub choices_num: usize,
    pub selections_num: usize,
    pub cards_num: usize,
    pub sets: Vec<Vec<String>>,
    pub rotate: SetRotation,
    pub allow_undo: bool,
}

/// Whether the sets of a choice draft rotate, and if so with which period.
pub enum SetRotation {
    Disabled,
    Enabled(usize),
}

/// The draft configuration a collection was assembled for.
pub enum DraftSettings {
    Nothing,
    BattlePackDraft(BattlePackSettings),
    ChoiceDraft(ChoiceSettings),
}

/// The kind of box a draft draws from.
pub enum DraftBox {
    Nothing,
    BattlePackDraft(BattlePackSettings),
    ChoiceDraft(ChoiceSettings),
}

/// Display data of a draft box.
pub struct DraftBoxMeta {
    pub name: String,
    pub description: String,
}

impl DraftBox {
    /// Whether this box is drafted as a battle pack.
    pub fn is_battle_pack_draft(&self) -> (r: bool)
        ensures
            r == (self matches DraftBox::BattlePackDraft(_)),
    {
        match self {
            DraftBox::BattlePackDraft(_) => true,
            _ => false,
        }
    }
}

impl Default for DraftSettings {
    /// A fresh configuration carries no draft.
    fn default() -> (r: Self)
        ensures
            r is Nothing,
    {
        DraftSettings::Nothing
    }
}

impl Default for DraftBox {
    /// A fresh box carries no draft.
    fn default() -> (r: Self)
        ensures
            r is Nothing,
    {
        DraftBox::Nothing
    }
}

} // verus!
