use ygo_destiny::collection::{Card, Change, ChangeContent, Collection, UndoError};
use ygo_destiny::draft::DraftSettings;

fn card(id: u32) -> Card {
    Card { id }
}

fn empty_collection() -> Collection {
    Collection::builder().name(String::from("test")).build()
}

fn add(c: &mut Collection, ids: &[u32]) {
    let cards: Vec<Card> = ids.iter().map(|&id| card(id)).collect();
    c.add_change(Change::Add(ChangeContent::new(cards, String::from("2024-01-01"), None)));
}

fn remove(c: &mut Collection, ids: &[u32]) {
    let cards: Vec<Card> = ids.iter().map(|&id| card(id)).collect();
    c.add_change(Change::Remove(ChangeContent::new(cards, String::from("2024-01-02"), None)));
}

#[test]
fn builder_yields_empty_collection() {
    let c = Collection::builder()
        .name(String::from("mine"))
        .draft_settings(DraftSettings::Nothing)
        .build();
    assert_eq!(c.meta_data.name, "mine");
    assert_eq!(c.meta_data.last_changed, "");
    assert!(c.cards.is_empty());
    assert!(c.changes.is_empty());
    assert!(c.tags.is_empty());
    assert!(c.actions.is_empty());
    assert_eq!(c.quantity(1), 0);
}

#[test]
fn change_content_new_keeps_fields() {
    let content = ChangeContent::new(vec![card(7)], String::from("2023-05-05"), Some(3));
    assert_eq!(content.cards.len(), 1);
    assert_eq!(content.cards[0].id, 7);
    assert_eq!(content.date, "2023-05-05");
    assert_eq!(content.round, Some(3));
}

#[test]
fn add_creates_entries_and_counts_duplicates() {
    let mut c = empty_collection();
    add(&mut c, &[1, 1]);
    assert_eq!(c.quantity(1), 2);
    assert_eq!(c.changes.len(), 1);
}

#[test]
fn remove_decrements_and_deletes_at_zero() {
    let mut c = empty_collection();
    add(&mut c, &[1, 1, 2]);
    remove(&mut c, &[1, 2]);
    assert_eq!(c.quantity(1), 1);
    assert_eq!(c.quantity(2), 0);
    // the entry that fell to zero is deleted, not retained
    assert!(c.cards.iter().all(|(cd, q)| *q > 0 && cd.id != 2));
}

#[test]
fn remove_of_absent_card_is_absorbed() {
    let mut c = empty_collection();
    remove(&mut c, &[9]);
    assert_eq!(c.quantity(9), 0);
    // the removal is still journaled
    assert_eq!(c.changes.len(), 1);
}

#[test]
fn quantity_is_added_minus_removed_floored() {
    let mut c = empty_collection();
    add(&mut c, &[5, 5, 5]);
    remove(&mut c, &[5]);
    remove(&mut c, &[5, 5, 5]);
    // floored at removal, never negative
    assert_eq!(c.quantity(5), 0);
    add(&mut c, &[5]);
    assert_eq!(c.quantity(5), 1);
}

#[test]
fn inert_change_is_never_journaled() {
    let mut c = empty_collection();
    c.add_change(Change::Nothing);
    assert_eq!(c.changes.len(), 0);
    assert_eq!(c.quantity(1), 0);
}

#[test]
fn journal_is_most_recent_first() {
    let mut c = empty_collection();
    add(&mut c, &[1]);
    remove(&mut c, &[1]);
    match &c.changes[0] {
        Change::Remove(_) => {},
        _ => panic!("most recent change must sit at the journal front"),
    }
    match &c.changes[1] {
        Change::Add(_) => {},
        _ => panic!("older change must sit behind"),
    }
}

#[test]
fn undo_after_add_restores_counts() {
    let mut c = empty_collection();
    add(&mut c, &[1, 1]);
    remove(&mut c, &[1]);
    assert_eq!(c.quantity(1), 1);
    assert_eq!(c.undo_change(), Ok(()));
    assert_eq!(c.quantity(1), 2);
    assert_eq!(c.changes.len(), 1);
}

#[test]
fn undo_add_removes_exactly_the_added_content() {
    let mut c = empty_collection();
    add(&mut c, &[1]);
    add(&mut c, &[1, 2, 2]);
    assert_eq!(c.undo_change(), Ok(()));
    assert_eq!(c.quantity(1), 1);
    assert_eq!(c.quantity(2), 0);
    assert_eq!(c.changes.len(), 1);
}

#[test]
fn undo_on_empty_journal_fails() {
    let mut c = empty_collection();
    assert_eq!(c.undo_change(), Err(UndoError::EmptyJournal));
    assert_eq!(c.quantity(1), 0);
}

#[test]
fn scenario_add_remove_undo() {
    let mut c = empty_collection();
    add(&mut c, &[1, 1]);
    assert_eq!(c.quantity(1), 2);
    remove(&mut c, &[1]);
    assert_eq!(c.quantity(1), 1);
    assert_eq!(c.undo_change(), Ok(()));
    assert_eq!(c.quantity(1), 2);
}

#[test]
fn default_change_is_the_inert_placeholder() {
    let mut c = empty_collection();
    c.add_change(Change::default());
    assert_eq!(c.changes.len(), 0);
}
