use std::collections::VecDeque;

use ygo_destiny::collection::{Action, Card, Change, ChangeContent, Collection, MetaData};
use ygo_destiny::draft::{ChoiceSettings, DraftSettings, SetRotation};

fn card(id: u32) -> Card {
    Card { id }
}

fn sample_collection() -> Collection {
    let mut changes = VecDeque::new();
    changes.push_back(Change::Add(ChangeContent::new(
        vec![card(1), card(1), card(2)],
        String::from("2024-02-02"),
        Some(2),
    )));
    changes.push_back(Change::Remove(ChangeContent::new(
        vec![card(2)],
        String::from("2024-02-03"),
        None,
    )));
    Collection {
        meta_data: MetaData {
            name: String::from("sealed box"),
            last_changed: String::from("2024-02-03 10:00:00"),
            draft_settings: DraftSettings::ChoiceDraft(ChoiceSettings {
                rounds_num: 8,
                choices_num: 3,
                selections_num: 1,
                cards_num: 5,
                sets: vec![vec![String::from("Set A"), String::from("Set B")]],
                rotate: SetRotation::Enabled(2),
                allow_undo: true,
            }),
        },
        cards: vec![(card(1), 2), (card(2), 1)],
        changes,
        tags: vec![(String::from("favorites"), vec![card(1)])],
        actions: vec![Action { name: String::from("opened pack"), date: String::from("2024-02-02") }],
    }
}

#[test]
fn collection_round_trip_is_identity() {
    let c = sample_collection();
    let bytes = c.to_bytes();
    let d = Collection::from_bytes(&bytes).expect("decoding an encoded collection must succeed");
    assert_eq!(d.meta_data.name, c.meta_data.name);
    assert_eq!(d.meta_data.last_changed, c.meta_data.last_changed);
    match (&d.meta_data.draft_settings, &c.meta_data.draft_settings) {
        (DraftSettings::ChoiceDraft(a), DraftSettings::ChoiceDraft(b)) => {
            assert_eq!(a.rounds_num, b.rounds_num);
            assert_eq!(a.choices_num, b.choices_num);
            assert_eq!(a.selections_num, b.selections_num);
            assert_eq!(a.cards_num, b.cards_num);
            assert_eq!(a.sets, b.sets);
            assert!(matches!(a.rotate, SetRotation::Enabled(2)));
            assert_eq!(a.allow_undo, b.allow_undo);
        },
        _ => panic!("draft settings variant must survive the round trip"),
    }
    assert_eq!(d.cards, c.cards);
    assert_eq!(d.changes.len(), c.changes.len());
    match &d.changes[0] {
        Change::Add(content) => {
            assert_eq!(content.cards, vec![card(1), card(1), card(2)]);
            assert_eq!(content.date, "2024-02-02");
            assert_eq!(content.round, Some(2));
        },
        _ => panic!("first journal entry must stay an addition"),
    }
    match &d.changes[1] {
        Change::Remove(content) => {
            assert_eq!(content.cards, vec![card(2)]);
            assert_eq!(content.round, None);
        },
        _ => panic!("second journal entry must stay a removal"),
    }
    assert_eq!(d.tags.len(), 1);
    assert_eq!(d.tags[0].0, "favorites");
    assert_eq!(d.tags[0].1, vec![card(1)]);
    assert_eq!(d.actions.len(), 1);
    assert_eq!(d.actions[0].name, "opened pack");
    assert_eq!(d.actions[0].date, "2024-02-02");
}

#[test]
fn empty_collection_round_trips() {
    let c = Collection::builder().name(String::from("fresh")).build();
    let bytes = c.to_bytes();
    let d = Collection::from_bytes(&bytes).unwrap();
    assert_eq!(d.meta_data.name, "fresh");
    assert!(d.cards.is_empty());
    assert!(d.changes.is_empty());
}

#[test]
fn metadata_prefix_decodes_from_full_record() {
    let c = sample_collection();
    let bytes = c.to_bytes();
    let md = Collection::metadata_from_bytes(&bytes)
        .expect("the metadata prefix must decode from a full record");
    assert_eq!(md.name, "sealed box");
    assert_eq!(md.last_changed, "2024-02-03 10:00:00");
    assert!(matches!(md.draft_settings, DraftSettings::ChoiceDraft(_)));
}

#[test]
fn corrupt_bytes_are_rejected() {
    assert!(Collection::from_bytes(&vec![1, 2, 3]).is_none());
    assert!(Collection::metadata_from_bytes(&vec![255, 255]).is_none());
    let c = sample_collection();
    let mut bytes = c.to_bytes();
    bytes.truncate(bytes.len() - 1);
    assert!(Collection::from_bytes(&bytes).is_none());
}

#[test]
fn decoded_quantities_must_be_positive() {
    // a record carrying a zero quantity violates the invariant and is corrupt
    let mut c = sample_collection();
    c.cards = vec![(card(1), 0)];
    let bytes = c.to_bytes();
    assert!(Collection::from_bytes(&bytes).is_none());
}

#[test]
fn decoded_card_ids_must_be_unique() {
    let mut c = sample_collection();
    c.cards = vec![(card(1), 2), (card(1), 3)];
    let bytes = c.to_bytes();
    assert!(Collection::from_bytes(&bytes).is_none());
}

#[test]
fn save_bytes_stamps_timestamp_and_round_trips() {
    let mut c = Collection::builder().name(String::from("stamped")).build();
    assert_eq!(c.meta_data.last_changed, "");
    let bytes = c.save_bytes();
    assert!(c.meta_data.last_changed.len() >= 19);
    let d = Collection::from_bytes(&bytes).unwrap();
    assert_eq!(d.meta_data.last_changed, c.meta_data.last_changed);
    assert_eq!(d.meta_data.name, "stamped");
}
