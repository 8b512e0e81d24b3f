use ygo_destiny::banlists;
use ygo_destiny::cardinfo::{self, YGOPDCard, YGOPDCardSet, YGOPDData};
use ygo_destiny::cardsets::{self, YGOPDSet};

fn raw_card(id: u32, sets: Option<Vec<&str>>) -> YGOPDCard {
    YGOPDCard {
        id,
        name: format!("Card {}", id),
        card_type: String::from("Effect Monster"),
        desc: String::from("Does things."),
        atk: Some(1000),
        def: Some(800),
        level: Some(4),
        race: String::from("Warrior"),
        attribute: Some(String::from("EARTH")),
        archetype: None,
        scale: None,
        linkval: None,
        card_sets: sets.map(|names| {
            names
                .into_iter()
                .map(|n| YGOPDCardSet {
                    set_name: String::from(n),
                    set_code: String::from("SET-001"),
                    set_rarity: String::from("Common"),
                })
                .collect()
        }),
    }
}

fn raw_set(name: &str) -> YGOPDSet {
    YGOPDSet {
        set_name: String::from(name),
        set_code: String::from("CODE"),
        num_of_cards: 40,
        tcg_date: String::from("2004-03-01"),
    }
}

#[test]
fn parse_builds_catalog_map() {
    let data = YGOPDData { data: vec![raw_card(1, None), raw_card(2, None)] };
    let mut index = Vec::new();
    let map = cardinfo::parse(data, &mut index);
    assert_eq!(map.len(), 2);
    assert_eq!(map[0].0, 1);
    assert_eq!(map[0].1.id, 1);
    assert_eq!(map[0].1.name, "Card 1");
    assert_eq!(map[0].1.card_type, "Effect Monster");
    assert_eq!(map[0].1.description, "Does things.");
    assert_eq!(map[0].1.race, "Warrior");
    assert_eq!(map[1].0, 2);
    assert!(index.is_empty());
}

#[test]
fn parse_replaces_duplicate_card_ids() {
    let mut second = raw_card(1, None);
    second.name = String::from("Replacement");
    let data = YGOPDData { data: vec![raw_card(1, None), second] };
    let mut index = Vec::new();
    let map = cardinfo::parse(data, &mut index);
    assert_eq!(map.len(), 1);
    assert_eq!(map[0].1.name, "Replacement");
}

#[test]
fn index_keeps_first_seen_order() {
    // cards 1 and 2 in "Set A", card 3 in "Set B"
    let data = YGOPDData {
        data: vec![
            raw_card(1, Some(vec!["Set A"])),
            raw_card(2, Some(vec!["Set A"])),
            raw_card(3, Some(vec!["Set B"])),
        ],
    };
    let mut index = Vec::new();
    cardinfo::parse(data, &mut index);
    assert_eq!(index.len(), 2);
    assert_eq!(index[0].0, "Set A");
    assert_eq!(index[0].1, vec![1, 2]);
    assert_eq!(index[1].0, "Set B");
    assert_eq!(index[1].1, vec![3]);
}

#[test]
fn index_dedups_repeated_set_listings() {
    // one card lists the same set twice: its id appears exactly once
    let data = YGOPDData { data: vec![raw_card(1, Some(vec!["Set A", "Set A"]))] };
    let mut index = Vec::new();
    cardinfo::parse(data, &mut index);
    assert_eq!(index.len(), 1);
    assert_eq!(index[0].1, vec![1]);
}

#[test]
fn cross_reference_annotates_known_sets() {
    let data = YGOPDData {
        data: vec![raw_card(1, Some(vec!["Set A"])), raw_card(2, Some(vec!["Set A"]))],
    };
    let mut index = Vec::new();
    cardinfo::parse(data, &mut index);
    let sets = vec![raw_set("Set A"), raw_set("Set B")];
    let annotated = cardsets::parse(sets, &index);
    assert_eq!(annotated.len(), 2);
    assert_eq!(annotated[0].name, "Set A");
    assert_eq!(annotated[0].cards, vec![1, 2]);
    // an absent index entry means "no known cards", never an error
    assert_eq!(annotated[1].name, "Set B");
    assert!(annotated[1].cards.is_empty());
    assert_eq!(annotated[1].num_of_cards, 40);
}

#[test]
fn strip_comments_removes_hash_to_newline() {
    let text = b"#banlist 2024\n123,1\n#note\n456,0\n".to_vec();
    let stripped = banlists::strip_comments(&text);
    assert_eq!(stripped, b"123,1\n456,0\n".to_vec());
}

#[test]
fn strip_comments_keeps_trailing_comment_without_newline() {
    let text = b"1,1\n#tail".to_vec();
    let stripped = banlists::strip_comments(&text);
    assert_eq!(stripped, b"1,1\n#tail".to_vec());
}

#[test]
fn banlist_parse_reads_records() {
    let text = b"123,1\n456,0\n\n789,2\n".to_vec();
    let parsed = banlists::parse(&text).unwrap();
    assert_eq!(parsed, vec![(123, 1), (456, 0), (789, 2)]);
}

#[test]
fn banlist_parse_rejects_malformed_line() {
    let text = b"123,1\nnot-a-record\n".to_vec();
    assert!(banlists::parse(&text).is_err());
}

#[test]
fn banlist_parse_rejects_oversized_id() {
    let text = b"1234567890,1\n".to_vec();
    assert!(banlists::parse(&text).is_err());
}
