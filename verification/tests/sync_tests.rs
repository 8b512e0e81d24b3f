use ygo_destiny::cardinfo::{YGOPDCard, YGOPDData};
use ygo_destiny::cardsets::YGOPDSet;
use ygo_destiny::draft::{BattlePackSettings, DraftBox, DraftBoxMeta, DraftSettings};
use ygo_destiny::paths::{ExtData, Paths};
use ygo_destiny::sync::{
    decode_banlists_slot, decode_cardinfo_slot, decode_cardsets_slot, encode_banlists_slot,
    encode_cardinfo_slot, encode_cardsets_slot, gate_responses, normalize_payloads,
    persistence_status, update_cache, update_version, Cache, FetchError, Responses, UpdateStatus,
};

fn plain_card(id: u32) -> YGOPDCard {
    YGOPDCard {
        id,
        name: format!("Card {}", id),
        card_type: String::from("Spell Card"),
        desc: String::from("A spell."),
        atk: None,
        def: None,
        level: None,
        race: String::from("Normal"),
        attribute: None,
        archetype: None,
        scale: None,
        linkval: None,
        card_sets: None,
    }
}

#[test]
fn gate_releases_payloads_only_when_all_fetches_succeed() {
    let all_ok = Responses {
        banlists: Ok(b"1,1\n".to_vec()),
        cardinfo: Ok(b"{}".to_vec()),
        cardsets: Ok(b"[]".to_vec()),
    };
    let (b, ci, cs) = gate_responses(all_ok).unwrap();
    assert_eq!(b, b"1,1\n".to_vec());
    assert_eq!(ci, b"{}".to_vec());
    assert_eq!(cs, b"[]".to_vec());
}

#[test]
fn gate_fails_whole_sync_on_any_fetch_failure() {
    // one failed fetch: no payload is released, the status is Failed, and
    // with no payloads nothing can be persisted or cached
    let one_bad = Responses {
        banlists: Ok(b"1,1\n".to_vec()),
        cardinfo: Err(FetchError {}),
        cardsets: Ok(b"[]".to_vec()),
    };
    assert_eq!(gate_responses(one_bad), Err(UpdateStatus::Failed));
    let all_bad = Responses {
        banlists: Err(FetchError {}),
        cardinfo: Err(FetchError {}),
        cardsets: Err(FetchError {}),
    };
    assert_eq!(gate_responses(all_bad), Err(UpdateStatus::Failed));
}

#[test]
fn normalize_payloads_produces_all_three_maps() {
    let banlists_raw = b"#season\n7,1\n".to_vec();
    let cardinfo = YGOPDData { data: vec![plain_card(7)] };
    let cardsets = vec![YGOPDSet {
        set_name: String::from("Set A"),
        set_code: String::from("A"),
        num_of_cards: 1,
        tcg_date: String::from("2004-01-01"),
    }];
    let parsed = normalize_payloads(banlists_raw, cardinfo, cardsets).unwrap();
    assert_eq!(parsed.banlists, vec![(7, 1)]);
    assert_eq!(parsed.cardinfo.len(), 1);
    assert_eq!(parsed.cardinfo[0].0, 7);
    assert_eq!(parsed.cardinfo[0].1.name, "Card 7");
    assert_eq!(parsed.cardsets.len(), 1);
    assert!(parsed.cardsets[0].cards.is_empty());
}

#[test]
fn normalize_payloads_is_fatal_on_malformed_banlist() {
    let cardinfo = YGOPDData { data: vec![] };
    assert!(normalize_payloads(b"bogus\n".to_vec(), cardinfo, vec![]).is_err());
}

#[test]
fn persistence_status_aggregates_write_outcomes() {
    assert_eq!(persistence_status(true, true, true), UpdateStatus::Complete);
    assert_eq!(persistence_status(false, true, true), UpdateStatus::Incomplete);
    assert_eq!(persistence_status(true, true, false), UpdateStatus::Incomplete);
}

#[test]
fn update_cache_replaces_every_slot() {
    let mut cache = Cache { banlists: vec![(1, 1)], cardinfo: vec![], cardsets: vec![] };
    let banlists = vec![(2, 0)];
    let cardinfo = Vec::new();
    let cardsets = Vec::new();
    update_cache(&mut cache, banlists, cardinfo, cardsets);
    assert_eq!(cache.banlists, vec![(2, 0)]);
    assert!(cache.cardinfo.is_empty());
    assert!(cache.cardsets.is_empty());
}

#[test]
fn update_version_reports_new_tokens_only() {
    assert_eq!(
        update_version(Ok(String::from("v2")), Some(String::from("v1"))),
        Some(String::from("v2"))
    );
    assert_eq!(update_version(Ok(String::from("v1")), Some(String::from("v1"))), None);
    assert_eq!(update_version(Ok(String::from("v1")), None), Some(String::from("v1")));
    assert_eq!(update_version(Err(FetchError {}), Some(String::from("v1"))), None);
}

#[test]
fn banlists_slot_round_trips() {
    let data = vec![(7u32, 1u8), (12, 0)];
    let bytes = encode_banlists_slot(&data);
    assert_eq!(decode_banlists_slot(&bytes).unwrap(), data);
    assert!(decode_banlists_slot(&vec![9]).is_none());
}

#[test]
fn cardinfo_slot_round_trips() {
    let banlists_raw = b"1,1\n".to_vec();
    let cardinfo = YGOPDData { data: vec![plain_card(1), plain_card(2)] };
    let parsed = normalize_payloads(banlists_raw, cardinfo, vec![]).unwrap();
    let bytes = encode_cardinfo_slot(&parsed.cardinfo);
    let decoded = decode_cardinfo_slot(&bytes).unwrap();
    assert_eq!(decoded.len(), 2);
    assert_eq!(decoded[0].0, 1);
    assert_eq!(decoded[0].1.name, "Card 1");
    assert_eq!(decoded[0].1.card_type, "Spell Card");
    assert_eq!(decoded[1].0, 2);
}

#[test]
fn cardsets_slot_round_trips() {
    let cardinfo = YGOPDData { data: vec![] };
    let sets = vec![YGOPDSet {
        set_name: String::from("Set B"),
        set_code: String::from("B"),
        num_of_cards: 9,
        tcg_date: String::from("2010-10-10"),
    }];
    let parsed = normalize_payloads(b"".to_vec(), cardinfo, sets).unwrap();
    let bytes = encode_cardsets_slot(&parsed.cardsets);
    let decoded = decode_cardsets_slot(&bytes).unwrap();
    assert_eq!(decoded.len(), 1);
    assert_eq!(decoded[0].name, "Set B");
    assert_eq!(decoded[0].code, "B");
    assert_eq!(decoded[0].num_of_cards, 9);
    assert!(decoded[0].cards.is_empty());
}

#[test]
fn paths_are_joined_from_the_data_dir() {
    let paths = Paths::from_data_dir(String::from("/home/user/.local/share/app"));
    assert_eq!(paths.ext_data.banlists, "/home/user/.local/share/app/external/banlists.bin");
    assert_eq!(paths.ext_data.cardinfo, "/home/user/.local/share/app/external/cardinfo.bin");
    assert_eq!(paths.ext_data.cardsets, "/home/user/.local/share/app/external/cardsets.bin");
    assert_eq!(paths.ext_data.version, "/home/user/.local/share/app/external/version.json");
    assert_eq!(paths.user_paths.collections, "/home/user/.local/share/app/user/collections");
    assert_eq!(*paths.get_img_dir(), "/home/user/.local/share/app/images/big");
}

#[test]
fn ext_data_joins_slot_files() {
    let ext = ExtData::new(String::from("/data"));
    assert_eq!(ext.banlists, "/data/banlists.bin");
    assert_eq!(ext.version, "/data/version.json");
}

#[test]
fn draft_box_reports_battle_pack_variant() {
    let none = DraftBox::Nothing;
    assert!(!none.is_battle_pack_draft());
    let meta = DraftBoxMeta { name: String::from("box"), description: String::from("a box") };
    assert_eq!(meta.name, "box");
    assert_eq!(meta.description, "a box");
}

#[test]
fn default_draft_carries_nothing() {
    assert!(matches!(DraftSettings::default(), DraftSettings::Nothing));
    assert!(matches!(DraftBox::default(), DraftBox::Nothing));
    let boxed = DraftBox::BattlePackDraft(BattlePackSettings {
        rounds_num: 5,
        set_name: String::from("Battle Pack"),
    });
    assert!(boxed.is_battle_pack_draft());
}
