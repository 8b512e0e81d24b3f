//! The reference-data synchronizer's decisions: the all-or-nothing gate over
//! the three fetched payloads, normalization of all three, the wire framing
//! of the persisted slots, the aggregated status, and the process cache.
//!
//! Fetching, file writes and JSON field extraction are the caller's work;
//! every decision between them is made here.

use vstd::prelude::*;

use crate::banlists::{parse_banlist_spec, strip_comments_spec, BanlistError};
use crate::cardinfo::{catalog_index, catalog_map, Card, YGOPDData};
use crate::cardsets::{cross_ref_spec, CardSet, YGOPDSet};
use crate::codec::Wire;

verus! {

/// The outcome of one synchronization.
#[derive(PartialEq, Eq, Structural, Clone, Copy, Debug)]
pub enum UpdateStatus {
    Complete,
    Failed,
    Incomplete,
}

/// A transport failure of one fetch.
#[derive(PartialEq, Eq, Structural, Clone, Copy, Debug)]
pub struct FetchError {
}

/// The results of the three fetches, each payload as raw bytes.
pub struct Responses {
    pub banlists: Result<Vec<u8>, FetchError>,
    pub cardinfo: Result<Vec<u8>, FetchError>,
    pub cardsets: Result<Vec<u8>, FetchError>,
}

/// The three normalized maps of one successful synchronization.
pub struct ParsedData {
    pub banlists: Vec<(u32, u8)>,
    pub cardinfo: Vec<(u32, Card)>,
    pub cardsets: Vec<CardSet>,
}

/// The process-wide cache: one slot per reference map. Callers sharing it
/// across threads guard each slot with its own exclusion.
pub struct Cache {
    pub banlists: Vec<(u32, u8)>,
    pub cardinfo: Vec<(u32, Card)>,
    pub cardsets: Vec<CardSet>,
}

/// All-or-nothing at the fetch stage: the three payloads are released
/// together exactly when every fetch succeeded; any failure yields `Failed`
/// and withholds every payload, so nothing can be normalized, persisted or
/// cached from a partial fetch.
pub fn gate_responses(responses: Responses) -> (r: Result<
    (Vec<u8>, Vec<u8>, Vec<u8>),
    UpdateStatus,
>)
    ensures
        r is Ok <==> (responses.banlists is Ok && responses.cardinfo is Ok && responses.cardsets
            is Ok),
        r matches Ok(p) ==> responses.banlists == Ok::<Vec<u8>, FetchError>(p.0)
            && responses.cardinfo == Ok::<Vec<u8>, FetchError>(p.1) && responses.cardsets == Ok::<
            Vec<u8>,
            FetchError,
        >(p.2),
        r is Err ==> r == Err::<(Vec<u8>, Vec<u8>, Vec<u8>), UpdateStatus>(UpdateStatus::Failed),
{
    match (responses.banlists, responses.cardinfo, responses.cardsets) {
        (Ok(b), Ok(ci), Ok(cs)) => Ok((b, ci, cs)),
        _ => Err(UpdateStatus::Failed),
    }
}

/// Normalizes the three fetched payloads: the ban-list text is stripped of
/// comment lines and parsed (malformed text is fatal), the card records are
/// normalized while building the set-name index, and the set listing is
/// cross-referenced against that index.
pub fn normalize_payloads(banlists_raw: Vec<u8>, cardinfo: YGOPDData, cardsets: Vec<YGOPDSet>) -> (r:
    Result<ParsedData, BanlistError>)
    ensures
        match r {
            Ok(d) => {
                &&& parse_banlist_spec(strip_comments_spec(banlists_raw@)) == Some(d.banlists@)
                &&& d.cardinfo@ == catalog_map(Seq::empty(), cardinfo.data@)
                &&& d.cardsets@.map_values(|cs: CardSet| cs.model()) == cross_ref_spec(
                    cardsets@,
                    catalog_index(Seq::empty(), cardinfo.data@),
                )
            },
            Err(_) => parse_banlist_spec(strip_comments_spec(banlists_raw@)) is None,
        },
{
    let stripped = crate::banlists::strip_comments(&banlists_raw);
    match crate::banlists::parse(&stripped) {
        Err(e) => Err(e),
        Ok(b) => {
            let mut card_set_map: Vec<(String, Vec<u32>)> = Vec::new();
            proof {
                assert(crate::cardinfo::index_view(card_set_map) =~= Seq::<
                    (Seq<char>, Seq<u32>),
                >::empty());
            }
            let ci = crate::cardinfo::parse(cardinfo, &mut card_set_map);
            let cs = crate::cardsets::parse(cardsets, &card_set_map);
            Ok(ParsedData { banlists: b, cardinfo: ci, cardsets: cs })
        },
    }
}

/// The aggregated status of the persistence stage: `Complete` exactly when
/// all three slots were written durably, else `Incomplete`. A durability
/// failure never withholds the fresh data from the current session: the
/// cache is updated either way.
pub fn persistence_status(
    banlists_written: bool,
    cardinfo_written: bool,
    cardsets_written: bool,
) -> (st: UpdateStatus)
    ensures
        st == (if banlists_written && cardinfo_written && cardsets_written {
            UpdateStatus::Complete
        } else {
            UpdateStatus::Incomplete
        }),
{
    if banlists_written && cardinfo_written && cardsets_written {
        UpdateStatus::Complete
    } else {
        UpdateStatus::Incomplete
    }
}

/// Replaces the three cache slots with freshly produced maps. Each slot is
/// replaced wholesale; under concurrent readers each replacement stands
/// under its own exclusion, never as one multi-slot transaction.
pub fn update_cache(
    cache: &mut Cache,
    banlists: Vec<(u32, u8)>,
    cardinfo: Vec<(u32, Card)>,
    cardsets: Vec<CardSet>,
)
    ensures
        final(cache).banlists == banlists,
        final(cache).cardinfo == cardinfo,
        final(cache).cardsets == cardsets,
{
    cache.banlists = banlists;
    cache.cardinfo = cardinfo;
    cache.cardsets = cardsets;
}

/// Whether a freshly fetched version token warrants a refresh: the token the
/// check returned, when it differs from the stored one; a failed check or an
/// unchanged token warrants none.
pub fn update_version(response: Result<String, FetchError>, stored: Option<String>) -> (r: Option<
    String,
>)
    ensures
        match response {
            Ok(v) => match stored {
                Some(s) => if s@ == v@ {
                    r is None
                } else {
                    r == Some(v)
                },
                None => r == Some(v),
            },
            Err(_) => r is None,
        },
{
    match response {
        Ok(v) => match stored {
            Some(s) => {
                if s == v {
                    None
                } else {
                    Some(v)
                }
            },
            None => Some(v),
        },
        Err(_) => None,
    }
}

/// Frames the ban-list map for its persisted slot.
pub fn encode_banlists_slot(data: &Vec<(u32, u8)>) -> (r: Vec<u8>)
    ensures
        r@ == <Vec<(u32, u8)> as Wire>::senc(data.model()),
{
    let mut out: Vec<u8> = Vec::new();
    data.enc(&mut out);
    proof {
        assert(Seq::<u8>::empty() + <Vec<(u32, u8)> as Wire>::senc(data.model()) =~= <Vec<
            (u32, u8),
        > as Wire>::senc(data.model()));
    }
    out
}

/// Reads the ban-list map back from its persisted slot; fails exactly on
/// bytes the wire format rejects.
pub fn decode_banlists_slot(bytes: &Vec<u8>) -> (r: Option<Vec<(u32, u8)>>)
    ensures
        match r {
            Some(v) => <Vec<(u32, u8)> as Wire>::sdec(bytes@) matches Some((m, rest)) && v.model()
                == m,
            None => <Vec<(u32, u8)> as Wire>::sdec(bytes@) is None,
        },
{
    proof {
        assert(bytes@.skip(0) =~= bytes@);
    }
    match <Vec<(u32, u8)> as Wire>::dec(bytes, 0) {
        Some((v, _)) => Some(v),
        None => None,
    }
}

/// Frames the card catalog for its persisted slot.
pub fn encode_cardinfo_slot(data: &Vec<(u32, Card)>) -> (r: Vec<u8>)
    ensures
        r@ == <Vec<(u32, Card)> as Wire>::senc(data.model()),
{
    let mut out: Vec<u8> = Vec::new();
    data.enc(&mut out);
    proof {
        assert(Seq::<u8>::empty() + <Vec<(u32, Card)> as Wire>::senc(data.model()) =~= <Vec<
            (u32, Card),
        > as Wire>::senc(data.model()));
    }
    out
}

/// Reads the card catalog back from its persisted slot.
pub fn decode_cardinfo_slot(bytes: &Vec<u8>) -> (r: Option<Vec<(u32, Card)>>)
    ensures
        match r {
            Some(v) => <Vec<(u32, Card)> as Wire>::sdec(bytes@) matches Some((m, rest)) && v.model()
                == m,
            None => <Vec<(u32, Card)> as Wire>::sdec(bytes@) is None,
        },
{
    proof {
        assert(bytes@.skip(0) =~= bytes@);
    }
    match <Vec<(u32, Card)> as Wire>::dec(bytes, 0) {
        Some((v, _)) => Some(v),
        None => None,
    }
}

/// Frames the annotated set listing for its persisted slot.
pub fn encode_cardsets_slot(data: &Vec<CardSet>) -> (r: Vec<u8>)
    ensures
        r@ == <Vec<CardSet> as Wire>::senc(data.model()),
{
    let mut out: Vec<u8> = Vec::new();
    data.enc(&mut out);
    proof {
        assert(Seq::<u8>::empty() + <Vec<CardSet> as Wire>::senc(data.model())
            =~= <Vec<CardSet> as Wire>::senc(data.model()));
    }
    out
}

/// Reads the annotated set listing back from its persisted slot.
pub fn decode_cardsets_slot(bytes: &Vec<u8>) -> (r: Option<Vec<CardSet>>)
    ensures
        match r {
            Some(v) => <Vec<CardSet> as Wire>::sdec(bytes@) matches Some((m, rest)) && v.model()
                == m,
            None => <Vec<CardSet> as Wire>::sdec(bytes@) is None,
        },
{
    proof {
        assert(bytes@.skip(0) =~= bytes@);
    }
    match <Vec<CardSet> as Wire>::dec(bytes, 0) {
        Some((v, _)) => Some(v),
        None => None,
    }
}

/// Law: a slot survives its framing — decoding an encoded ban-list map
/// yields that map and consumes the slot whole. The catalog and set-listing
/// slots go through the identical generic framing.
pub proof fn lemma_banlists_slot_round_trip(m: Seq<(u32, u8)>)
    requires
        <Vec<(u32, u8)> as Wire>::wf(m),
    ensures
        <Vec<(u32, u8)> as Wire>::sdec(<Vec<(u32, u8)> as Wire>::senc(m)) == Some(
            (m, Seq::<u8>::empty()),
        ),
{
    <Vec<(u32, u8)> as Wire>::lemma_rt(m, Seq::empty());
    assert(<Vec<(u32, u8)> as Wire>::senc(m) + Seq::<u8>::empty() =~= <Vec<
        (u32, u8),
    > as Wire>::senc(m));
}

} // verus!
