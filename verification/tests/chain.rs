use block_confidence_monitor::chain_client::{
    assemble_block, compute_block_hash_from_head_data, decode_para_block_number, index_blocks,
    para_head_number, retry_delay_ms, BlockReplies, ChainEvent, SessionSearch,
};
use block_confidence_monitor::hex::encode;
use block_confidence_monitor::scale::{
    collect_map_entries, debug_value, extract_bytes, extract_claim_queue_for_para, extract_h256,
    extract_para_candidate_event, extract_u32, extract_u32_recursive, get_first_value,
    get_named_field, try_extract_map_entries, value_contains_para_id, ScaleValue,
};
use parity_scale_codec::Encode;

fn num(n: u128) -> ScaleValue {
    ScaleValue::U128(n)
}

fn list(values: Vec<ScaleValue>) -> ScaleValue {
    ScaleValue::Unnamed(values)
}

fn named(fields: Vec<(&str, ScaleValue)>) -> ScaleValue {
    ScaleValue::Named(fields.into_iter().map(|(n, v)| (n.to_string(), v)).collect())
}

fn bytes(b: &[u8]) -> ScaleValue {
    list(b.iter().map(|x| num(*x as u128)).collect())
}

fn head(number: u32) -> Vec<u8> {
    let mut h = vec![7u8; 32];
    h.extend(parity_scale_codec::Compact(number).encode());
    h.extend([1, 2, 3]);
    h
}

#[test]
fn numbers_in_head_data() {
    for n in [0, 1, 63, 64, 16383, 16384, 1713743, (1 << 30) - 1, 1 << 30, u32::MAX] {
        assert_eq!(decode_para_block_number(&head(n)), Some(n));
    }
    assert_eq!(decode_para_block_number(&[0; 32]), None);
    assert_eq!(decode_para_block_number(&[0; 33]), Some(0));
}

#[test]
fn head_data_that_holds_no_number() {
    let with = |tail: &[u8]| {
        let mut h = vec![0u8; 32];
        h.extend_from_slice(tail);
        h
    };
    assert_eq!(decode_para_block_number(&with(&[1])), None);
    assert_eq!(decode_para_block_number(&with(&[1, 0])), None);
    assert_eq!(decode_para_block_number(&with(&[0xfd, 0])), None);
    assert_eq!(decode_para_block_number(&with(&[1, 1])), Some(64));
    assert_eq!(decode_para_block_number(&with(&[2, 0, 0])), None);
    assert_eq!(decode_para_block_number(&with(&[2, 0, 0, 0])), None);
    assert_eq!(decode_para_block_number(&with(&[2, 0, 1, 0])), Some(16384));
    assert_eq!(decode_para_block_number(&with(&[3, 0, 0, 0])), None);
    assert_eq!(decode_para_block_number(&with(&[3, 0, 0, 0, 0x40])), Some(1 << 30));
    assert_eq!(decode_para_block_number(&with(&[3, 0xff, 0xff, 0xff, 0x3f])), None);
    assert_eq!(decode_para_block_number(&with(&[7, 0, 0, 0, 0x40, 1])), None);
}

#[test]
fn hash_of_head_data() {
    assert_eq!(
        encode(&compute_block_hash_from_head_data(b"abc")),
        "bddd813c634239723171ef3fee98579b94964e3bb1cb3e427262c8c068d52319"
    );
    assert_eq!(
        encode(&compute_block_hash_from_head_data(b"")),
        "0e5751c026e543b2e8ab2eb06099daa1d1e5df47778f7787faab45cdf12fe3a8"
    );
}

#[test]
fn stored_heads() {
    assert_eq!(para_head_number(&Some(bytes(&head(99)))), Some(99));
    assert_eq!(para_head_number(&Some(list(vec![bytes(&head(99))]))), Some(99));
    assert_eq!(para_head_number(&Some(num(1))), None);
    assert_eq!(para_head_number(&None), None);
}

#[test]
fn numbers_in_values() {
    assert_eq!(extract_u32(&num(5)), Some(5));
    assert_eq!(extract_u32(&num(0x1_0000_0007)), Some(7));
    assert_eq!(extract_u32(&ScaleValue::Bool(true)), None);
    assert_eq!(extract_u32(&list(vec![num(5)])), None);
    assert_eq!(extract_u32_recursive(&list(vec![num(5)])), Some(5));
    assert_eq!(extract_u32_recursive(&list(vec![list(vec![num(5)])])), Some(5));
    assert_eq!(extract_u32_recursive(&list(vec![list(vec![list(vec![num(5)])])])), None);
    assert_eq!(extract_u32_recursive(&list(vec![])), None);
}

#[test]
fn bytes_in_values() {
    assert_eq!(extract_bytes(&bytes(&[1, 2, 255])), Some(vec![1, 2, 255]));
    assert_eq!(extract_bytes(&list(vec![bytes(&[1, 2])])), Some(vec![1, 2]));
    assert_eq!(extract_bytes(&list(vec![num(257), ScaleValue::Bool(true)])), Some(vec![1]));
    assert_eq!(extract_bytes(&list(vec![list(vec![])])), None);
    assert_eq!(extract_bytes(&list(vec![])), None);
    assert_eq!(extract_bytes(&num(1)), None);
    assert_eq!(extract_h256(&bytes(&[9; 32])), Some([9; 32]));
    assert_eq!(extract_h256(&bytes(&[9; 31])), None);
    assert_eq!(extract_h256(&num(1)), None);
}

#[test]
fn fields_of_values() {
    let v = named(vec![("a", num(1)), ("b", num(2)), ("a", num(3))]);
    assert_eq!(get_named_field(&v, "a").and_then(extract_u32), Some(1));
    assert_eq!(get_named_field(&v, "b").and_then(extract_u32), Some(2));
    assert!(get_named_field(&v, "c").is_none());
    assert!(get_named_field(&num(1), "a").is_none());
    assert_eq!(get_first_value(&v).and_then(extract_u32), Some(1));
    assert!(get_first_value(&num(1)).is_none());
}

fn receipt(para_id: ScaleValue) -> ScaleValue {
    named(vec![
        ("descriptor", named(vec![("para_id", para_id), ("relay_parent", bytes(&[3; 32]))])),
        ("commitments_hash", bytes(&[4; 32])),
    ])
}

fn event_fields(para_id: u128) -> Vec<ScaleValue> {
    vec![receipt(list(vec![num(para_id)])), list(vec![bytes(&head(12))]), list(vec![num(62)]), num(8)]
}

#[test]
fn candidate_events_are_read() {
    let e = extract_para_candidate_event(&event_fields(3428), 3428).unwrap();
    assert_eq!(e.para_id, 3428);
    assert_eq!(e.relay_parent, Some([3; 32]));
    assert_eq!(e.core_index, Some(62));
    assert_eq!(e.group_index, Some(8));
    assert_eq!(e.para_head_data, Some(head(12)));
    assert!(extract_para_candidate_event(&event_fields(2000), 3428).is_none());
    assert!(extract_para_candidate_event(&vec![], 3428).is_none());
    assert!(extract_para_candidate_event(&vec![num(1)], 3428).is_none());
    let short = extract_para_candidate_event(&vec![receipt(num(5))], 5).unwrap();
    assert_eq!(short.core_index, None);
    assert_eq!(short.group_index, None);
    assert_eq!(short.para_head_data, None);
}

#[test]
fn para_ids_in_values() {
    let bulk = ScaleValue::Variant { values: vec![list(vec![num(3428)])], debug: String::new() };
    assert!(value_contains_para_id(&num(3428), 3428));
    assert!(value_contains_para_id(&bulk, 3428));
    assert!(value_contains_para_id(&list(vec![num(1), bulk]), 3428));
    let entry = named(vec![("ttl", num(9)), ("para_id", list(vec![list(vec![num(3428)])]))]);
    assert!(value_contains_para_id(&entry, 3428));
    assert!(!value_contains_para_id(&entry, 10));
    assert!(!value_contains_para_id(&ScaleValue::Other { debug: "3428".to_string() }, 3428));
}

#[test]
fn cores_in_the_claim_queue() {
    let entry = |core: u128, ids: Vec<u128>| {
        list(vec![list(vec![num(core)]), list(ids.into_iter().map(num).collect())])
    };
    let queue = list(vec![entry(0, vec![1, 3428]), entry(5, vec![2]), entry(62, vec![3428])]);
    assert_eq!(extract_claim_queue_for_para(&queue, 3428), vec![0, 62]);
    assert_eq!(extract_claim_queue_for_para(&list(vec![queue]), 3428), vec![0, 62]);
    assert!(extract_claim_queue_for_para(&num(3), 3428).is_empty());
    let three = list(vec![list(vec![num(1), num(2), num(3)]), num(4)]);
    assert_eq!(try_extract_map_entries(&three).unwrap().len(), 0);
    assert!(try_extract_map_entries(&num(1)).is_none());
    assert!(collect_map_entries(&three).is_empty());
}

#[test]
fn debug_texts() {
    assert_eq!(debug_value(&num(7), 0), "u128(7)");
    assert_eq!(debug_value(&ScaleValue::Bool(true), 0), "bool(true)");
    assert_eq!(debug_value(&ScaleValue::Other { debug: "x".to_string() }, 0), "x");
    let v = list(vec![num(1), num(2), num(3), num(4), num(5)]);
    assert_eq!(debug_value(&v, 0), "Unnamed[5](u128(1), u128(2), u128(3), ..+2)");
    let n = named(vec![("a", num(1)), ("b", num(2)), ("c", num(3)), ("d", num(4))]);
    assert_eq!(debug_value(&n, 0), "Named(a: u128(1), b: u128(2), c: u128(3)), ..+1");
    let deep = list(vec![list(vec![list(vec![list(vec![list(vec![num(1)])])])])]);
    assert_eq!(
        debug_value(&deep, 0),
        "Unnamed[1](Unnamed[1](Unnamed[1](Unnamed[1](Unnamed[1](...)))))"
    );
}

fn event(pallet: &str, variant: &str, fields: Option<Vec<ScaleValue>>) -> ChainEvent {
    ChainEvent { pallet: pallet.to_string(), variant: variant.to_string(), fields }
}

#[test]
fn blocks_are_put_together() {
    let replies = BlockReplies {
        block_number: 10,
        block_hash: [5; 32],
        session_index: Some(3),
        events: Some(vec![
            event("ParaInclusion", "CandidateBacked", Some(event_fields(3428))),
            event("ParaInclusion", "CandidateIncluded", Some(event_fields(3428))),
            event("ParaInclusion", "CandidateIncluded", Some(event_fields(1))),
            event("ParaInclusion", "CandidateTimedOut", Some(event_fields(3428))),
            event("Balances", "CandidateBacked", Some(event_fields(3428))),
            event("ParaInclusion", "CandidateBacked", None),
        ]),
        claim_queue: Some(list(vec![list(vec![num(4), num(3428)])])),
    };
    let (info, failures) = assemble_block(&replies, 3428);
    assert_eq!(info.block_number, 10);
    assert_eq!(info.block_hash, [5; 32]);
    assert_eq!(info.session_index, 3);
    assert_eq!(info.backed_para_candidates.len(), 1);
    assert_eq!(info.included_para_candidates.len(), 1);
    assert_eq!(info.claim_queue_cores, vec![4]);
    assert_eq!(failures, 0);
}

#[test]
fn failed_queries_are_counted() {
    let replies = BlockReplies {
        block_number: 10,
        block_hash: [5; 32],
        session_index: None,
        events: None,
        claim_queue: None,
    };
    let (info, failures) = assemble_block(&replies, 3428);
    assert_eq!(info.session_index, 0);
    assert!(info.backed_para_candidates.is_empty() && info.included_para_candidates.is_empty());
    assert!(info.claim_queue_cores.is_empty());
    assert_eq!(failures, 2);
    let (again, _) = assemble_block(&BlockReplies { block_number: 3, ..replies }, 1);
    let map = index_blocks(vec![info, again]);
    assert_eq!(map.keys().copied().collect::<Vec<u32>>(), vec![3, 10]);
}

#[test]
fn delays_double() {
    let delays: Vec<Option<u64>> = (0..5).map(retry_delay_ms).collect();
    assert_eq!(delays, vec![Some(500), Some(1000), Some(2000), None, None]);
}

fn search(start: u32, end: u32, session: impl Fn(u32) -> u32) -> (Vec<(u32, u32, u32)>, usize) {
    let mut s = SessionSearch::new(start, end);
    let mut questions = 0;
    while let Some(block) = s.next_block() {
        assert!(start <= block && block <= end);
        questions += 1;
        s.answer(session(block));
    }
    (s.boundaries().clone(), questions)
}

#[test]
fn session_boundaries_are_found() {
    let session = |b: u32| if b < 1040 { 7 } else if b < 1100 { 8 } else { 9 };
    let (found, questions) = search(1000, 1200, session);
    assert_eq!(found, vec![(1040, 7, 8), (1100, 8, 9)]);
    assert!(questions <= 2 + 2 * 8);
    assert_eq!(search(1000, 1039, session).0, vec![]);
    assert_eq!(search(1039, 1040, session).0, vec![(1040, 7, 8)]);
    assert_eq!(search(1000, 1000, session), (vec![], 0));
    assert_eq!(search(1001, 1000, session), (vec![], 0));
}

#[test]
fn sessions_that_are_skipped() {
    let (found, _) = search(0, 10, |b| if b < 5 { 1 } else { 3 });
    assert_eq!(found, vec![(5, 1, 2), (5, 2, 3)]);
    assert_eq!(search(0, 10, |b| 20 - b).0, vec![]);
}
