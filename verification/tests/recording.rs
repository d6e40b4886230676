use advice_provider::felt::Felt;
use advice_provider::merkle::StoreNode;
use advice_provider::provider::{
    AdviceInputs, AdviceProvider, AdviceSource, MemAdviceProvider, RecAdviceProvider,
};
use advice_provider::word::Word;

fn felt(v: u64) -> Felt {
    Felt::new(v)
}

fn word(a: u64, b: u64, c: u64, d: u64) -> Word {
    Word(felt(a), felt(b), felt(c), felt(d))
}

fn node(l: Word, r: Word) -> StoreNode {
    StoreNode { left: l, right: r }
}

fn session_inputs() -> AdviceInputs {
    let read_key = word(1, 2, 3, 4);
    let unread_key = word(5, 6, 7, 8);
    let a = word(100, 0, 0, 1);
    let b = word(100, 0, 0, 2);
    AdviceInputs::new_empty()
        .with_stack(vec![felt(41), felt(42)])
        .with_map(vec![
            (read_key.into_bytes(), vec![felt(1), felt(2), felt(3), felt(4)]),
            (unread_key.into_bytes(), vec![felt(9)]),
        ])
        .with_merkle_store(vec![
            (a, node(word(1, 0, 0, 0), word(2, 0, 0, 0))),
            (b, node(word(3, 0, 0, 0), word(4, 0, 0, 0))),
        ])
}

/// The instruction sequence both runs execute; returns its observable
/// outputs.
fn run_session<P: AdviceProvider>(p: &mut P) -> Vec<u64> {
    let read_key = word(1, 2, 3, 4);
    let a = word(100, 0, 0, 1);
    let b = word(100, 0, 0, 2);
    let mut outputs = Vec::new();
    outputs.push(p.pop_stack().unwrap().as_int());
    let root = p.merge_roots(a, b).unwrap();
    let left = p.get_tree_node(root, &felt(1), &felt(0)).unwrap();
    outputs.push(left.0.as_int());
    let leaf = p.get_tree_node(root, &felt(2), &felt(3)).unwrap();
    outputs.push(leaf.0.as_int());
    p.push_stack(AdviceSource::MapValue { key: read_key, include_len: true }).unwrap();
    for _ in 0..5 {
        outputs.push(p.pop_stack().unwrap().as_int());
    }
    outputs.push(p.pop_stack().unwrap().as_int());
    outputs
}

#[test]
fn test_recording_round_trip_replays_identically() {
    // record a session against the full data set
    let mut rec = RecAdviceProvider::from_inputs(session_inputs());
    let recorded_outputs = run_session(&mut rec);
    let proof = rec.into_proof();

    // the bundle declares the original initial stack, not the final one
    assert_eq!(proof.stack().len(), 2);
    assert_eq!(proof.stack()[0], felt(41));
    assert_eq!(proof.stack()[1], felt(42));

    // replaying the same sequence against only the recorded subset
    // yields identical outputs and no lookup failures
    let mut replay = MemAdviceProvider::from_inputs(proof);
    let replay_outputs = run_session(&mut replay);
    assert_eq!(recorded_outputs, replay_outputs);
}

#[test]
fn test_recording_proof_is_minimal() {
    let mut rec = RecAdviceProvider::from_inputs(session_inputs());
    let _ = run_session(&mut rec);
    let proof = rec.into_proof();
    let (_stack, map_entries, store_entries) = proof.into_parts();

    // only the read key is in the bundle; the unread key is pruned
    let read_key = word(1, 2, 3, 4);
    let unread_key = word(5, 6, 7, 8);
    assert!(map_entries.iter().any(|(k, _)| *k == read_key.into_bytes()));
    assert!(!map_entries.iter().any(|(k, _)| *k == unread_key.into_bytes()));
    assert_eq!(map_entries.len(), 1);

    // the session walked both inner nodes and the merged root
    let a = word(100, 0, 0, 1);
    let b = word(100, 0, 0, 2);
    assert!(store_entries.iter().any(|(k, _)| *k == a));
    assert!(store_entries.iter().any(|(k, _)| *k == b));
    assert_eq!(store_entries.len(), 3);
}

#[test]
fn test_replay_lacks_unread_data() {
    let mut rec = RecAdviceProvider::from_inputs(session_inputs());
    let _ = run_session(&mut rec);
    let proof = rec.into_proof();
    let mut replay = MemAdviceProvider::from_inputs(proof);
    // what the recorded run never read is genuinely absent on replay
    let unread_key = word(5, 6, 7, 8);
    assert!(replay
        .push_stack(AdviceSource::MapValue { key: unread_key, include_len: false })
        .is_err());
}

#[test]
fn test_recording_accessors_track_live_state() {
    let mut rec = RecAdviceProvider::from_inputs(session_inputs());
    assert_eq!(rec.stack().len(), 2);
    assert!(rec.has_merkle_root(word(100, 0, 0, 1)));
    assert!(!rec.has_merkle_root(word(100, 0, 0, 9)));
    rec.pop_stack().unwrap();
    assert_eq!(rec.stack().len(), 1);
    // the live stack mutates; the retained initial stack does not,
    // as the bundle shows after consumption
    let proof = rec.into_proof();
    assert_eq!(proof.stack().len(), 2);
}

#[test]
fn test_inserted_but_never_read_entries_are_not_recorded() {
    let mut rec = RecAdviceProvider::from_inputs(AdviceInputs::new_empty());
    let key = word(3, 1, 4, 1);
    rec.insert_into_map(key, vec![felt(1), felt(2)]).unwrap();
    let proof = rec.into_proof();
    let (_stack, map_entries, _store) = proof.into_parts();
    // inserts are recorded only on first subsequent read
    assert!(map_entries.is_empty());
}

#[test]
fn test_inserted_then_read_entries_are_recorded() {
    let mut rec = RecAdviceProvider::from_inputs(AdviceInputs::new_empty());
    let key = word(3, 1, 4, 1);
    rec.insert_into_map(key, vec![felt(1), felt(2)]).unwrap();
    rec.push_stack(AdviceSource::MapValue { key, include_len: false }).unwrap();
    let proof = rec.into_proof();
    let (_stack, map_entries, _store) = proof.into_parts();
    assert_eq!(map_entries.len(), 1);
    assert_eq!(map_entries[0].0, key.into_bytes());
    assert_eq!(map_entries[0].1, vec![felt(1), felt(2)]);
}
