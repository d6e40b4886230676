use advice_provider::errors::ExecutionError;
use advice_provider::felt::Felt;
use advice_provider::provider::{
    AdviceInputs, AdviceProvider, AdviceSource, MemAdviceProvider,
};
use advice_provider::word::Word;

fn felt(v: u64) -> Felt {
    Felt::new(v)
}

fn word(a: u64, b: u64, c: u64, d: u64) -> Word {
    Word(felt(a), felt(b), felt(c), felt(d))
}

fn empty_provider() -> MemAdviceProvider {
    MemAdviceProvider::from_inputs(AdviceInputs::new_empty())
}

#[test]
fn test_lifo_push_then_pop() {
    let mut p = empty_provider();
    for v in [1u64, 2, 3, 4, 5] {
        p.push_stack(AdviceSource::Value(felt(v))).unwrap();
    }
    let mut popped = Vec::new();
    for _ in 0..5 {
        popped.push(p.pop_stack().unwrap().as_int());
    }
    assert_eq!(popped, vec![5, 4, 3, 2, 1]);
    assert_eq!(p.pop_stack(), Err(ExecutionError::AdviceStackReadFailed(0)));
}

#[test]
fn test_initial_stack_is_reversed_on_load() {
    let inputs = AdviceInputs::new_empty().with_stack(vec![felt(10), felt(20), felt(30)]);
    let mut p = MemAdviceProvider::from_inputs(inputs);
    assert_eq!(p.pop_stack().unwrap(), felt(10));
    assert_eq!(p.pop_stack().unwrap(), felt(20));
    assert_eq!(p.pop_stack().unwrap(), felt(30));
    assert!(p.pop_stack().is_err());
}

#[test]
fn test_pop_stack_word_reassembly() {
    let mut p = empty_provider();
    for v in [1u64, 2, 3, 4] {
        p.push_stack(AdviceSource::Value(felt(v))).unwrap();
    }
    let w = p.pop_stack_word().unwrap();
    assert_eq!(w, word(4, 3, 2, 1));
    assert_eq!(p.stack().len(), 0);
}

#[test]
fn test_pop_stack_word_needs_four() {
    let mut p = empty_provider();
    for v in [1u64, 2, 3] {
        p.push_stack(AdviceSource::Value(felt(v))).unwrap();
    }
    assert_eq!(
        p.pop_stack_word(),
        Err(ExecutionError::AdviceStackReadFailed(0))
    );
    assert_eq!(p.stack().len(), 3);
}

#[test]
fn test_pop_stack_dword_order() {
    let mut p = empty_provider();
    for v in 1u64..=8 {
        p.push_stack(AdviceSource::Value(felt(v))).unwrap();
    }
    let [w0, w1] = p.pop_stack_dword().unwrap();
    assert_eq!(w0, word(8, 7, 6, 5));
    assert_eq!(w1, word(4, 3, 2, 1));
    assert_eq!(p.stack().len(), 0);
}

#[test]
fn test_pop_stack_dword_partial_failure_consumes_first_word() {
    let mut p = empty_provider();
    for v in 1u64..=6 {
        p.push_stack(AdviceSource::Value(felt(v))).unwrap();
    }
    assert_eq!(
        p.pop_stack_dword(),
        Err(ExecutionError::AdviceStackReadFailed(0))
    );
    // the first word pop succeeded before the second failed
    assert_eq!(p.stack().len(), 2);
}

#[test]
fn test_map_reference_push_round_trip() {
    let key = word(7, 7, 7, 7);
    let inputs = AdviceInputs::new_empty().with_map(vec![(
        key.into_bytes(),
        vec![felt(1), felt(2), felt(3), felt(4)],
    )]);
    let mut p = MemAdviceProvider::from_inputs(inputs);
    p.push_stack(AdviceSource::MapValue { key, include_len: false }).unwrap();
    let mut popped = Vec::new();
    for _ in 0..4 {
        popped.push(p.pop_stack().unwrap().as_int());
    }
    assert_eq!(popped, vec![1, 2, 3, 4]);
    assert_eq!(p.stack().len(), 0);
}

#[test]
fn test_map_reference_push_with_len() {
    // initial map {K: [1, 2, 3, 4]}: the count lands on top of the
    // reversed values, so it pops first, then the values pop in their
    // original order.
    let key = word(11, 12, 13, 14);
    let inputs = AdviceInputs::new_empty().with_map(vec![(
        key.into_bytes(),
        vec![felt(1), felt(2), felt(3), felt(4)],
    )]);
    let mut p = MemAdviceProvider::from_inputs(inputs);
    p.push_stack(AdviceSource::MapValue { key, include_len: true }).unwrap();
    assert_eq!(p.stack().len(), 5);
    assert_eq!(p.pop_stack().unwrap(), felt(4));
    let mut popped = Vec::new();
    for _ in 0..4 {
        popped.push(p.pop_stack().unwrap().as_int());
    }
    assert_eq!(popped, vec![1, 2, 3, 4]);
}

#[test]
fn test_advice_key_not_found() {
    let mut p = empty_provider();
    let key = word(1, 2, 3, 4);
    assert_eq!(
        p.push_stack(AdviceSource::MapValue { key, include_len: false }),
        Err(ExecutionError::AdviceKeyNotFound(key))
    );
}

#[test]
fn test_insert_into_map_then_push() {
    let mut p = empty_provider();
    let key = word(5, 0, 0, 5);
    p.insert_into_map(key, vec![felt(5), felt(6), felt(7)]).unwrap();
    p.push_stack(AdviceSource::MapValue { key, include_len: false }).unwrap();
    assert_eq!(p.pop_stack().unwrap(), felt(5));
    assert_eq!(p.pop_stack().unwrap(), felt(6));
    assert_eq!(p.pop_stack().unwrap(), felt(7));
}

#[test]
fn test_insert_into_map_overwrites() {
    let mut p = empty_provider();
    let key = word(9, 9, 9, 9);
    p.insert_into_map(key, vec![felt(1)]).unwrap();
    p.insert_into_map(key, vec![felt(2)]).unwrap();
    p.push_stack(AdviceSource::MapValue { key, include_len: true }).unwrap();
    assert_eq!(p.pop_stack().unwrap(), felt(1));
    assert_eq!(p.pop_stack().unwrap(), felt(2));
    assert_eq!(p.stack().len(), 0);
}

#[test]
fn test_clock_tags_stack_errors() {
    let mut p = empty_provider();
    p.advance_clock();
    p.advance_clock();
    p.advance_clock();
    assert_eq!(p.pop_stack(), Err(ExecutionError::AdviceStackReadFailed(3)));
}

#[test]
fn test_word_into_bytes_encoding() {
    let w = word(1, 2, 0x0102030405060708, u64::MAX);
    let bytes = w.into_bytes();
    assert_eq!(bytes.len(), 32);
    let mut expected = vec![0u8; 32];
    expected[0] = 1;
    expected[8] = 2;
    expected[16..24].copy_from_slice(&[8, 7, 6, 5, 4, 3, 2, 1]);
    expected[24..32].copy_from_slice(&[255; 8]);
    assert_eq!(bytes, expected);
    // equal words encode to equal bytes
    assert_eq!(word(1, 2, 3, 4).into_bytes(), word(1, 2, 3, 4).into_bytes());
    // distinct words encode to distinct bytes
    assert_ne!(word(1, 2, 3, 4).into_bytes(), word(1, 2, 4, 3).into_bytes());
}
