use infer_queue::queue::{Entry, State};
use infer_queue::request::{
    NextTokenChooserParameters, StoppingCriteriaParameters, ValidGenerateRequest,
};
use tokio::time::Instant;

fn default_entry() -> (Entry<String>, flume::Receiver<String>) {
    let (response_tx, receiver_tx) = flume::unbounded();

    let entry = Entry {
        request: ValidGenerateRequest {
            inputs: "".to_string(),
            truncate: 0,
            parameters: NextTokenChooserParameters {
                temperature: (0.0f32).to_bits(),
                top_k: 0,
                top_p: (0.0f32).to_bits(),
                typical_p: (0.0f32).to_bits(),
                do_sample: false,
                seed: 0,
                repetition_penalty: (0.0f32).to_bits(),
                watermark: false,
            },
            stopping_parameters: StoppingCriteriaParameters {
                ignore_eos_token: false,
                max_new_tokens: 0,
                stop_sequences: vec![],
            },
        },
        response_tx,
        queue_time: Instant::now(),
        batch_time: None,
    };
    (entry, receiver_tx)
}

#[test]
fn test_append() {
    let mut state: State<String> = State::new();
    let (entry, _guard) = default_entry();

    assert_eq!(state.next_id, 0);
    assert_eq!(state.entries.len(), 0);

    state.append(entry);

    assert_eq!(state.next_id, 1);
    assert_eq!(state.entries.len(), 1);
    let (id, _) = state.entries.remove(0).unwrap();
    assert_eq!(id, 0);
}

#[test]
fn test_next_batch_empty() {
    let mut state: State<String> = State::new();

    assert!(state.next_batch(None, 1).is_none());
    assert!(state.next_batch(Some(1), 1).is_none());
}

#[test]
fn test_next_batch_min_size() {
    let mut state: State<String> = State::new();
    let (entry1, _guard1) = default_entry();
    let (entry2, _guard2) = default_entry();
    state.append(entry1);
    state.append(entry2);

    let (entries, batch) = state.next_batch(None, 2).unwrap();
    assert_eq!(entries.len(), 2);
    assert!(entries.contains_key(&0));
    assert!(entries.contains_key(&1));
    assert!(entries.get(&0).unwrap().batch_time.is_some());
    assert!(entries.get(&1).unwrap().batch_time.is_some());
    assert_eq!(batch.id, 0);
    assert_eq!(batch.size, 2);

    assert_eq!(state.next_id, 2);
    assert_eq!(state.entries.len(), 0);
    assert_eq!(state.next_batch_id, 1);

    let (entry3, _guard3) = default_entry();
    state.append(entry3);

    assert!(state.next_batch(Some(2), 2).is_none());

    assert_eq!(state.next_id, 3);
    assert_eq!(state.entries.len(), 1);
    let (id, _) = state.entries.remove(0).unwrap();
    assert_eq!(id, 2);
}

#[test]
fn test_next_batch_max_size() {
    let mut state: State<String> = State::new();
    let (entry1, _guard1) = default_entry();
    let (entry2, _guard2) = default_entry();
    state.append(entry1);
    state.append(entry2);

    let (entries, batch) = state.next_batch(None, 1).unwrap();
    assert_eq!(entries.len(), 1);
    assert!(entries.contains_key(&0));
    assert_eq!(batch.id, 0);
    assert_eq!(batch.size, 1);

    assert_eq!(state.next_id, 2);
    assert_eq!(state.entries.len(), 1);
    assert_eq!(state.next_batch_id, 1);

    let (entry3, _guard3) = default_entry();
    state.append(entry3);

    let (entries, batch) = state.next_batch(None, 3).unwrap();
    assert_eq!(entries.len(), 2);
    assert!(entries.contains_key(&1));
    assert!(entries.contains_key(&2));
    assert_eq!(batch.id, 1);
    assert_eq!(batch.size, 2);

    assert_eq!(state.next_id, 3);
    assert_eq!(state.entries.len(), 0);
    assert_eq!(state.next_batch_id, 2);
}

#[test]
fn test_append_assigns_consecutive_ids() {
    let mut state: State<String> = State::new();
    let mut guards = Vec::new();
    for _ in 0..4 {
        let (entry, guard) = default_entry();
        state.append(entry);
        guards.push(guard);
    }

    assert_eq!(state.next_id, 4);
    assert_eq!(state.entries.len(), 4);
    for expected in 0..4u64 {
        let (id, _) = state.entries.remove(0).unwrap();
        assert_eq!(id, expected);
    }
}

#[test]
fn test_next_batch_fifo_order() {
    let mut state: State<String> = State::new();
    let (entry0, _guard0) = default_entry();
    let (entry1, _guard1) = default_entry();
    let (entry2, _guard2) = default_entry();
    state.append(entry0);
    state.append(entry1);
    state.append(entry2);

    let (entries, batch) = state.next_batch(None, 3).unwrap();
    assert_eq!(batch.size, 3);
    assert_eq!(batch.requests.len(), 3);
    assert_eq!(batch.requests[0].id, 0);
    assert_eq!(batch.requests[1].id, 1);
    assert_eq!(batch.requests[2].id, 2);
    assert_eq!(entries.len(), 3);
    assert_eq!(state.entries.len(), 0);
}

#[test]
fn test_next_batch_min_size_leaves_entry_untouched() {
    let mut state: State<String> = State::new();
    let (entry, _guard) = default_entry();
    state.append(entry);

    assert!(state.next_batch(Some(2), 2).is_none());
    assert_eq!(state.entries.len(), 1);

    let (entries, batch) = state.next_batch(None, 1).unwrap();
    assert_eq!(batch.size, 1);
    assert_eq!(batch.requests[0].id, 0);
    assert!(entries.contains_key(&0));
}

#[test]
fn test_next_batch_max_size_keeps_rest_in_order() {
    let mut state: State<String> = State::new();
    let (entry0, _guard0) = default_entry();
    let (entry1, _guard1) = default_entry();
    let (entry2, _guard2) = default_entry();
    state.append(entry0);
    state.append(entry1);
    state.append(entry2);

    let (entries, batch) = state.next_batch(None, 1).unwrap();
    assert_eq!(batch.size, 1);
    assert_eq!(batch.requests[0].id, 0);
    assert!(entries.contains_key(&0));

    assert_eq!(state.entries.len(), 2);
    let (id, _) = state.entries.remove(0).unwrap();
    assert_eq!(id, 1);
    let (id, _) = state.entries.remove(0).unwrap();
    assert_eq!(id, 2);
}

#[test]
fn test_next_batch_discards_disconnected() {
    let mut state: State<String> = State::new();
    let (entry_a, _guard_a) = default_entry();
    let (entry_b, guard_b) = default_entry();
    let (entry_c, _guard_c) = default_entry();
    state.append(entry_a);
    state.append(entry_b);
    state.append(entry_c);
    drop(guard_b);

    let (entries, batch) = state.next_batch(None, 3).unwrap();
    assert_eq!(batch.size, 2);
    assert_eq!(batch.requests.len(), 2);
    assert_eq!(batch.requests[0].id, 0);
    assert_eq!(batch.requests[1].id, 2);
    assert_eq!(entries.len(), 2);
    assert!(entries.contains_key(&0));
    assert!(entries.contains_key(&2));
    assert!(!entries.contains_key(&1));
    assert_eq!(state.entries.len(), 0);
}

#[test]
fn test_next_batch_empty_stability() {
    let mut state: State<String> = State::new();

    for _ in 0..3 {
        assert!(state.next_batch(None, 4).is_none());
        assert!(state.next_batch(Some(1), 4).is_none());
        assert_eq!(state.next_id, 0);
        assert_eq!(state.next_batch_id, 0);
        assert_eq!(state.entries.len(), 0);
    }
}

#[test]
fn test_batch_ids_sequence() {
    let mut state: State<String> = State::new();
    let (entry0, _guard0) = default_entry();
    let (entry1, _guard1) = default_entry();
    state.append(entry0);
    state.append(entry1);

    let (_, batch) = state.next_batch(None, 2).unwrap();
    assert_eq!(batch.id, 0);

    let (entry2, _guard2) = default_entry();
    let (entry3, _guard3) = default_entry();
    state.append(entry2);
    state.append(entry3);

    let (_, batch) = state.next_batch(None, 2).unwrap();
    assert_eq!(batch.id, 1);
}

#[test]
fn test_next_batch_all_disconnected() {
    let mut state: State<String> = State::new();
    let (entry, guard) = default_entry();
    state.append(entry);
    drop(guard);

    assert!(state.next_batch(None, 1).is_none());
    assert_eq!(state.entries.len(), 0);
    assert_eq!(state.next_batch_id, 0);
    assert_eq!(state.next_id, 1);
}

#[test]
fn test_request_snapshot_carries_fields() {
    let mut state: State<String> = State::new();
    let (mut entry, _guard) = default_entry();
    entry.request.inputs = "hello".to_string();
    entry.request.truncate = 7;
    entry.request.parameters.top_k = 11;
    entry.request.stopping_parameters.max_new_tokens = 13;
    entry.request.stopping_parameters.stop_sequences = vec!["stop".to_string()];
    state.append(entry);

    let (entries, batch) = state.next_batch(None, 1).unwrap();
    let request = &batch.requests[0];
    assert_eq!(request.id, 0);
    assert_eq!(request.inputs, "hello");
    assert_eq!(request.truncate, 7);
    assert_eq!(request.parameters.as_ref().unwrap().top_k, 11);
    let stopping = request.stopping_parameters.as_ref().unwrap();
    assert_eq!(stopping.max_new_tokens, 13);
    assert_eq!(stopping.stop_sequences, vec!["stop".to_string()]);

    let held = entries.get(&0).unwrap();
    assert_eq!(held.request.inputs, "hello");
    assert!(held.batch_time.is_some());
}
