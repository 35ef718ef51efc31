use dag_resolver::codec::{decode_record, encode_record, record_to_words, words_to_record};
use dag_resolver::config::CircuitResolverOpts;
use dag_resolver::place::Place;
use dag_resolver::record::{
    NullRecordWriter, ResolutionRecord, ResolutionRecordItem, ResolutionRecordSource,
    ResolutionRecordStorage, ResolutionRecordWriter, TestRecordStorage,
};
use dag_resolver::store::{Awaiter, VariableStore, WitnessSource, WitnessSourceAwaitable};
use dag_resolver::window::ResolutionWindow;
use dag_resolver::witness::CSWitnessValues;

fn sample_record() -> ResolutionRecord {
    let mut rec = ResolutionRecord::new(2, 3, 2);
    rec.items[0] = ResolutionRecordItem {
        added_at: 0,
        accepted_at: 2,
        order_len: 0,
        order_ix: 1,
        parallelism: 2,
    };
    rec.items[1] = ResolutionRecordItem {
        added_at: 1,
        accepted_at: 1,
        order_len: 1,
        order_ix: 0,
        parallelism: 2,
    };
    rec
}

#[test]
fn opts_default_parallelism() {
    let opts = CircuitResolverOpts::new(100);
    assert_eq!(opts.max_variables, 100);
    assert_eq!(opts.desired_parallelism, 4096);
}

#[test]
fn record_new_fills_zeroed_items() {
    let rec = ResolutionRecord::new(7, 5, 7);
    assert_eq!(rec.registrations_count, 7);
    assert_eq!(rec.values_count, 5);
    assert_eq!(rec.items.len(), 7);
    for item in rec.items.iter() {
        assert_eq!(item.added_at, 0);
        assert_eq!(item.accepted_at, 0);
        assert_eq!(item.order_len, 0);
        assert_eq!(item.order_ix, 0);
        assert_eq!(item.parallelism, 0);
    }
}

#[test]
fn words_round_trip_exactly() {
    let rec = sample_record();
    let words = record_to_words(&rec);
    assert_eq!(words.len(), 3 + 5 * rec.items.len());
    assert_eq!(words[0], 2);
    assert_eq!(words[1], 3);
    assert_eq!(words[2], 2);
    let back = words_to_record(&words).expect("a flattened record parses back");
    assert_eq!(back.registrations_count, rec.registrations_count);
    assert_eq!(back.values_count, rec.values_count);
    assert_eq!(back.items.len(), rec.items.len());
    for (x, y) in back.items.iter().zip(rec.items.iter()) {
        assert_eq!(x, y);
    }
}

#[test]
fn truncated_words_rejected() {
    let rec = sample_record();
    let mut words = record_to_words(&rec);
    words.pop();
    assert!(words_to_record(&words).is_none());
    assert!(words_to_record(&vec![1, 2]).is_none());
}

#[test]
fn bytes_round_trip_through_bincode() {
    let rec = sample_record();
    let bytes = encode_record(&rec).expect("in-memory encoding succeeds");
    // The rendering is not the identity on the word table: it is bytes.
    assert_eq!(bytes.len(), 8 + 13 * 8);
    let back = decode_record(&bytes).expect("the encoding decodes");
    assert_eq!(back.registrations_count, rec.registrations_count);
    assert_eq!(back.values_count, rec.values_count);
    assert_eq!(back.items.len(), rec.items.len());
    for (x, y) in back.items.iter().zip(rec.items.iter()) {
        assert_eq!(x, y);
    }
}

#[test]
fn garbage_bytes_rejected() {
    let bytes: Vec<u8> = vec![255, 255, 255, 255, 255, 255, 255, 255, 1];
    assert!(decode_record(&bytes).is_none());
}

#[test]
fn record_storage_hands_back_stored_record() {
    let mut storage = TestRecordStorage::new(sample_record());
    let other = sample_record();
    ResolutionRecordStorage::store(&mut storage, (), &other);
    let got = ResolutionRecordStorage::get(&storage, ());
    assert_eq!(got.registrations_count, 2);
    let by_source = ResolutionRecordSource::get(&storage);
    assert_eq!(by_source.values_count, 3);
    let mut writer = NullRecordWriter();
    writer.store(&other);
}

#[test]
fn window_bounds_admission() {
    let mut w = ResolutionWindow::new(2);
    assert_eq!(w.len(), 0);
    w.accept(4);
    w.accept(7);
    assert_eq!(w.len(), 2);
    let batch = w.drain();
    assert_eq!(batch, vec![4, 7]);
    assert_eq!(w.len(), 0);
}

#[test]
fn store_single_assignment_and_awaiter() {
    let mut store: VariableStore<u64> = VariableStore::new(3);
    assert_eq!(store.try_get_value(Place(1)), None);
    store.set_cell(Place(1), 42);
    assert_eq!(store.try_get_value(Place(1)), Some(42));
    assert_eq!(store.get_value_unchecked(Place(1)), 42);
    let partial = store.get_awaiter(vec![Place(0), Place(1)]);
    assert!(!partial.wait());
    let single = store.get_awaiter(vec![Place(1)]);
    assert!(single.wait());
}

#[test]
fn witness_values_wait_transitions() {
    let mut store: VariableStore<u64> = VariableStore::new(3);
    let mut placeholder: CSWitnessValues<u64> = CSWitnessValues::Placeholder;
    assert_eq!(placeholder.wait(&store), None);

    let mut waiting = CSWitnessValues::Waiting { sources: vec![Place(0), Place(2)] };
    assert_eq!(waiting.wait(&store), None);
    store.set_cell(Place(0), 5);
    store.set_cell(Place(2), 9);
    assert_eq!(waiting.wait(&store), Some(vec![5, 9]));
    // The handle is now resolved and keeps answering with the same values.
    assert_eq!(waiting.wait(&store), Some(vec![5, 9]));

    let mut ready: CSWitnessValues<u64> = CSWitnessValues::Ready(vec![1, 2, 3]);
    assert_eq!(ready.wait(&store), Some(vec![1, 2, 3]));
}
