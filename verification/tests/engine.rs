use dag_resolver::config::CircuitResolverOpts;
use dag_resolver::errors::ResolutionError;
use dag_resolver::place::Place;
use dag_resolver::resolver::{CircuitResolver, StCircuitResolver};
use dag_resolver::sorter::ResolverSortingMode;
use dag_resolver::sorter_playback::PlaybackResolverSorter;
use dag_resolver::sorter_runtime::RuntimeResolverSorter;
use dag_resolver::store::{Awaiter, WitnessSource, WitnessSourceAwaitable};

type Fx = fn(Vec<u64>) -> Vec<u64>;
type Discover = StCircuitResolver<u64, Fx, RuntimeResolverSorter>;
type Playback = StCircuitResolver<u64, Fx, PlaybackResolverSorter>;

fn double_fn(v: Vec<u64>) -> Vec<u64> {
    vec![v[0] * 2]
}

fn add_fn(v: Vec<u64>) -> Vec<u64> {
    vec![v[0] + v[1]]
}

fn empty_fn(_v: Vec<u64>) -> Vec<u64> {
    Vec::new()
}

fn discover(max_variables: usize, parallelism: u32) -> Discover {
    let mut opts = CircuitResolverOpts::new(max_variables);
    opts.desired_parallelism = parallelism;
    Discover::new((opts, opts))
}

#[test]
fn scenario_double_then_add_first_order() {
    let mut r = discover(8, 4);
    assert!(r.add_resolution(&vec![Place(0)], &vec![Place(2)], double_fn as Fx).is_ok());
    assert!(r.add_resolution(&vec![Place(2), Place(1)], &vec![Place(3)], add_fn as Fx).is_ok());
    assert!(r.set_value(Place(0), 3).is_ok());
    assert!(r.set_value(Place(1), 5).is_ok());
    assert!(r.wait_till_resolved().is_ok());
    assert_eq!(r.try_get_value(Place(2)), Some(6));
    assert_eq!(r.try_get_value(Place(3)), Some(11));
}

#[test]
fn scenario_double_then_add_other_order() {
    let mut r = discover(8, 4);
    assert!(r.add_resolution(&vec![Place(0)], &vec![Place(2)], double_fn as Fx).is_ok());
    assert!(r.add_resolution(&vec![Place(2), Place(1)], &vec![Place(3)], add_fn as Fx).is_ok());
    assert!(r.set_value(Place(1), 5).is_ok());
    assert!(r.set_value(Place(0), 3).is_ok());
    assert!(r.wait_till_resolved().is_ok());
    assert_eq!(r.try_get_value(Place(2)), Some(6));
    assert_eq!(r.try_get_value(Place(3)), Some(11));
}

#[test]
fn duplicate_assignment_rejected() {
    let mut r = discover(4, 4);
    assert!(r.set_value(Place(0), 1).is_ok());
    assert_eq!(r.set_value(Place(0), 2), Err(ResolutionError::DuplicateAssignment));
    assert_eq!(r.try_get_value(Place(0)), Some(1));
}

#[test]
fn assignment_to_claimed_output_rejected() {
    let mut r = discover(4, 4);
    assert!(r.add_resolution(&vec![Place(0)], &vec![Place(1)], double_fn as Fx).is_ok());
    assert_eq!(r.set_value(Place(1), 9), Err(ResolutionError::DuplicateAssignment));
}

#[test]
fn overlapping_outputs_rejected_before_execution() {
    let mut r = discover(4, 4);
    assert!(r.set_value(Place(0), 2).is_ok());
    assert!(r.add_resolution(&vec![Place(0)], &vec![Place(1)], double_fn as Fx).is_ok());
    let second = r.add_resolution(&vec![Place(0)], &vec![Place(1)], double_fn as Fx);
    assert_eq!(second, Err(ResolutionError::DuplicateOutput));
    // The rejection happened at registration: nothing has run yet.
    assert_eq!(r.try_get_value(Place(1)), None);
    assert!(r.wait_till_resolved().is_ok());
    assert_eq!(r.try_get_value(Place(1)), Some(4));
}

#[test]
fn repeated_output_within_one_task_rejected() {
    let mut r = discover(4, 4);
    let res = r.add_resolution(&vec![Place(0)], &vec![Place(1), Place(1)], double_fn as Fx);
    assert_eq!(res, Err(ResolutionError::DuplicateOutput));
}

#[test]
fn missing_input_reports_unresolved_dependency() {
    let mut r = discover(8, 4);
    assert!(r.add_resolution(&vec![Place(0)], &vec![Place(2)], double_fn as Fx).is_ok());
    assert!(r.add_resolution(&vec![Place(2), Place(1)], &vec![Place(3)], add_fn as Fx).is_ok());
    assert!(r.set_value(Place(0), 3).is_ok());
    // Place(1) is never supplied: finalization must report it, not hang.
    assert_eq!(r.wait_till_resolved(), Err(ResolutionError::UnresolvedDependency));
}

#[test]
fn closure_with_wrong_arity_poisons_session() {
    let mut r = discover(4, 4);
    assert!(r.add_resolution(&vec![Place(0)], &vec![Place(1)], empty_fn as Fx).is_ok());
    assert!(r.set_value(Place(0), 3).is_ok());
    assert_eq!(r.wait_till_resolved(), Err(ResolutionError::ClosureFailed));
}

#[test]
fn readiness_is_monotonic() {
    let mut r = discover(4, 4);
    assert!(r.set_value(Place(2), 7).is_ok());
    assert_eq!(r.try_get_value(Place(2)), Some(7));
    assert_eq!(r.try_get_value(Place(2)), Some(7));
    assert!(r.add_resolution(&vec![Place(2)], &vec![Place(3)], double_fn as Fx).is_ok());
    assert!(r.wait_till_resolved().is_ok());
    assert_eq!(r.try_get_value(Place(2)), Some(7));
    assert_eq!(r.get_value_unchecked(Place(2)), 7);
}

#[test]
fn awaiter_reports_readiness() {
    let mut r = discover(4, 4);
    let early = r.get_awaiter(vec![Place(0), Place(1)]);
    assert!(!early.wait());
    assert!(r.set_value(Place(0), 1).is_ok());
    assert!(r.set_value(Place(1), 2).is_ok());
    let late = r.get_awaiter(vec![Place(0), Place(1)]);
    assert!(late.wait());
}

#[test]
fn parallelism_bound_recorded() {
    let mut r = discover(16, 2);
    for t in 0..5u64 {
        let out = Place(8 + t as usize);
        assert!(r.add_resolution(&vec![Place(0)], &vec![out], double_fn as Fx).is_ok());
    }
    assert!(r.set_value(Place(0), 21).is_ok());
    assert!(r.wait_till_resolved().is_ok());
    r.sorter.write_sequence();
    let rec = r.sorter.retrieve_sequence();
    assert_eq!(rec.registrations_count, 5);
    assert_eq!(rec.values_count, 1);
    for item in rec.items.iter() {
        assert!(item.parallelism <= 2);
    }
    // Batches are consecutive segments of the eligibility order, each as
    // large as capacity and the remaining order allow: 2, 2, then 1.
    let batch_sizes: Vec<u16> = rec.items.iter().map(|i| i.parallelism).collect();
    assert_eq!(batch_sizes, vec![2, 2, 2, 2, 1]);
    let mut seen: Vec<u64> = rec.items.iter().map(|i| i.order_ix).collect();
    seen.sort();
    assert_eq!(seen, vec![0, 1, 2, 3, 4]);
}

fn run_fixed_session() -> dag_resolver::record::ResolutionRecord {
    let mut r = discover(8, 1);
    assert!(r.add_resolution(&vec![Place(0)], &vec![Place(2)], double_fn as Fx).is_ok());
    assert!(r.add_resolution(&vec![Place(2), Place(1)], &vec![Place(3)], add_fn as Fx).is_ok());
    assert!(r.add_resolution(&vec![Place(0), Place(1)], &vec![Place(4)], add_fn as Fx).is_ok());
    assert!(r.set_value(Place(0), 3).is_ok());
    assert!(r.set_value(Place(1), 5).is_ok());
    assert!(r.wait_till_resolved().is_ok());
    r.sorter.write_sequence();
    r.sorter.retrieve_sequence().clone()
}

#[test]
fn discover_order_is_deterministic() {
    let a = run_fixed_session();
    let b = run_fixed_session();
    assert_eq!(a.registrations_count, b.registrations_count);
    assert_eq!(a.values_count, b.values_count);
    assert_eq!(a.items.len(), b.items.len());
    for (x, y) in a.items.iter().zip(b.items.iter()) {
        assert_eq!(x, y);
    }
}

#[test]
fn playback_reuses_order_and_matches_discover() {
    // Capture a record from a discover run.
    let mut opts = CircuitResolverOpts::new(8);
    opts.desired_parallelism = 4;
    let mut d1 = Discover::new((opts, opts));
    assert!(d1.add_resolution(&vec![Place(0)], &vec![Place(2)], double_fn as Fx).is_ok());
    assert!(d1.add_resolution(&vec![Place(2), Place(1)], &vec![Place(3)], add_fn as Fx).is_ok());
    assert!(d1.set_value(Place(0), 3).is_ok());
    assert!(d1.set_value(Place(1), 5).is_ok());
    assert!(d1.wait_till_resolved().is_ok());
    d1.sorter.write_sequence();
    let rec = d1.sorter.retrieve_sequence().clone();

    // Drive a playback run of the same shape with different values.
    let mut p = Playback::new((opts, (opts, rec.clone())));
    assert!(p.add_resolution(&vec![Place(0)], &vec![Place(2)], double_fn as Fx).is_ok());
    assert!(p.add_resolution(&vec![Place(2), Place(1)], &vec![Place(3)], add_fn as Fx).is_ok());
    assert!(p.set_value(Place(0), 4).is_ok());
    assert!(p.set_value(Place(1), 1).is_ok());
    assert!(p.wait_till_resolved().is_ok());
    assert_eq!(p.try_get_value(Place(2)), Some(8));
    assert_eq!(p.try_get_value(Place(3)), Some(9));

    // A fresh discover run over the new values agrees.
    let mut d2 = Discover::new((opts, opts));
    assert!(d2.add_resolution(&vec![Place(0)], &vec![Place(2)], double_fn as Fx).is_ok());
    assert!(d2.add_resolution(&vec![Place(2), Place(1)], &vec![Place(3)], add_fn as Fx).is_ok());
    assert!(d2.set_value(Place(0), 4).is_ok());
    assert!(d2.set_value(Place(1), 1).is_ok());
    assert!(d2.wait_till_resolved().is_ok());
    assert_eq!(d2.try_get_value(Place(2)), p.try_get_value(Place(2)));
    assert_eq!(d2.try_get_value(Place(3)), p.try_get_value(Place(3)));

    // The playback session reused the captured dispatch order verbatim.
    p.sorter.write_sequence();
    let replayed = p.sorter.retrieve_sequence();
    assert_eq!(replayed.items.len(), rec.items.len());
    for (x, y) in replayed.items.iter().zip(rec.items.iter()) {
        assert_eq!(x.order_ix, y.order_ix);
    }
}

#[test]
fn playback_record_mismatch_detected() {
    let rec = run_fixed_session();
    let mut opts = CircuitResolverOpts::new(8);
    opts.desired_parallelism = 1;
    let mut p = Playback::new((opts, (opts, rec)));
    // Only one of the three recorded tasks is registered.
    assert!(p.add_resolution(&vec![Place(0)], &vec![Place(2)], double_fn as Fx).is_ok());
    assert!(p.set_value(Place(0), 3).is_ok());
    assert_eq!(p.wait_till_resolved(), Err(ResolutionError::RecordMismatch));
}

#[test]
fn clear_resets_session() {
    let mut opts = CircuitResolverOpts::new(4);
    opts.desired_parallelism = 4;
    let mut r = Discover::new((opts, opts));
    assert!(r.set_value(Place(0), 1).is_ok());
    assert!(r.add_resolution(&vec![Place(0)], &vec![Place(1)], double_fn as Fx).is_ok());
    assert!(r.wait_till_resolved().is_ok());
    r.clear((opts, opts));
    assert_eq!(r.try_get_value(Place(0)), None);
    assert_eq!(r.try_get_value(Place(1)), None);
    assert!(r.set_value(Place(0), 5).is_ok());
    assert!(r.add_resolution(&vec![Place(0)], &vec![Place(1)], double_fn as Fx).is_ok());
    assert!(r.wait_till_resolved().is_ok());
    assert_eq!(r.try_get_value(Place(1)), Some(10));
}

#[test]
fn chain_resolves_through_many_levels() {
    let mut r = discover(16, 3);
    for t in 0..10usize {
        assert!(r.add_resolution(&vec![Place(t)], &vec![Place(t + 1)], double_fn as Fx).is_ok());
    }
    assert!(r.set_value(Place(0), 1).is_ok());
    assert!(r.wait_till_resolved().is_ok());
    assert_eq!(r.try_get_value(Place(10)), Some(1024));
}

#[test]
fn fifo_tie_break_by_registration_number() {
    let mut r = discover(16, 8);
    // Both of the first two tasks become eligible at the same event; the
    // ascending registration number decides their order in the batch.
    assert!(r.add_resolution(&vec![Place(0)], &vec![Place(2)], double_fn as Fx).is_ok());
    assert!(r.add_resolution(&vec![Place(0)], &vec![Place(3)], double_fn as Fx).is_ok());
    assert!(r.add_resolution(&vec![Place(2), Place(3)], &vec![Place(4)], add_fn as Fx).is_ok());
    assert!(r.set_value(Place(0), 1).is_ok());
    assert!(r.wait_till_resolved().is_ok());
    r.sorter.write_sequence();
    let rec = r.sorter.retrieve_sequence();
    assert_eq!(rec.items[0].order_ix, 0);
    assert_eq!(rec.items[1].order_ix, 1);
    assert_eq!(rec.items[2].order_ix, 2);
    assert_eq!(rec.registrations_count, 3);
    assert_eq!(rec.values_count, 1);
    assert_eq!(r.try_get_value(Place(4)), Some(4));
}

#[test]
fn sorter_internalize_and_flush_directly() {
    let mut opts = CircuitResolverOpts::new(4);
    opts.desired_parallelism = 2;
    let mut s = <RuntimeResolverSorter as ResolverSortingMode>::new(opts);
    s.internalize(0, vec![], 0);
    s.internalize(1, vec![Place(0)], 1);
    let newly = s.internalize_one(2, vec![], 2);
    assert_eq!(newly, vec![2]);
    let batch = s.flush();
    assert_eq!(batch, vec![0, 2]);
    s.set_value(Place(0));
    let batch2 = s.flush();
    assert_eq!(batch2, vec![1]);
}
