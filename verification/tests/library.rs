use bytejack_rs::cache::{CacheLookup, CacheResult, ResultCache};
use bytejack_rs::controller::{BatchConvergenceController, ProgressSignal};
use bytejack_rs::moments::OnlineMoments;
use bytejack_rs::policy::CacheFreshnessPolicy;
use bytejack_rs::rational::Ratio;
use bytejack_rs::registry::OperatorRegistry;
use bytejack_rs::CoreError;

#[test]
fn moments_mean_is_arithmetic_mean() {
    let mut m = OnlineMoments::new();
    m.push(2);
    m.push(4);
    m.push(6);
    assert_eq!(m.mean(), Ok((12, 3)));
}

#[test]
fn moments_variance_is_sample_variance() {
    let mut m = OnlineMoments::new();
    m.push(2);
    m.push(4);
    m.push(6);
    // sample variance of {2, 4, 6} is 4, here as the exact rational 24/6
    assert_eq!(m.variance(), Ok((24, 6)));
}

#[test]
fn moments_insufficient_data() {
    let m = OnlineMoments::new();
    assert_eq!(m.mean(), Err(CoreError::InsufficientData));
    assert_eq!(m.variance(), Err(CoreError::InsufficientData));
    let mut one = OnlineMoments::new();
    one.push(7);
    assert_eq!(one.mean(), Ok((7, 1)));
    assert_eq!(one.variance(), Err(CoreError::InsufficientData));
}

#[test]
fn weighted_push_equals_repeated_pushes() {
    let mut weighted = OnlineMoments::new();
    weighted.push_weighted(5, 3);
    let mut repeated = OnlineMoments::new();
    repeated.push(5);
    repeated.push(5);
    repeated.push(5);
    assert_eq!(weighted.weight, repeated.weight);
    assert_eq!(weighted.sum, repeated.sum);
    assert_eq!(weighted.sum_sq, repeated.sum_sq);
    assert_eq!(weighted.mean(), repeated.mean());
    assert_eq!(weighted.variance(), repeated.variance());
}

#[test]
fn weighted_push_mixed_history() {
    let mut weighted = OnlineMoments::new();
    weighted.push(9);
    weighted.push_weighted(4, 5);
    let mut repeated = OnlineMoments::new();
    repeated.push(9);
    for _ in 0..5 {
        repeated.push(4);
    }
    assert_eq!(weighted.mean(), repeated.mean());
    assert_eq!(weighted.variance(), repeated.variance());
}

#[test]
fn backoff_schedule_doubles_and_saturates() {
    let mut p = CacheFreshnessPolicy::new();
    let mut forced: Vec<u32> = Vec::new();
    for call in 1..=400u32 {
        if p.should_rerun() {
            forced.push(call);
        }
    }
    // quiet for backoff calls, forced on the next, backoff doubling 1, 2, 4,
    // ... and saturating at 100
    assert_eq!(forced, vec![2, 5, 10, 19, 36, 69, 134, 235, 336]);
    assert_eq!(p.backoff, 100);
}

#[test]
fn backoff_quiet_period_preserves_state() {
    let mut p = CacheFreshnessPolicy::new();
    assert!(!p.should_rerun());
    assert_eq!(p.fetches, 1);
    assert_eq!(p.backoff, 1);
    assert!(p.should_rerun());
    assert_eq!(p.fetches, 0);
    assert_eq!(p.backoff, 2);
}

#[test]
fn latency_outlier_resets_backoff() {
    let mut p = CacheFreshnessPolicy::new();
    // earn a widened backoff first
    assert!(!p.should_rerun());
    assert!(p.should_rerun());
    assert_eq!(p.backoff, 2);
    p.absorb_latency(100);
    p.absorb_latency(102);
    assert_eq!(p.backoff, 2);
    // 500 is far outside mean 101 +/- 2 stdev: regime change
    p.absorb_latency(500);
    assert_eq!(p.backoff, 1);
    assert_eq!(p.fetches, 0);
    assert_eq!(p.times.weight, 1);
}

#[test]
fn latency_within_band_keeps_state() {
    let mut p = CacheFreshnessPolicy::new();
    assert!(!p.should_rerun());
    assert!(p.should_rerun());
    p.absorb_latency(100);
    p.absorb_latency(102);
    // 101 lies within mean +/- 2 stdev: nothing resets
    p.absorb_latency(101);
    assert_eq!(p.backoff, 2);
    assert_eq!(p.times.weight, 3);
}

fn test_controller() -> BatchConvergenceController {
    BatchConvergenceController::new(
        20,
        0,
        0,
        1000,
        0,
        Ratio::new(1, 10),
        0,
        Ratio::new(2, 1),
    )
}

#[test]
fn four_batches_never_stop() {
    let mut c = test_controller();
    for _ in 0..4 {
        assert_eq!(c.report_progress(100, 10), ProgressSignal::NewBatch);
    }
}

#[test]
fn fifth_batch_within_bound_stops() {
    let mut c = test_controller();
    for _ in 0..4 {
        assert_eq!(c.report_progress(100, 10), ProgressSignal::NewBatch);
    }
    assert_eq!(c.report_progress(100, 10), ProgressSignal::Stop);
}

#[test]
fn fifth_batch_outside_bound_continues() {
    let mut c = test_controller();
    for _ in 0..4 {
        assert_eq!(c.report_progress(100, 10), ProgressSignal::NewBatch);
    }
    assert_eq!(c.report_progress(100, 11), ProgressSignal::NewBatch);
}

#[test]
fn small_chunk_keeps_batch_open() {
    let mut c = test_controller();
    // 50 tuples is below the 0.1 * 1000 row threshold
    assert_eq!(c.report_progress(50, 10), ProgressSignal::SameBatch);
    assert_eq!(c.report_progress(50, 10), ProgressSignal::NewBatch);
}

#[test]
fn signal_codes_match_convention() {
    assert_eq!(ProgressSignal::Stop.code(), 1);
    assert_eq!(ProgressSignal::NewBatch.code(), 2);
    assert_eq!(ProgressSignal::SameBatch.code(), 3);
}

#[test]
fn unknown_operator_fails_fast() {
    let mut reg = OperatorRegistry::new();
    assert_eq!(
        reg.report_progress(1, 0, 100, 10),
        Err(CoreError::UnknownOperator)
    );
    reg.create(1, 0, 20, 0, 0, 1000, 0, Ratio::new(1, 10), 0, Ratio::new(2, 1));
    // a different worker id of the same operator is still unknown
    assert_eq!(
        reg.report_progress(1, 1, 100, 10),
        Err(CoreError::UnknownOperator)
    );
    assert_eq!(
        reg.report_progress(1, 0, 100, 10),
        Ok(ProgressSignal::NewBatch)
    );
}

#[test]
fn destroy_removes_operator() {
    let mut reg = OperatorRegistry::new();
    reg.create(3, 1, 20, 0, 0, 1000, 0, Ratio::new(1, 10), 0, Ratio::new(2, 1));
    assert_eq!(
        reg.report_progress(3, 1, 100, 10),
        Ok(ProgressSignal::NewBatch)
    );
    reg.destroy(3, 1);
    assert_eq!(
        reg.report_progress(3, 1, 100, 10),
        Err(CoreError::UnknownOperator)
    );
    // destroying an absent key is a no-op
    reg.destroy(3, 1);
}

#[test]
fn end_to_end_outlier_then_stop() {
    let mut reg = OperatorRegistry::new();
    reg.create(1, 0, 20, 0, 0, 1000, 0, Ratio::new(1, 10), 0, Ratio::new(2, 1));
    let times = [10u64, 11, 9, 10];
    for t in times {
        assert_eq!(reg.report_progress(1, 0, 100, t), Ok(ProgressSignal::NewBatch));
    }
    // 50 is an outlier against the window [9, 10]: no stop yet
    assert_eq!(reg.report_progress(1, 0, 100, 50), Ok(ProgressSignal::NewBatch));
    // a sixth batch near 10 falls inside the widened window bound
    assert_eq!(reg.report_progress(1, 0, 100, 10), Ok(ProgressSignal::Stop));
}

#[test]
fn cache_lookup_without_policy_consults_store() {
    let mut cache = ResultCache::new();
    let key = String::from("select 1");
    assert_eq!(cache.lookup_decision(&key, false), CacheLookup::ConsultStore);
}

#[test]
fn cache_lookup_unknown_key_recomputes() {
    let mut cache = ResultCache::new();
    let key = String::from("select 1");
    assert_eq!(cache.lookup_decision(&key, true), CacheLookup::Recompute);
    // no state is created silently by a lookup
    assert_eq!(cache.lookup_decision(&key, true), CacheLookup::Recompute);
}

#[test]
fn cache_backoff_over_lookups() {
    let mut cache = ResultCache::new();
    let key = String::from("select count(*) from t");
    cache.record_latency(&key, 1500);
    assert_eq!(cache.lookup_decision(&key, true), CacheLookup::ConsultStore);
    assert_eq!(cache.lookup_decision(&key, true), CacheLookup::Recompute);
    assert_eq!(cache.lookup_decision(&key, true), CacheLookup::ConsultStore);
    assert_eq!(cache.lookup_decision(&key, true), CacheLookup::ConsultStore);
    assert_eq!(cache.lookup_decision(&key, true), CacheLookup::Recompute);
}

#[test]
fn cache_keys_are_independent() {
    let mut cache = ResultCache::new();
    let a = String::from("query a");
    let b = String::from("query b");
    cache.record_latency(&a, 100);
    assert_eq!(cache.lookup_decision(&b, true), CacheLookup::Recompute);
    assert_eq!(cache.lookup_decision(&a, true), CacheLookup::ConsultStore);
}

#[test]
fn cache_latency_regime_change() {
    let mut cache = ResultCache::new();
    let key = String::from("explain select * from t");
    cache.record_latency(&key, 100);
    cache.record_latency(&key, 102);
    // widen the backoff, then shift the latency regime
    assert_eq!(cache.lookup_decision(&key, true), CacheLookup::ConsultStore);
    assert_eq!(cache.lookup_decision(&key, true), CacheLookup::Recompute);
    cache.record_latency(&key, 500);
    // the backoff is back to one: quiet for a single fetch only
    assert_eq!(cache.lookup_decision(&key, true), CacheLookup::ConsultStore);
    assert_eq!(cache.lookup_decision(&key, true), CacheLookup::Recompute);
}

#[test]
fn cache_result_holds_payload() {
    let bytes = vec![123u8, 34, 80, 108, 97, 110, 34, 58, 123, 125, 125, 0];
    let r = CacheResult::new(bytes.len() as i32, bytes.clone());
    assert_eq!(r.byte_len(), 12);
    assert_eq!(r.len, 12);
    assert_eq!(r.bytes, bytes);
}
