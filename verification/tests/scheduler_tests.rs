use gas_saver_eth::events::{GasEvent, SchedulerDecision, TransactionRequest};
use gas_saver_eth::limiter::RateLimiter;
use gas_saver_eth::model::GasModel;
use gas_saver_eth::nonce::NonceManager;
use gas_saver_eth::scheduler::{Scheduler, SchedulerConfig};

fn scheduler(rate: u64, max_tokens: u64) -> Scheduler {
    let config = SchedulerConfig {
        target_base_fee: 50,
        max_priority_fee: 2,
        spike_threshold: 15,
        reprice_cooldown_ns: 500_000_000,
    };
    Scheduler::new(
        config,
        GasModel::new(100),
        NonceManager::new(),
        RateLimiter::new(rate, max_tokens, 0),
    )
}

fn request(id: u64, from: u8, max_fee: u64, tip: u64) -> TransactionRequest {
    TransactionRequest {
        id,
        from: [from; 20],
        to: [0xBB; 20],
        data: vec![],
        value: [0; 32],
        max_fee_per_gas: max_fee,
        max_priority_fee_per_gas: tip,
        deadline: None,
    }
}

fn fee_update(base_fee: u64, timestamp: u64) -> GasEvent {
    GasEvent::BaseFeeUpdate { base_fee, timestamp }
}

#[test]
fn stable_low_fee_single_tx_submits() {
    let mut s = scheduler(10, 20);
    let ds = s.handle_gas_event(fee_update(50, 1000), 1_000_000);
    assert!(ds.is_empty());
    let ds = s.handle_tx_request(request(1, 0xAA, 100, 2), 2_000_000);
    assert_eq!(ds, vec![SchedulerDecision::Submit { tx_id: 1, nonce: 0, gas_price: 52 }]);
    assert_eq!(s.pending.len(), 0);
    assert_eq!(s.submitted.len(), 1);
}

#[test]
fn fee_rise_within_cap_triggers_reprice() {
    let mut s = scheduler(10, 20);
    s.handle_gas_event(fee_update(50, 1000), 1_000_000);
    s.handle_tx_request(request(1, 0xAA, 100, 2), 2_000_000);
    // past the 500ms cooldown; 72 > 52 * 110 / 100 = 57 and 72 <= 100
    let ds = s.handle_gas_event(fee_update(70, 1100), 700_000_000);
    assert_eq!(
        ds,
        vec![SchedulerDecision::Reprice { tx_id: 1, old_nonce: 0, new_gas_price: 72 }]
    );
}

#[test]
fn reprice_suppressed_by_cap() {
    let mut s = scheduler(10, 20);
    s.handle_gas_event(fee_update(50, 1000), 1_000_000);
    s.handle_tx_request(request(1, 0xAA, 100, 2), 2_000_000);
    s.handle_gas_event(fee_update(70, 1100), 700_000_000);
    // desired 99 + 2 = 101 > 100 = max_fee: no reprice
    let ds = s.handle_gas_event(fee_update(99, 1200), 1_400_000_000);
    assert!(ds.is_empty());
}

#[test]
fn reprice_waits_for_cooldown() {
    let mut s = scheduler(10, 20);
    s.handle_gas_event(fee_update(50, 1000), 1_000_000);
    s.handle_tx_request(request(1, 0xAA, 100, 2), 2_000_000);
    // only 300ms after the submission: cooldown not elapsed, no reprice
    let ds = s.handle_gas_event(fee_update(70, 1100), 300_000_000);
    assert!(ds.is_empty());
    // once past the cooldown the reprice fires
    let ds = s.handle_gas_event(fee_update(70, 1200), 600_000_000);
    assert_eq!(
        ds,
        vec![SchedulerDecision::Reprice { tx_id: 1, old_nonce: 0, new_gas_price: 72 }]
    );
}

#[test]
fn bump_floor_suppresses_small_increases() {
    let mut s = scheduler(10, 20);
    s.handle_gas_event(fee_update(50, 1000), 1_000_000);
    s.handle_tx_request(request(1, 0xAA, 100, 2), 2_000_000);
    // desired 55 + 2 = 57 is not strictly above 52 * 110 / 100 = 57
    let ds = s.handle_gas_event(fee_update(55, 1100), 700_000_000);
    assert!(ds.is_empty());
}

#[test]
fn spike_triggers_inclusion_first_for_new_tx() {
    let mut s = scheduler(10, 20);
    let mut now = 1_000_000u64;
    for i in 0..10u64 {
        s.handle_gas_event(fee_update(70 + i * 20, 1200 + i), now);
        now += 1_000_000;
    }
    let ds = s.handle_tx_request(request(2, 0xCC, 500, 10), now);
    assert_eq!(ds, vec![SchedulerDecision::Submit { tx_id: 2, nonce: 0, gas_price: 260 }]);
}

#[test]
fn spike_mode_bypasses_the_fee_cap() {
    let mut s = scheduler(10, 20);
    let mut now = 1_000_000u64;
    for i in 0..10u64 {
        s.handle_gas_event(fee_update(70 + i * 20, 1200 + i), now);
        now += 1_000_000;
    }
    // current fee 250 is far above the 100 cap, but volatility is above the
    // threshold: the scheduler pays the going rate to chase inclusion.
    let ds = s.handle_tx_request(request(2, 0xCC, 100, 10), now);
    assert_eq!(ds, vec![SchedulerDecision::Submit { tx_id: 2, nonce: 0, gas_price: 260 }]);
}

#[test]
fn high_fee_with_downward_trend_defers_until_fee_drops() {
    let mut s = scheduler(10, 20);
    s.handle_gas_event(fee_update(205, 1000), 1_000_000);
    s.handle_gas_event(fee_update(200, 1100), 2_000_000);
    // trend is (200 - 205) / 2 = -2.5 < -1, volatility 2.5 is below the
    // threshold, and the fee 200 is above the 100 cap: no decision.
    assert_eq!(s.model.get_trend(), (-5, 2));
    assert!(!s.model.volatility_exceeds(15));
    let ds = s.handle_tx_request(request(3, 0xAB, 100, 2), 3_000_000);
    assert!(ds.is_empty());
    assert_eq!(s.pending.len(), 1);
    // a later update brings the fee within the cap: the entry is submitted.
    let ds = s.handle_gas_event(fee_update(98, 1200), 4_000_000);
    assert_eq!(ds, vec![SchedulerDecision::Submit { tx_id: 3, nonce: 0, gas_price: 100 }]);
    assert_eq!(s.pending.len(), 0);
}

#[test]
fn rate_limit_exhaustion_admits_first_three_by_id() {
    // capacity 3 and no refill
    let mut s = scheduler(0, 3);
    s.handle_gas_event(fee_update(50, 1000), 1_000_000);
    let mut decisions = Vec::new();
    for id in 1..=5u64 {
        decisions.extend(s.handle_tx_request(request(id, 0xAA, 100, 2), 2_000_000));
    }
    assert_eq!(
        decisions,
        vec![
            SchedulerDecision::Submit { tx_id: 1, nonce: 0, gas_price: 52 },
            SchedulerDecision::Submit { tx_id: 2, nonce: 1, gas_price: 52 },
            SchedulerDecision::Submit { tx_id: 3, nonce: 2, gas_price: 52 },
        ]
    );
    assert_eq!(s.pending.len(), 2);
    assert_eq!(s.submitted.len(), 3);
}

#[test]
fn admission_is_fifo_by_id_within_a_pass() {
    let mut s = scheduler(10, 20);
    // no fee sample yet: current fee 0 is within every cap, so requests are
    // admitted as they arrive, in id order, with per-sender nonces.
    let d1 = s.handle_tx_request(request(1, 0xAA, 100, 2), 1_000_000);
    let d2 = s.handle_tx_request(request(2, 0xAA, 100, 3), 2_000_000);
    let d3 = s.handle_tx_request(request(3, 0xCC, 100, 4), 3_000_000);
    assert_eq!(d1, vec![SchedulerDecision::Submit { tx_id: 1, nonce: 0, gas_price: 2 }]);
    assert_eq!(d2, vec![SchedulerDecision::Submit { tx_id: 2, nonce: 1, gas_price: 3 }]);
    assert_eq!(d3, vec![SchedulerDecision::Submit { tx_id: 3, nonce: 0, gas_price: 4 }]);
}

#[test]
fn confirmations_and_mempool_events_leave_state_alone() {
    let mut s = scheduler(10, 20);
    s.handle_gas_event(fee_update(50, 1000), 1_000_000);
    s.handle_tx_request(request(1, 0xAA, 100, 2), 2_000_000);
    let ds = s.handle_gas_event(
        GasEvent::TxConfirmed { tx_hash: [0x11; 32], block_number: 7 },
        3_000_000,
    );
    assert!(ds.is_empty());
    let ds = s.handle_gas_event(
        GasEvent::MempoolTx { tx_hash: [0x22; 32], max_fee: 80, max_priority_fee: 1, gas_limit: 21000 },
        4_000_000,
    );
    assert!(ds.is_empty());
    assert_eq!(s.submitted.len(), 1);
    assert_eq!(s.pending.len(), 0);
}

#[test]
fn new_block_events_feed_the_fee_model() {
    let mut s = scheduler(10, 20);
    let ds = s.handle_gas_event(
        GasEvent::NewBlock { number: 1, base_fee: 40, gas_used: 10, gas_limit: 30_000_000 },
        1_000_000,
    );
    assert!(ds.is_empty());
    assert_eq!(s.model.current_fee(), 40);
    let ds = s.handle_tx_request(request(1, 0xAA, 100, 3), 2_000_000);
    assert_eq!(ds, vec![SchedulerDecision::Submit { tx_id: 1, nonce: 0, gas_price: 43 }]);
}

#[test]
fn at_most_one_submit_per_id_across_passes() {
    let mut s = scheduler(10, 20);
    s.handle_gas_event(fee_update(50, 1000), 1_000_000);
    let mut all = s.handle_tx_request(request(1, 0xAA, 100, 2), 2_000_000);
    all.extend(s.handle_gas_event(fee_update(52, 1100), 3_000_000));
    all.extend(s.handle_gas_event(fee_update(51, 1200), 700_000_000));
    all.extend(s.handle_gas_event(fee_update(50, 1300), 1_500_000_000));
    let submits: Vec<u64> = all
        .iter()
        .filter_map(|d| match d {
            SchedulerDecision::Submit { tx_id, .. } => Some(*tx_id),
            _ => None,
        })
        .collect();
    assert_eq!(submits, vec![1]);
}

#[test]
fn one_pass_admits_backlog_in_id_order() {
    let mut s = scheduler(10, 20);
    s.handle_gas_event(fee_update(200, 1000), 1_000_000);
    // fee 200 is above every cap: the three requests pile up pending
    assert!(s.handle_tx_request(request(1, 0xAA, 100, 2), 2_000_000).is_empty());
    assert!(s.handle_tx_request(request(2, 0xCC, 110, 3), 3_000_000).is_empty());
    assert!(s.handle_tx_request(request(3, 0xAA, 120, 4), 4_000_000).is_empty());
    assert_eq!(s.pending.len(), 3);
    // one fee drop admits the whole backlog in a single pass, FIFO by id
    let ds = s.handle_gas_event(fee_update(50, 1100), 5_000_000);
    assert_eq!(
        ds,
        vec![
            SchedulerDecision::Submit { tx_id: 1, nonce: 0, gas_price: 52 },
            SchedulerDecision::Submit { tx_id: 2, nonce: 0, gas_price: 53 },
            SchedulerDecision::Submit { tx_id: 3, nonce: 1, gas_price: 54 },
        ]
    );
    assert_eq!(s.pending.len(), 0);
    assert_eq!(s.submitted.len(), 3);
}
