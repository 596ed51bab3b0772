use hl_capture::request_budget::{
    parse_request_cost, request_cost_for_identifier, spec_12_1_base_weight, BudgetError, RequestBudget,
    SchedulePriority, VariableCost,
};

fn budget() -> RequestBudget {
    RequestBudget::official("official-info", 75, 0, 7).expect("budget")
}

#[test]
fn official_budget_splits_its_envelope() {
    let mut b = budget();
    assert_eq!(b.ceiling(), 1_200);
    assert_eq!(b.envelope(), 900);
    let s = b.snapshot(0);
    assert_eq!(s.available_priority(), 360);
    assert_eq!(s.available_general(), 540);
    assert_eq!(s.available_total(), 900);
    assert_eq!(s.egress_id(), "official-info");
}

#[test]
fn invalid_budget_settings_are_refused() {
    assert!(matches!(RequestBudget::official("official-info", 69, 0, 1), Err(BudgetError::InvalidConfig)));
    assert!(matches!(RequestBudget::official("official-info", 81, 0, 1), Err(BudgetError::InvalidConfig)));
    assert!(matches!(RequestBudget::official(" padded", 75, 0, 1), Err(BudgetError::InvalidConfig)));
    assert!(matches!(RequestBudget::try_new("x", 0, 75, 40, 0, 1), Err(BudgetError::InvalidConfig)));
    assert!(matches!(RequestBudget::try_new("x", 1_000, 75, 91, 0, 1), Err(BudgetError::InvalidConfig)));
    assert_eq!(BudgetError::InvalidConfig.reason_code(), "capture_info.invalid_budget");
}

#[test]
fn protected_priorities_draw_the_reserve_first() {
    let mut b = budget();
    let lease = b.reserve(0, "job-a", SchedulePriority::P0, 400).expect("reserve");
    assert_eq!(lease.reserved(), 400);
    let s = b.snapshot(0);
    assert_eq!(s.available_priority(), 0);
    assert_eq!(s.available_general(), 500);
}

#[test]
fn ordinary_priorities_use_the_general_pool_only() {
    let mut b = budget();
    assert!(matches!(b.reserve(0, "job-a", SchedulePriority::P3, 541), Err(BudgetError::Insufficient)));
    let lease = b.reserve(0, "job-a", SchedulePriority::P3, 540).expect("reserve");
    assert_eq!(b.snapshot(0).available_priority(), 360);
    assert_eq!(b.snapshot(0).available_general(), 0);
    assert!(matches!(b.reserve(0, "job-b", SchedulePriority::P2, 1), Err(BudgetError::Insufficient)));
    b.release(0, lease).expect("release");
    assert_eq!(b.snapshot(0).available_general(), 540);
}

#[test]
fn empty_job_or_zero_cost_is_an_invalid_lease() {
    let mut b = budget();
    assert!(matches!(b.reserve(0, "", SchedulePriority::P3, 20), Err(BudgetError::InvalidLease)));
    assert!(matches!(b.reserve(0, "job", SchedulePriority::P3, 0), Err(BudgetError::InvalidLease)));
}

#[test]
fn commit_refunds_what_was_not_used() {
    let mut b = budget();
    let lease = b.reserve(0, "job", SchedulePriority::P3, 100).expect("reserve");
    b.commit(0, lease, 30).expect("commit");
    let s = b.snapshot(0);
    assert_eq!(s.available_general(), 510);
    assert_eq!(s.requests_ok(), 1);
}

#[test]
fn pools_refill_linearly_and_never_above_the_cap() {
    let mut b = budget();
    let _lease = b.reserve(0, "job", SchedulePriority::P3, 540).expect("reserve");
    assert_eq!(b.snapshot(1_000).available_general(), 9);
    assert_eq!(b.snapshot(120_000).available_general(), 540);
}

#[test]
fn a_429_opens_the_circuit_until_the_backoff_ends() {
    let mut b = budget();
    let lease = b.reserve(0, "job", SchedulePriority::P3, 20).expect("reserve");
    let until = b.on_429(0, lease).expect("429");
    assert!(until >= 2_000 && until <= 2_500);
    let s = b.snapshot(0);
    assert_eq!(s.available_priority(), 0);
    assert_eq!(s.available_general(), 0);
    assert_eq!(s.http_429_count(), 1);
    assert_eq!(s.circuit_open_until_millis(), Some(until));
    assert!(matches!(b.reserve(0, "job", SchedulePriority::P0, 1), Err(BudgetError::CircuitOpen)));
    assert!(b.reserve(until + 60_000, "job", SchedulePriority::P0, 1).is_ok());
}

#[test]
fn lease_of_another_egress_is_refused() {
    let mut a = budget();
    let mut other = RequestBudget::official("other-egress", 75, 0, 7).expect("budget");
    let lease = other.reserve(0, "job", SchedulePriority::P3, 20).expect("reserve");
    assert!(matches!(a.commit(0, lease, 20), Err(BudgetError::LeaseMismatch)));
}

#[test]
fn request_costs_parse_from_their_text() {
    let cost = parse_request_cost("base:20 variable:window").expect("cost");
    assert_eq!(cost.base(), 20);
    assert_eq!(cost.variable(), Some(VariableCost::Window));
    assert_eq!(cost.estimated_weight(5), 25);
    assert_eq!(cost.actual_weight(u32::MAX), u32::MAX);
    let fixed = parse_request_cost("base:2").expect("fixed");
    assert_eq!(fixed.variable(), None);
    assert_eq!(fixed.estimated_weight(100), 2);
    for bad in ["", "base:", "base:0", "base:x", "weight:2", "base:2 variable:page", "base:2 a b"] {
        assert!(matches!(parse_request_cost(bad), Err(BudgetError::InvalidCost)), "{bad}");
    }
}

#[test]
fn base_weights_follow_the_official_table() {
    assert_eq!(spec_12_1_base_weight("l2Book"), 2);
    assert_eq!(spec_12_1_base_weight("allMids"), 2);
    assert_eq!(spec_12_1_base_weight("userRole"), 60);
    assert_eq!(spec_12_1_base_weight("candleSnapshot"), 20);
    assert!(request_cost_for_identifier("l2Book", "base:2").is_ok());
    assert!(matches!(request_cost_for_identifier("l2Book", "base:20"), Err(BudgetError::CostMismatch)));
    assert_eq!(BudgetError::CostMismatch.reason_code(), "capture_info.cost_mismatch");
}

#[test]
fn priorities_rank_in_urgency_order() {
    assert_eq!(SchedulePriority::P0.rank(), 0);
    assert_eq!(SchedulePriority::P5.rank(), 5);
    assert!(SchedulePriority::P1.is_protected());
    assert!(!SchedulePriority::P2.is_protected());
}
