use icn_economics::budget::{
    record_policy_execution, BudgetCategory, BudgetManager, BudgetProposalStatus, FiscalPeriod, PolicyExecution,
    POLICY_HISTORY_LIMIT,
};
use icn_economics::did::Did;
use icn_economics::error::CommonError;

fn did(s: &str) -> Did {
    Did::from_str(s).unwrap()
}

fn period() -> FiscalPeriod {
    FiscalPeriod { start_time: 0, duration_secs: 86400 * 30, auto_reset: true }
}

#[test]
fn test_budget_manager() {
    let mut budget = BudgetManager::new(10000, period());
    let proposer = did("did:key:default");
    let recipient = did("did:key:recipient");

    let proposal_id = budget
        .propose_allocation(
            proposer.clone(),
            BudgetCategory::Development,
            5000,
            recipient,
            "Software development".to_string(),
            "Needed for new features".to_string(),
        )
        .unwrap();

    budget.vote_on_proposal(&proposal_id, &proposer, true).unwrap();
    budget.vote_on_proposal(&proposal_id, &did("did:key:voter2"), true).unwrap();
    budget.vote_on_proposal(&proposal_id, &did("did:key:voter3"), true).unwrap();

    let allocation = budget.execute_allocation(&proposal_id, proposer).unwrap();
    assert_eq!(allocation.amount, 5000);
    assert_eq!(budget.remaining_budget(), 5000);
}

#[test]
fn proposals_are_numbered_and_pending() {
    let mut budget = BudgetManager::new(100, period());
    let p = did("did:key:p");
    let a = budget
        .propose_allocation_at(p.clone(), BudgetCategory::Research, 10, p.clone(), "a".to_string(), "j".to_string(), 5)
        .unwrap();
    let b = budget
        .propose_allocation_at(p.clone(), BudgetCategory::Research, 20, p.clone(), "b".to_string(), "j".to_string(), 6)
        .unwrap();
    assert_eq!(a, "budget_0");
    assert_eq!(b, "budget_1");
    let pending = budget.get_pending_proposals();
    assert_eq!(pending.len(), 2);
    assert_eq!(pending[1].created_at, 6);
}

#[test]
fn proposal_over_remaining_budget_is_refused() {
    let mut budget = BudgetManager::new(100, period());
    let p = did("did:key:p");
    let r = budget.propose_allocation(p.clone(), BudgetCategory::Emergency, 101, p, "x".to_string(), "y".to_string());
    assert!(matches!(r, Err(CommonError::PolicyDenied(_))));
    assert_eq!(budget.get_pending_proposals().len(), 0);
}

#[test]
fn quorum_with_majority_against_rejects() {
    let mut budget = BudgetManager::new(100, period());
    let p = did("did:key:p");
    let id = budget
        .propose_allocation(p.clone(), BudgetCategory::Operations, 50, p.clone(), "x".to_string(), "y".to_string())
        .unwrap();
    budget.vote_on_proposal(&id, &p, true).unwrap();
    budget.vote_on_proposal(&id, &p, false).unwrap();
    assert_eq!(budget.get_pending_proposals().len(), 1);
    budget.vote_on_proposal(&id, &p, false).unwrap();
    assert_eq!(budget.get_pending_proposals().len(), 0);
    let r = budget.execute_allocation(&id, p);
    assert!(matches!(r, Err(CommonError::PolicyDenied(_))));
    assert_eq!(budget.remaining_budget(), 100);
}

#[test]
fn voting_on_unknown_proposal_is_not_found() {
    let mut budget = BudgetManager::new(100, period());
    let p = did("did:key:p");
    assert!(matches!(budget.vote_on_proposal("budget_9", &p, true), Err(CommonError::ResourceNotFound(_))));
    assert!(matches!(budget.execute_allocation("budget_9", p), Err(CommonError::ResourceNotFound(_))));
}

#[test]
fn executed_proposal_cannot_be_executed_again() {
    let mut budget = BudgetManager::new(1000, period());
    let p = did("did:key:p");
    let id = budget
        .propose_allocation(p.clone(), BudgetCategory::Custom("garden".to_string()), 300, p.clone(), "x".to_string(), "y".to_string())
        .unwrap();
    for _ in 0..3 {
        budget.vote_on_proposal(&id, &p, true).unwrap();
    }
    budget.execute_allocation_at(&id, p.clone(), 42).unwrap();
    assert!(matches!(budget.execute_allocation(&id, p.clone()), Err(CommonError::PolicyDenied(_))));
    assert_eq!(budget.get_category_allocation(&BudgetCategory::Custom("garden".to_string())), 300);
    assert_eq!(budget.get_category_allocation(&BudgetCategory::Custom("park".to_string())), 0);
    assert_eq!(budget.get_category_allocation(&BudgetCategory::Development), 0);
    assert_eq!(budget.remaining_budget(), 700);
}

#[test]
fn approved_proposal_over_remaining_is_refused_at_execution() {
    let mut budget = BudgetManager::new(100, period());
    let p = did("did:key:p");
    let first = budget
        .propose_allocation(p.clone(), BudgetCategory::Marketing, 80, p.clone(), "x".to_string(), "y".to_string())
        .unwrap();
    let second = budget
        .propose_allocation(p.clone(), BudgetCategory::Marketing, 80, p.clone(), "x".to_string(), "y".to_string())
        .unwrap();
    for _ in 0..3 {
        budget.vote_on_proposal(&first, &p, true).unwrap();
        budget.vote_on_proposal(&second, &p, true).unwrap();
    }
    budget.execute_allocation(&first, p.clone()).unwrap();
    let r = budget.execute_allocation(&second, p.clone());
    assert!(matches!(r, Err(CommonError::PolicyDenied(_))));
    assert_eq!(budget.get_category_allocation(&BudgetCategory::Marketing), 80);
}

#[test]
fn reset_clears_allocations_and_proposals() {
    let mut budget = BudgetManager::new(100, period());
    let p = did("did:key:p");
    let id = budget
        .propose_allocation(p.clone(), BudgetCategory::Community, 60, p.clone(), "x".to_string(), "y".to_string())
        .unwrap();
    for _ in 0..3 {
        budget.vote_on_proposal(&id, &p, true).unwrap();
    }
    budget.execute_allocation(&id, p.clone()).unwrap();
    budget.reset_budget_at(Some(500), 1234);
    assert_eq!(budget.remaining_budget(), 500);
    assert_eq!(budget.get_category_allocation(&BudgetCategory::Community), 0);
    assert_eq!(budget.get_pending_proposals().len(), 0);
    assert!(!budget.is_fiscal_period_expired_at(1234 + 86400 * 30));
    assert!(budget.is_fiscal_period_expired_at(1235 + 86400 * 30));
}

#[test]
fn status_values_compare() {
    assert_ne!(BudgetProposalStatus::Approved, BudgetProposalStatus::Executed);
}

#[test]
fn execution_returns_the_proposal_fields_by_the_clock() {
    let mut budget = BudgetManager::new(1000, period());
    let p = did("did:key:p");
    let r = did("did:key:r");
    let id = budget
        .propose_allocation(p.clone(), BudgetCategory::Research, 250, r.clone(), "books".to_string(), "y".to_string())
        .unwrap();
    assert_eq!(id, "budget_0");
    for _ in 0..3 {
        budget.vote_on_proposal(&id, &p, true).unwrap();
    }
    let a = budget.execute_allocation(&id, p.clone()).unwrap();
    assert_eq!(a.proposal_id, id);
    assert_eq!(a.amount, 250);
    assert_eq!(a.recipient, r);
    assert_eq!(a.purpose, "books");
    assert!(matches!(a.category, BudgetCategory::Research));
    assert_eq!(budget.get_category_allocation(&BudgetCategory::Research), 250);
    assert!(matches!(budget.execute_allocation(&id, p.clone()), Err(CommonError::PolicyDenied(_))));
    assert!(matches!(budget.execute_allocation("budget_9", p.clone()), Err(CommonError::ResourceNotFound(_))));
    budget.reset_budget(None);
    assert_eq!(budget.get_category_allocation(&BudgetCategory::Research), 0);
    assert_eq!(budget.remaining_budget(), 1000);
}

fn execution(name: &str) -> PolicyExecution {
    PolicyExecution {
        policy_name: name.to_string(),
        executed_at: 1,
        trigger_condition: "Triggered".to_string(),
        actions_taken: Vec::new(),
        success: true,
        error_message: None,
    }
}

#[test]
fn policy_history_keeps_the_latest_executions() {
    let mut history = Vec::new();
    for i in 0..POLICY_HISTORY_LIMIT {
        record_policy_execution(&mut history, execution(&format!("p{i}")));
    }
    assert_eq!(history.len(), POLICY_HISTORY_LIMIT);
    assert_eq!(history[0].policy_name, "p0");
    record_policy_execution(&mut history, execution("last"));
    assert_eq!(history.len(), POLICY_HISTORY_LIMIT);
    assert_eq!(history[0].policy_name, "p1");
    assert_eq!(history[POLICY_HISTORY_LIMIT - 1].policy_name, "last");
}
