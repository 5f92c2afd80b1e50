use lite_rpc_core::compute_budget::{
    compute_budget_request, ComputeBudgetDirective, ComputeBudgetRequest,
};

fn request(cu_requested: Option<u32>, prioritization_fees: Option<u64>) -> ComputeBudgetRequest {
    ComputeBudgetRequest { cu_requested, prioritization_fees }
}

#[test]
fn no_directive_asks_for_nothing() {
    assert_eq!(compute_budget_request(&Vec::new()), request(None, None));
    assert_eq!(compute_budget_request(&vec![None, None]), request(None, None));
}

#[test]
fn unit_price_is_the_prioritization_fee() {
    let directives = vec![Some(ComputeBudgetDirective::SetComputeUnitPrice(500))];
    assert_eq!(compute_budget_request(&directives), request(None, Some(500)));
}

#[test]
fn legacy_request_is_normalized_to_a_unit_price() {
    let directives = vec![Some(ComputeBudgetDirective::RequestUnitsDeprecated {
        units: 200_000,
        additional_fee: 1_000,
    })];
    assert_eq!(compute_budget_request(&directives), request(Some(200_000), Some(200_000)));
}

#[test]
fn legacy_price_rounds_down() {
    let directives = vec![Some(ComputeBudgetDirective::RequestUnitsDeprecated {
        units: 7,
        additional_fee: 3,
    })];
    assert_eq!(compute_budget_request(&directives), request(Some(7), Some(2_333)));
    let directives = vec![Some(ComputeBudgetDirective::RequestUnitsDeprecated {
        units: 1,
        additional_fee: 1_001,
    })];
    assert_eq!(compute_budget_request(&directives), request(Some(1), Some(0)));
}

#[test]
fn legacy_price_of_the_largest_request_does_not_overflow() {
    let directives = vec![Some(ComputeBudgetDirective::RequestUnitsDeprecated {
        units: u32::MAX,
        additional_fee: 1,
    })];
    assert_eq!(
        compute_budget_request(&directives),
        request(Some(u32::MAX), Some(4_294_967_295_000))
    );
}

#[test]
fn legacy_request_wins_wherever_it_stands() {
    let legacy = Some(ComputeBudgetDirective::RequestUnitsDeprecated { units: 9, additional_fee: 9 });
    let limit = Some(ComputeBudgetDirective::SetComputeUnitLimit(1));
    let price = Some(ComputeBudgetDirective::SetComputeUnitPrice(2));
    assert_eq!(compute_budget_request(&vec![legacy, limit, price]), request(Some(9), Some(1_000)));
    assert_eq!(compute_budget_request(&vec![limit, price, legacy]), request(Some(9), Some(1_000)));
}

#[test]
fn legacy_request_without_fee_overrides_the_limit_only() {
    let legacy = Some(ComputeBudgetDirective::RequestUnitsDeprecated { units: 9, additional_fee: 0 });
    let limit = Some(ComputeBudgetDirective::SetComputeUnitLimit(1));
    let price = Some(ComputeBudgetDirective::SetComputeUnitPrice(2));
    assert_eq!(compute_budget_request(&vec![limit, legacy, price]), request(Some(9), Some(2)));
    assert_eq!(compute_budget_request(&vec![legacy]), request(Some(9), None));
}

#[test]
fn first_of_each_kind_counts() {
    let directives = vec![
        None,
        Some(ComputeBudgetDirective::RequestHeapFrame(1)),
        Some(ComputeBudgetDirective::SetComputeUnitLimit(10)),
        Some(ComputeBudgetDirective::SetComputeUnitPrice(20)),
        Some(ComputeBudgetDirective::SetLoadedAccountsDataSizeLimit(2)),
        Some(ComputeBudgetDirective::SetComputeUnitLimit(11)),
        Some(ComputeBudgetDirective::SetComputeUnitPrice(21)),
    ];
    assert_eq!(compute_budget_request(&directives), request(Some(10), Some(20)));
    let legacies = vec![
        Some(ComputeBudgetDirective::RequestUnitsDeprecated { units: 1, additional_fee: 1 }),
        Some(ComputeBudgetDirective::RequestUnitsDeprecated { units: 2, additional_fee: 1 }),
    ];
    assert_eq!(compute_budget_request(&legacies), request(Some(1), Some(1_000)));
}
