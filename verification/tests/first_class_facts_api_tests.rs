use egglog::egraph::EGraph;
use egglog::ids::{FactId, FactRef, TableId};

#[test]
fn test_fact_ref_sort_integration() {
    let mut egraph = EGraph::default();
    let fact_ref = FactRef { table_id: TableId::from_usize(42), fact_id: FactId::from_usize(123) };

    let base_value = egraph.base_to_value(fact_ref.clone());
    let retrieved = egraph.value_to_base::<FactRef>(base_value);

    assert_eq!(fact_ref, retrieved);
    println!("✓ FactRef successfully integrated with base value system");
}

#[test]
fn test_modal_logic_api_availability() {
    let mut egraph = EGraph::default();
    let fact_ref = FactRef { table_id: TableId::from_usize(999), fact_id: FactId::from_usize(888) };
    let fact_ref_value = egraph.base_to_value(fact_ref);

    let validation_result = egraph.validate_fact_ref(fact_ref_value);
    assert!(validation_result.is_err());
    println!("✓ validate_fact_ref handles invalid input correctly");

    let is_stale = egraph.is_fact_ref_stale(fact_ref_value);
    assert!(is_stale);
    println!("✓ is_fact_ref_stale handles invalid input correctly");

    let truth_status = egraph.get_fact_truth_status(fact_ref_value);
    assert!(truth_status.is_err());
    println!("✓ get_fact_truth_status handles invalid input correctly");
}

#[test]
fn test_fact_ref_basevalue_interning() {
    let mut egraph = EGraph::default();
    let fact_ref1 = FactRef { table_id: TableId::from_usize(1), fact_id: FactId::from_usize(100) };
    let fact_ref2 = FactRef { table_id: TableId::from_usize(2), fact_id: FactId::from_usize(200) };

    let value1 = egraph.base_to_value(fact_ref1.clone());
    let value2 = egraph.base_to_value(fact_ref2.clone());

    assert_ne!(value1, value2);

    let unwrapped1 = egraph.value_to_base::<FactRef>(value1);
    let unwrapped2 = egraph.value_to_base::<FactRef>(value2);

    assert_eq!(unwrapped1, fact_ref1);
    assert_eq!(unwrapped2, fact_ref2);

    let value1_again = egraph.base_to_value(fact_ref1);
    assert_eq!(value1, value1_again);

    println!("✓ FactRef BaseValue interning works correctly");
}
