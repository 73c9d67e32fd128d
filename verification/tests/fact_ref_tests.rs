use egglog::backend::Backend;
use egglog::egraph::EGraph;
use egglog::ids::{FactId, FactRef, TableId, Value};
use std::collections::hash_map::DefaultHasher;
use std::hash::{Hash, Hasher};

#[test]
fn test_fact_ref_as_base_value() {
    let mut backend = Backend::new();
    let table_id = TableId::from_usize(42);
    let fact_id = FactId::from_usize(123);
    let fact_ref = FactRef { table_id, fact_id };

    let value = backend.intern_fact_ref(fact_ref.clone());
    let retrieved = backend.unwrap_fact_ref(value);

    assert_eq!(fact_ref, retrieved);
    assert_eq!(fact_ref.table_id, table_id);
    assert_eq!(fact_ref.fact_id, fact_id);
}

#[test]
fn test_fact_ref_debug_formatting() {
    let table_id = TableId::from_usize(7);
    let fact_id = FactId::from_usize(89);
    let fact_ref = FactRef { table_id, fact_id };

    let debug_str = format!("{:?}", fact_ref);
    assert!(debug_str.contains("FactRef"));
    assert!(debug_str.contains("table_id"));
    assert!(debug_str.contains("fact_id"));
}

#[test]
fn test_fact_ref_equality_and_hashing() {
    let table_id = TableId::from_usize(10);
    let fact_id = FactId::from_usize(20);

    let fact_ref1 = FactRef { table_id, fact_id };
    let fact_ref2 = FactRef { table_id, fact_id };
    let fact_ref3 = FactRef { table_id, fact_id: FactId::from_usize(21) };

    assert_eq!(fact_ref1, fact_ref2);
    assert_ne!(fact_ref1, fact_ref3);

    let mut hasher1 = DefaultHasher::new();
    fact_ref1.hash(&mut hasher1);
    let hash1 = hasher1.finish();

    let mut hasher2 = DefaultHasher::new();
    fact_ref2.hash(&mut hasher2);
    let hash2 = hasher2.finish();

    assert_eq!(hash1, hash2);
}

#[test]
fn test_fact_ref_export() {
    let table_id = TableId::from_usize(1);
    let fact_id = FactId::from_usize(2);
    let fact_ref = FactRef { table_id, fact_id };

    assert_eq!(fact_ref.table_id, table_id);
    assert_eq!(fact_ref.fact_id, fact_id);

    let debug_str = format!("{:?}", fact_ref);
    assert!(debug_str.contains("FactRef"));
}

#[test]
fn test_fact_ref_in_egraph() {
    let mut egraph = EGraph::default();
    let table_id = TableId::from_usize(42);
    let fact_id = FactId::from_usize(123);
    let fact_ref = FactRef { table_id, fact_id };

    let value = egraph.base_to_value(fact_ref.clone());
    let retrieved = egraph.value_to_base::<FactRef>(value);

    assert_eq!(fact_ref, retrieved);
}

#[test]
fn test_fact_validation_methods() {
    let mut egraph = EGraph::default();
    let table_id = TableId::from_usize(42);
    let fact_id = FactId::from_usize(123);
    let fact_ref = FactRef { table_id, fact_id };
    let fact_ref_val: Value = egraph.base_to_value(fact_ref);

    let validation_result = egraph.validate_fact_ref(fact_ref_val);
    assert!(validation_result.is_err());

    let is_stale = egraph.is_fact_ref_stale(fact_ref_val);
    assert!(is_stale);

    let truth_status = egraph.get_fact_truth_status(fact_ref_val);
    assert!(truth_status.is_err());

    let mut egraph_mut = egraph;
    let assert_result = egraph_mut.assert_fact_validated(fact_ref_val);
    assert!(assert_result.is_err());

    let retract_result = egraph_mut.retract_fact_validated(fact_ref_val);
    assert!(retract_result.is_err());
}
