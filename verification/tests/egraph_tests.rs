use egglog::atoms::{AtomTerm, CoreAction, CoreActions, CoreAtom, CoreCall, CoreFact, CoreQuery, CoreRule};
use egglog::backend::Backend;
use egglog::backend_rule::BackendRule;
use egglog::rule::{PlanAtom, QueryEntry, RuleBuilder};
use egglog::names::positions_map;
use egglog::sorts::ExternalFunctionId;
use egglog::egraph::command::ResolvedNCommand;
use egglog::egraph::EGraph;
use egglog::error::{Error, TypeError};
use egglog::span::Span;
use egglog::ids::{FactId, FactRef, TableId, Value};
use egglog::output::{CommandOutput, PrintFunctionMode};
use egglog::sorts::{ColumnTy, FunctionDecl, FunctionSubtype};
use egglog::termdag::{Literal, TermDag};

fn check_span() -> Span {
    Span::Egglog { file: "prog.egg".to_string(), start: 10, end: 20 }
}

fn relation(name: &str, inputs: &[&str], tracks_facts: bool) -> FunctionDecl {
    FunctionDecl {
        name: name.to_string(),
        subtype: FunctionSubtype::Relation,
        input: inputs.iter().map(|s| s.to_string()).collect(),
        output: "Unit".to_string(),
        merge: None,
        fact_tracking: tracks_facts,
        span: Span::Panic,
    }
}

fn int_fact(rel: &str, a: i64, b: i64) -> CoreFact {
    CoreFact {
        text: format!("({} {} {})", rel, a, b),
        head: Some(rel.to_string()),
        query: CoreQuery {
            atoms: vec![CoreAtom {
                head: CoreCall::Func(rel.to_string()),
                args: vec![
                    AtomTerm::Literal(Literal::Int(a)),
                    AtomTerm::Literal(Literal::Int(b)),
                    AtomTerm::Literal(Literal::Unit),
                ],
            }],
        },
    }
}

fn edges_graph(tracks_facts: bool) -> EGraph {
    let mut egraph = EGraph::default();
    egraph.declare_function(&relation("edge", &["i64", "i64"], tracks_facts)).unwrap();
    egraph
        .input_file("edge", "edges.tsv".to_string(), "1\t2\n2\t3\n")
        .unwrap();
    egraph
}

#[test]
fn declare_then_lookup_function() {
    let mut egraph = EGraph::default();
    assert!(egraph.get_function("edge").is_none());
    egraph.declare_function(&relation("edge", &["i64", "i64"], true)).unwrap();
    let f = egraph.get_function("edge").unwrap();
    assert_eq!(f.name(), "edge");
    assert!(f.fact_tracking());
    assert_eq!(f.schema().input.len(), 2);
    assert_eq!(f.schema().output.name, "Unit");
    assert_eq!(egraph.get_size("edge"), 0);
}

#[test]
fn declare_with_undefined_sort_fails() {
    let mut egraph = EGraph::default();
    let r = egraph.declare_function(&relation("bad", &["Nope"], false));
    match r {
        Err(Error::TypeError(TypeError::UndefinedSort(s, sp))) => {
            assert_eq!(s, "Nope");
            assert!(matches!(sp, Span::Panic));
        }
        other => panic!("unexpected {:?}", other),
    }
    assert!(egraph.get_function("bad").is_none());
}

#[test]
fn input_file_loads_rows() {
    let egraph = edges_graph(false);
    assert_eq!(egraph.get_size("edge"), 2);
    assert_eq!(egraph.num_tuples(), 2);
}

#[test]
fn input_file_reloading_a_row_adds_nothing() {
    let mut egraph = edges_graph(false);
    egraph.input_file("edge", "more.tsv".to_string(), "1\t2\n4\t5\n").unwrap();
    assert_eq!(egraph.get_size("edge"), 3);
}

#[test]
fn input_file_bad_line_fails_with_file_name() {
    let mut egraph = EGraph::default();
    egraph.declare_function(&relation("edge", &["i64", "i64"], false)).unwrap();
    let r = egraph.input_file("edge", "bad.tsv".to_string(), "1\t2\nx\t3\n");
    match r {
        Err(Error::InputFileFormatError(f)) => assert_eq!(f, "bad.tsv"),
        other => panic!("unexpected {:?}", other),
    }
    assert_eq!(egraph.get_size("edge"), 0);
}

#[test]
fn input_file_wrong_field_count_fails() {
    let mut egraph = EGraph::default();
    egraph.declare_function(&relation("edge", &["i64", "i64"], false)).unwrap();
    let r = egraph.input_file("edge", "short.tsv".to_string(), "1\n");
    assert!(matches!(r, Err(Error::InputFileFormatError(_))));
}

#[test]
fn lookup_function_finds_loaded_row() {
    let mut egraph = edges_graph(false);
    let one = egraph.base_to_value(1i64);
    let two = egraph.base_to_value(2i64);
    let three = egraph.base_to_value(3i64);
    assert_eq!(egraph.lookup_function("edge", &[one, two]), Some(Value::new_const(0)));
    assert_eq!(egraph.lookup_function("edge", &[one, three]), None);
}

#[test]
fn check_holds_for_loaded_fact_and_fails_otherwise() {
    let mut egraph = edges_graph(false);
    assert!(egraph.check_facts(&check_span(), &vec![int_fact("edge", 1, 2)]).is_ok());
    match egraph.check_facts(&check_span(), &vec![int_fact("edge", 1, 3)]) {
        Err(Error::CheckError(texts, sp)) => {
            assert_eq!(texts, vec!["(edge 1 3)".to_string()]);
            assert!(matches!(sp, Span::Egglog { start: 10, end: 20, .. }));
        }
        other => panic!("unexpected {:?}", other),
    }
}

#[test]
fn check_of_two_facts_needs_both() {
    let mut egraph = edges_graph(false);
    assert!(egraph
        .check_facts(&check_span(), &vec![int_fact("edge", 1, 2), int_fact("edge", 2, 3)])
        .is_ok());
    assert!(egraph
        .check_facts(&check_span(), &vec![int_fact("edge", 1, 2), int_fact("edge", 3, 4)])
        .is_err());
}

#[test]
fn truth_status_follows_assert_and_retract() {
    let mut egraph = edges_graph(true);
    let fr = FactRef { table_id: TableId::from_usize(0), fact_id: FactId::from_usize(0) };
    let v = egraph.base_to_value(fr);
    assert!(egraph.validate_fact_ref(v).is_ok());
    assert!(!egraph.is_fact_ref_stale(v));
    assert_eq!(egraph.get_fact_truth_status(v).unwrap(), Some(true));
    assert!(egraph.check_facts(&check_span(), &vec![int_fact("edge", 1, 2)]).is_ok());

    // Retracting changes the status once.
    assert_eq!(egraph.retract_fact_validated(v).unwrap(), true);
    assert_eq!(egraph.retract_fact_validated(v).unwrap(), false);
    assert_eq!(egraph.get_fact_truth_status(v).unwrap(), Some(false));
    assert!(egraph.check_facts(&check_span(), &vec![int_fact("edge", 1, 2)]).is_err());
    // The reference stays valid and the row stays.
    assert!(!egraph.is_fact_ref_stale(v));
    assert_eq!(egraph.get_size("edge"), 2);

    assert_eq!(egraph.assert_fact_validated(v).unwrap(), true);
    assert_eq!(egraph.assert_fact_validated(v).unwrap(), false);
    assert_eq!(egraph.get_fact_truth_status(v).unwrap(), Some(true));
    assert!(egraph.check_facts(&check_span(), &vec![int_fact("edge", 1, 2)]).is_ok());
}

#[test]
fn fact_ref_on_table_without_facts_is_stale() {
    let mut egraph = edges_graph(false);
    let fr = FactRef { table_id: TableId::from_usize(0), fact_id: FactId::from_usize(0) };
    let v = egraph.base_to_value(fr);
    assert!(egraph.is_fact_ref_stale(v));
    match egraph.validate_fact_ref(v) {
        Err(Error::BackendError(m)) => assert!(m.contains("does not track facts")),
        other => panic!("unexpected {:?}", other),
    }
}

#[test]
fn fact_ref_past_last_row_is_stale() {
    let mut egraph = edges_graph(true);
    let fr = FactRef { table_id: TableId::from_usize(0), fact_id: FactId::from_usize(2) };
    let v = egraph.base_to_value(fr);
    assert!(egraph.is_fact_ref_stale(v));
    match egraph.get_fact_truth_status(v) {
        Err(Error::BackendError(m)) => assert!(m.contains("no fact")),
        other => panic!("unexpected {:?}", other),
    }
    assert!(egraph.assert_fact_validated(v).is_err());
    assert_eq!(egraph.get_size("edge"), 2);
}

#[test]
fn fact_ref_helper_references_and_creates_facts() {
    let mut egraph = EGraph::default();
    egraph.declare_function(&relation("edge", &["i64", "i64"], true)).unwrap();
    egraph.declare_function(&relation("names", &["String"], false)).unwrap();
    egraph.input_file("names", "names.tsv".to_string(), "edge\n").unwrap();
    egraph.input_file("edge", "edges.tsv".to_string(), "1\t2\n").unwrap();
    let name = Value::new_const(0);
    assert_eq!(egraph.base_values().unwrap_string(name), "edge");
    let one = egraph.base_to_value(1i64);
    let two = egraph.base_to_value(2i64);
    let seven = egraph.base_to_value(7i64);

    // An existing, asserted fact.
    let r1 = egraph.fact_ref_helper(&[name, one, two]).unwrap();
    assert_eq!(egraph.get_fact_truth_status(r1).unwrap(), Some(true));
    assert_eq!(egraph.get_size("edge"), 1);
    // The same arguments give the same reference.
    assert_eq!(egraph.fact_ref_helper(&[name, one, two]), Some(r1));

    // A new fact is added as referenced, not asserted.
    let r2 = egraph.fact_ref_helper(&[name, one, seven]).unwrap();
    assert_ne!(r1, r2);
    assert_eq!(egraph.get_size("edge"), 2);
    assert_eq!(egraph.get_fact_truth_status(r2).unwrap(), Some(false));
    assert_eq!(
        egraph.value_to_base::<FactRef>(r2),
        FactRef { table_id: TableId::from_usize(0), fact_id: FactId::from_usize(1) }
    );
    assert!(egraph.check_facts(&check_span(), &vec![int_fact("edge", 1, 7)]).is_err());

    // Inserting the referenced fact asserts it, without another row.
    egraph.input_file("edge", "more.tsv".to_string(), "1\t7\n").unwrap();
    assert_eq!(egraph.get_size("edge"), 2);
    assert_eq!(egraph.get_fact_truth_status(r2).unwrap(), Some(true));
    assert!(egraph.check_facts(&check_span(), &vec![int_fact("edge", 1, 7)]).is_ok());
    // Earlier references stay valid as rows are added.
    egraph.input_file("edge", "more.tsv".to_string(), "3\t4\n").unwrap();
    assert!(!egraph.is_fact_ref_stale(r1));
    assert_eq!(egraph.get_fact_truth_status(r1).unwrap(), Some(true));
}

#[test]
fn fact_ref_helper_without_target_gives_none() {
    let mut egraph = EGraph::default();
    egraph.declare_function(&relation("names", &["String"], false)).unwrap();
    egraph.input_file("names", "names.tsv".to_string(), "names\nnobody\n").unwrap();
    let names = Value::new_const(0);
    let nobody = Value::new_const(1);
    assert_eq!(egraph.fact_ref_helper(&[]), None);
    // A function that does not track facts.
    assert_eq!(egraph.fact_ref_helper(&[names, names]), None);
    // A name that is no function.
    assert_eq!(egraph.fact_ref_helper(&[nobody]), None);
    assert_eq!(egraph.get_size("names"), 2);
}

#[test]
fn print_size_of_one_and_all_functions() {
    let mut egraph = edges_graph(false);
    egraph.declare_function(&relation("alpha", &["i64"], false)).unwrap();
    match egraph.print_size(Some("edge")).unwrap() {
        CommandOutput::PrintFunctionSize(n) => assert_eq!(n, 2),
        other => panic!("unexpected {:?}", other),
    }
    let all = egraph.print_size(None).unwrap();
    match &all {
        CommandOutput::PrintAllFunctionsSize(es) => {
            assert_eq!(es, &vec![("alpha".to_string(), 0), ("edge".to_string(), 2)]);
        }
        other => panic!("unexpected {:?}", other),
    }
    assert_eq!(all.to_text().unwrap(), "alpha: 0\nedge: 2\n");
    match egraph.print_size(Some("missing")) {
        Err(Error::TypeError(TypeError::UnboundFunction(n, _))) => assert_eq!(n, "missing"),
        other => panic!("unexpected {:?}", other),
    }
}

#[test]
fn output_texts() {
    assert_eq!(CommandOutput::PrintFunctionSize(42).to_text().unwrap(), "42\n");
    assert_eq!(CommandOutput::UserDefined("hi".to_string()).to_text().unwrap(), "hi\n");
    assert_eq!(CommandOutput::UserDefined("hi\n".to_string()).to_text().unwrap(), "hi\n");
    assert_eq!(CommandOutput::PrintAllFunctionsSize(vec![]).to_text().unwrap(), "\n");
    let egraph = EGraph::default();
    let report = egraph.get_overall_run_report().clone();
    assert_eq!(
        CommandOutput::OverallStatistics(report).to_text().unwrap(),
        "Overall statistics:\n"
    );
}

#[test]
fn print_function_output_as_csv_and_default() {
    let egraph = edges_graph(false);
    let f = egraph.get_function("edge").unwrap().clone();
    let build = || {
        let mut dag = TermDag::new();
        let a = dag.lit(Literal::Int(1));
        let b = dag.lit(Literal::String("x,y".to_string()));
        let row = dag.app("edge".to_string(), vec![a, b]);
        let unit = dag.lit(Literal::Unit);
        (dag, vec![(row, unit)])
    };
    let (dag, rows) = build();
    let default_text = CommandOutput::PrintFunction(f.clone(), dag, rows, PrintFunctionMode::Default)
        .to_text()
        .unwrap();
    assert_eq!(default_text, "(\n   (edge 1 \"x,y\")\n)\n");
    let (dag, rows) = build();
    let csv_text = CommandOutput::PrintFunction(f, dag, rows, PrintFunctionMode::CSV)
        .to_text()
        .unwrap();
    assert_eq!(csv_text, "edge,1,\"\"\"x,y\"\"\"\n");
}

#[test]
fn termdag_shares_nodes_and_prints() {
    let mut dag = TermDag::new();
    let x = dag.lit(Literal::Int(-3));
    let y = dag.var("y".to_string());
    let t = dag.app("f".to_string(), vec![x, y]);
    let n = dag.len();
    let x2 = dag.lit(Literal::Int(-3));
    assert_eq!(dag.len(), n);
    let y2 = dag.var("y".to_string());
    let t2 = dag.app("f".to_string(), vec![x2, y2]);
    assert_eq!(dag.len(), n);
    assert_eq!(dag.to_string(&t), "(f -3 y)");
    assert_eq!(dag.to_string(&t2), "(f -3 y)");
    let b = dag.lit(Literal::Bool(true));
    assert_eq!(dag.to_string(&b), "true");
}

#[test]
fn push_and_pop_restore_state() {
    let mut egraph = edges_graph(false);
    egraph.push();
    egraph.input_file("edge", "more.tsv".to_string(), "7\t8\n").unwrap();
    egraph.declare_function(&relation("extra", &["i64"], false)).unwrap();
    assert_eq!(egraph.get_size("edge"), 3);
    egraph.pop().unwrap();
    assert_eq!(egraph.get_size("edge"), 2);
    assert!(egraph.get_function("extra").is_none());
    assert!(matches!(egraph.pop(), Err(Error::Pop(Span::Panic))));
}

#[test]
fn run_command_push_pop_counts() {
    let mut egraph = edges_graph(false);
    assert!(egraph.run_command(ResolvedNCommand::Push(2)).unwrap().is_none());
    egraph
        .run_command(ResolvedNCommand::Input {
            span: Span::Panic,
            name: "edge".to_string(),
            file: "e.tsv".to_string(),
            contents: "9\t9\n".to_string(),
        })
        .unwrap();
    assert_eq!(egraph.get_size("edge"), 3);
    assert!(egraph.run_command(ResolvedNCommand::Pop(check_span(), 2)).unwrap().is_none());
    assert_eq!(egraph.get_size("edge"), 2);
    assert!(matches!(
        egraph.run_command(ResolvedNCommand::Pop(check_span(), 1)),
        Err(Error::Pop(Span::Egglog { start: 10, end: 20, .. }))
    ));
}

#[test]
fn run_command_fail_inverts_outcome() {
    let mut egraph = edges_graph(false);
    let failing = ResolvedNCommand::Check(Span::Panic, vec![int_fact("edge", 5, 5)]);
    assert!(egraph
        .run_command(ResolvedNCommand::Fail(Span::Panic, Box::new(failing)))
        .unwrap()
        .is_none());
    let passing = ResolvedNCommand::Check(Span::Panic, vec![int_fact("edge", 1, 2)]);
    assert!(matches!(
        egraph.run_command(ResolvedNCommand::Fail(check_span(), Box::new(passing))),
        Err(Error::ExpectFail(Span::Egglog { start: 10, end: 20, .. }))
    ));
}

#[test]
fn run_command_outputs() {
    let mut egraph = edges_graph(false);
    assert!(egraph.run_command(ResolvedNCommand::Sort(Span::Panic, "S".to_string())).unwrap().is_none());
    match egraph.run_command(ResolvedNCommand::PrintSize(Span::Panic, Some("edge".to_string()))).unwrap() {
        Some(CommandOutput::PrintFunctionSize(2)) => {}
        other => panic!("unexpected {:?}", other),
    }
    match egraph.run_command(ResolvedNCommand::PrintOverallStatistics(Span::Panic, None)).unwrap() {
        Some(CommandOutput::OverallStatistics(_)) => {}
        other => panic!("unexpected {:?}", other),
    }
    assert!(egraph
        .run_command(ResolvedNCommand::PrintOverallStatistics(Span::Panic, Some("out.json".to_string())))
        .unwrap()
        .is_none());
    assert!(egraph
        .run_command(ResolvedNCommand::Function(relation("r2", &["i64"], true)))
        .unwrap()
        .is_none());
    assert!(egraph.get_function("r2").is_some());
}

#[test]
fn rulesets_collect_rule_ids_in_order() {
    let mut egraph = edges_graph(false);
    egraph.add_ruleset("a".to_string());
    egraph.add_ruleset("b".to_string());
    assert_eq!(egraph.collect_rule_ids("a"), Vec::<usize>::new());
    egraph.add_combined_ruleset("ab".to_string(), vec!["a".to_string(), "b".to_string()]);
    assert_eq!(egraph.collect_rule_ids("ab"), Vec::<usize>::new());
}

#[test]
fn add_command_refuses_taken_names() {
    let mut egraph = edges_graph(false);
    assert!(egraph.add_command("mycmd".to_string()).is_ok());
    assert!(matches!(
        egraph.add_command("mycmd".to_string()),
        Err(Error::CommandAlreadyExists(n, _)) if n == "mycmd"
    ));
    assert!(matches!(
        egraph.add_command("edge".to_string()),
        Err(Error::CommandAlreadyExists(_, _))
    ));
    assert!(matches!(
        egraph.add_command("fact-ref".to_string()),
        Err(Error::CommandAlreadyExists(_, _))
    ));
}

#[test]
fn sorts_by_name() {
    let egraph = EGraph::default();
    let s = egraph.get_sort_by_name("FactRef").unwrap();
    assert_eq!(s.name(), "FactRef");
    assert_eq!(s.column_ty(), ColumnTy::Base);
    assert!(egraph.get_sort_by_name("Nope").is_none());
}

#[test]
fn backend_reference_then_insert_asserts_fact() {
    let mut backend = Backend::new();
    let egraph = EGraph::default();
    let _ = egraph;
    let t = backend.add_table(egglog::merge::FunctionConfig {
        schema: vec![ColumnTy::Base, ColumnTy::Base],
        default: egglog::merge::DefaultVal::Const(Value::new_const(0)),
        merge: egglog::merge::MergeFn::AssertEq,
        name: "rel".to_string(),
        can_subsume: true,
        will_enable_truth_tracking: true,
    });
    let keys = [Value::new_const(4)];
    let fr = backend.create_unasserted_fact_ref(t, &keys, Value::new_const(0)).unwrap();
    assert_eq!(backend.table_size(t), 1);
    assert_eq!(backend.get_fact_truth_status(fr), Ok(Some(false)));
    // Taking the reference again gives the same fact.
    assert_eq!(backend.create_unasserted_fact_ref(t, &keys, Value::new_const(0)), Some(fr));
    backend.insert(t, &keys, Value::new_const(0));
    assert_eq!(backend.table_size(t), 1);
    assert_eq!(backend.get_fact_truth_status(fr), Ok(Some(true)));
    assert!(!backend.is_fact_ref_stale(fr));
}

fn swap_rule(name: &str, ruleset: &str) -> CoreRule {
    let x = || AtomTerm::Var("x".to_string(), ColumnTy::Base);
    let y = || AtomTerm::Var("y".to_string(), ColumnTy::Base);
    CoreRule {
        name: name.to_string(),
        ruleset: ruleset.to_string(),
        query: CoreQuery {
            atoms: vec![CoreAtom {
                head: CoreCall::Func("edge".to_string()),
                args: vec![x(), y(), AtomTerm::Literal(Literal::Unit)],
            }],
        },
        actions: CoreActions(vec![CoreAction::SetOutput(
            CoreCall::Func("edge".to_string()),
            vec![y(), x()],
            AtomTerm::Literal(Literal::Unit),
        )]),
        span: Span::Rust { file: "rules.rs".to_string(), line: 7, column: 1 },
    }
}

#[test]
fn add_rule_joins_its_ruleset() {
    let mut egraph = edges_graph(false);
    egraph.add_ruleset("swap".to_string());
    assert_eq!(egraph.add_rule(swap_rule("r0", "swap")).unwrap(), "r0");
    assert_eq!(egraph.add_rule(swap_rule("r1", "swap")).unwrap(), "r1");
    assert_eq!(egraph.collect_rule_ids("swap"), vec![0, 1]);
    egraph.add_ruleset("other".to_string());
    assert_eq!(egraph.add_rule(swap_rule("r2", "other")).unwrap(), "r2");
    egraph.add_combined_ruleset("both".to_string(), vec!["other".to_string(), "swap".to_string()]);
    assert_eq!(egraph.collect_rule_ids("both"), vec![2, 0, 1]);
}

#[test]
fn add_rule_to_missing_or_combined_ruleset_fails() {
    let mut egraph = edges_graph(false);
    match egraph.add_rule(swap_rule("r0", "nowhere")) {
        Err(Error::NoSuchRuleset(n, sp)) => {
            assert_eq!(n, "nowhere");
            assert!(matches!(sp, Span::Rust { line: 7, .. }));
        }
        other => panic!("unexpected {:?}", other),
    }
    egraph.add_ruleset("a".to_string());
    egraph.add_combined_ruleset("c".to_string(), vec!["a".to_string()]);
    match egraph.add_rule(swap_rule("r1", "c")) {
        Err(Error::CombinedRulesetError(n, sp)) => {
            assert_eq!(n, "c");
            assert!(matches!(sp, Span::Rust { line: 7, .. }));
        }
        other => panic!("unexpected {:?}", other),
    }
}

#[test]
fn run_command_rule_and_rulesets() {
    let mut egraph = edges_graph(false);
    assert!(egraph.run_command(ResolvedNCommand::AddRuleset(Span::Panic, "rs".to_string())).unwrap().is_none());
    assert!(egraph
        .run_command(ResolvedNCommand::NormRule(swap_rule("r", "rs")))
        .unwrap()
        .is_none());
    assert!(egraph
        .run_command(ResolvedNCommand::UnstableCombinedRuleset(
            Span::Panic,
            "all".to_string(),
            vec!["rs".to_string()]
        ))
        .unwrap()
        .is_none());
    assert_eq!(egraph.collect_rule_ids("all"), vec![0]);
}

fn plan_asserted_filters(require_asserted: bool) -> Vec<Option<bool>> {
    let mut egraph = EGraph::default();
    egraph.declare_function(&relation("seen", &["i64"], true)).unwrap();
    egraph.declare_function(&relation("plain", &["i64"], false)).unwrap();
    let functions = vec![
        egraph.get_function("seen").unwrap().clone(),
        egraph.get_function("plain").unwrap().clone(),
    ];
    let names = positions_map(&vec!["seen".to_string(), "plain".to_string()]);
    let mut backend = Backend::new();
    let atom = |f: &str| CoreAtom {
        head: CoreCall::Func(f.to_string()),
        args: vec![AtomTerm::Var("x".to_string(), ColumnTy::Base), AtomTerm::Literal(Literal::Unit)],
    };
    let query = CoreQuery { atoms: vec![atom("seen"), atom("plain")] };
    let mut tr = BackendRule::new(RuleBuilder::new("q".to_string(), false), &functions, &names);
    tr.query(&mut backend, &query, false, require_asserted);
    let plan = tr.build();
    plan.atoms()
        .iter()
        .map(|a| match a {
            PlanAtom::Table { require_asserted, .. } => *require_asserted,
            PlanAtom::Prim { .. } => panic!("unexpected primitive"),
        })
        .collect()
}

#[test]
fn rule_queries_see_all_facts() {
    assert_eq!(plan_asserted_filters(false), vec![None, None]);
}

#[test]
fn check_queries_filter_tracked_functions_only() {
    assert_eq!(plan_asserted_filters(true), vec![Some(true), None]);
}

#[test]
fn input_file_custom_function_takes_last_column_as_output() {
    let mut egraph = EGraph::default();
    let decl = FunctionDecl {
        name: "cost".to_string(),
        subtype: FunctionSubtype::Custom,
        input: vec!["i64".to_string()],
        output: "i64".to_string(),
        merge: None,
        fact_tracking: false,
        span: Span::Panic,
    };
    egraph.declare_function(&decl).unwrap();
    egraph.input_file("cost", "cost.tsv".to_string(), "1\t10\n2\t20\n").unwrap();
    assert_eq!(egraph.get_size("cost"), 2);
    let one = egraph.base_to_value(1i64);
    let ten = egraph.base_to_value(10i64);
    assert_eq!(egraph.lookup_function("cost", &[one]), Some(ten));
    // A line without the output column does not read.
    assert!(matches!(
        egraph.input_file("cost", "short.tsv".to_string(), "3\n"),
        Err(Error::InputFileFormatError(_))
    ));
}

#[test]
fn input_file_trims_fields_and_reads_strings() {
    let mut egraph = EGraph::default();
    egraph.declare_function(&relation("named", &["String", "i64"], false)).unwrap();
    egraph.input_file("named", "n.tsv".to_string(), " alice \t 7 \nbob\t-3\n").unwrap();
    assert_eq!(egraph.get_size("named"), 2);
    assert_eq!(egraph.base_values().unwrap_string(Value::new_const(0)), "alice");
    assert_eq!(egraph.base_values().unwrap_string(Value::new_const(1)), "bob");
    let minus_three = egraph.base_to_value(-3i64);
    let bob = Value::new_const(1);
    assert_eq!(egraph.lookup_function("named", &[bob, minus_three]), Some(Value::new_const(0)));
}

#[test]
fn every_output_ends_with_a_newline() {
    let egraph = EGraph::default();
    let report = egraph.get_overall_run_report().clone();
    assert_eq!(CommandOutput::RunSchedule(report).to_text().unwrap(), "\n");
    let mut with_fn = EGraph::default();
    with_fn.declare_function(&relation("r", &["String"], false)).unwrap();
    let f = with_fn.get_function("r").unwrap().clone();
    let empty = CommandOutput::PrintFunction(f.clone(), TermDag::new(), vec![], PrintFunctionMode::CSV);
    assert_eq!(empty.to_text().unwrap(), "\n");
    // A record whose one field is empty is written as two quotes.
    let mut dag = TermDag::new();
    let row = dag.app("".to_string(), vec![]);
    let unit = dag.lit(Literal::Unit);
    let one = CommandOutput::PrintFunction(f, dag, vec![(row, unit)], PrintFunctionMode::CSV);
    assert_eq!(one.to_text().unwrap(), "\"\"\n");
}

#[test]
fn subsuming_a_custom_function_fails_with_the_action_span() {
    let mut egraph = EGraph::default();
    let decl = FunctionDecl {
        name: "cost".to_string(),
        subtype: FunctionSubtype::Custom,
        input: vec!["i64".to_string()],
        output: "i64".to_string(),
        merge: None,
        fact_tracking: false,
        span: Span::Panic,
    };
    egraph.declare_function(&decl).unwrap();
    let rule = CoreRule {
        name: "sub".to_string(),
        ruleset: "".to_string(),
        query: CoreQuery { atoms: vec![] },
        actions: CoreActions(vec![CoreAction::Change(
            Span::Rust { file: "a.rs".to_string(), line: 3, column: 9 },
            egglog::atoms::Change::Subsume,
            CoreCall::Func("cost".to_string()),
            vec![AtomTerm::Literal(Literal::Int(1))],
        )]),
        span: Span::Panic,
    };
    match egraph.add_rule(rule) {
        Err(Error::SubsumeMergeError(n, Span::Rust { line: 3, column: 9, .. })) => assert_eq!(n, "cost"),
        other => panic!("unexpected {:?}", other),
    }
}

#[test]
fn print_size_command_reports_its_span() {
    let mut egraph = EGraph::default();
    match egraph.run_command(ResolvedNCommand::PrintSize(check_span(), Some("nope".to_string()))) {
        Err(Error::TypeError(TypeError::UnboundFunction(n, Span::Egglog { start: 10, .. }))) => assert_eq!(n, "nope"),
        other => panic!("unexpected {:?}", other),
    }
}

#[test]
fn test_egraph_send_sync() {
    fn is_send<T: Send>(_t: &T) -> bool {
        true
    }
    fn is_sync<T: Sync>(_t: &T) -> bool {
        true
    }
    let egraph = EGraph::default();
    assert!(is_send(&egraph) && is_sync(&egraph));
}

fn prim_plan_args(prim: &str) -> Vec<QueryEntry> {
    let mut egraph = EGraph::default();
    egraph.declare_function(&relation("seen", &["i64"], true)).unwrap();
    egraph.declare_function(&relation("plain", &["i64"], false)).unwrap();
    let functions = vec![
        egraph.get_function("seen").unwrap().clone(),
        egraph.get_function("plain").unwrap().clone(),
    ];
    let names = positions_map(&vec!["seen".to_string(), "plain".to_string()]);
    let mut backend = Backend::new();
    let query = CoreQuery {
        atoms: vec![CoreAtom {
            head: CoreCall::Primitive(prim.to_string(), ExternalFunctionId(7), ColumnTy::Base),
            args: vec![
                AtomTerm::Literal(Literal::String("plain".to_string())),
                AtomTerm::Var("f".to_string(), ColumnTy::Base),
            ],
        }],
    };
    let mut tr = BackendRule::new(RuleBuilder::new("q".to_string(), false), &functions, &names);
    tr.query(&mut backend, &query, false, false);
    let plan = tr.build();
    match &plan.atoms()[0] {
        PlanAtom::Prim { func, args, .. } => {
            assert_eq!(*func, ExternalFunctionId(7));
            args.clone()
        }
        PlanAtom::Table { .. } => panic!("unexpected table atom"),
    }
}

#[test]
fn unstable_fn_takes_the_named_function_as_a_constant() {
    let args = prim_plan_args("unstable-fn");
    assert_eq!(args, vec![QueryEntry::Const(Value::new_const(1)), QueryEntry::Var(0)]);
    // Another primitive gets the entries of its arguments as they are: the
    // string literal is interned in the backend, first.
    let other = prim_plan_args("value-eq");
    assert_eq!(other, vec![QueryEntry::Const(Value::new_const(0)), QueryEntry::Var(0)]);
}

fn set_action(f: &str, a: i64, b: i64) -> ResolvedNCommand {
    ResolvedNCommand::CoreAction(
        Span::Panic,
        CoreAction::SetOutput(
            CoreCall::Func(f.to_string()),
            vec![AtomTerm::Literal(Literal::Int(a)), AtomTerm::Literal(Literal::Int(b))],
            AtomTerm::Literal(Literal::Unit),
        ),
    )
}

#[test]
fn action_command_asserts_facts() {
    let mut egraph = EGraph::default();
    egraph.declare_function(&relation("edge", &["i64", "i64"], true)).unwrap();
    assert!(egraph.run_command(set_action("edge", 4, 5)).unwrap().is_none());
    assert_eq!(egraph.get_size("edge"), 1);
    assert!(egraph.check_facts(&check_span(), &vec![int_fact("edge", 4, 5)]).is_ok());
    assert!(egraph.run_command(set_action("edge", 4, 5)).unwrap().is_none());
    assert_eq!(egraph.get_size("edge"), 1);
}

#[test]
fn referenced_fact_checks_only_once_asserted() {
    let mut egraph = EGraph::default();
    egraph.declare_function(&relation("knows", &["i64", "i64"], true)).unwrap();
    egraph.declare_function(&relation("names", &["String"], false)).unwrap();
    egraph.input_file("names", "names.tsv".to_string(), "knows\n").unwrap();
    let name = Value::new_const(0);
    let two = egraph.base_to_value(2i64);
    let three = egraph.base_to_value(3i64);
    let r = egraph.fact_ref_helper(&[name, two, three]).unwrap();
    assert_eq!(egraph.get_size("knows"), 1);
    assert!(egraph.check_facts(&check_span(), &vec![int_fact("knows", 2, 3)]).is_err());
    assert!(egraph.run_command(set_action("knows", 2, 3)).unwrap().is_none());
    assert_eq!(egraph.get_size("knows"), 1);
    assert_eq!(egraph.get_fact_truth_status(r).unwrap(), Some(true));
    assert!(egraph.check_facts(&check_span(), &vec![int_fact("knows", 2, 3)]).is_ok());
}
