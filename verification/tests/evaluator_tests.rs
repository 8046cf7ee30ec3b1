use std::collections::HashSet;

use dp_graph::dispatch::{plan, Fault, Kernel};
use dp_graph::evaluator::{project_release, start, Evaluation, Step};
use dp_graph::graph::{Analysis, Argument, Component, Field, Mechanism, NodeKind, Operation};
use dp_graph::number::Binary64;
use dp_graph::release::{Entry, Release};
use dp_graph::schedule::evaluation_order;
use dp_graph::value::{ElementType, Payload, Value};

fn num(x: f64) -> Binary64 {
    Binary64::from_bits(x.to_bits())
}

fn back(x: Binary64) -> f64 {
    f64::from_bits(x.to_bits())
}

fn arg(name: &str, source: u32) -> Argument {
    Argument {
        name: name.to_string(),
        field: Field { source_node_id: source, source_field: "data".to_string() },
    }
}

fn node(id: u32, operation: Operation, arguments: Vec<Argument>) -> Component {
    Component { id, arguments, operation }
}

fn scalar_value(x: f64) -> Value {
    Value { shape: vec![], data: Payload::F64(vec![num(x)]) }
}

fn list_value(xs: &[f64]) -> Value {
    Value { shape: vec![xs.len()], data: Payload::F64(xs.iter().map(|x| num(*x)).collect()) }
}

fn integer_value(xs: &[i64]) -> Value {
    Value { shape: vec![xs.len()], data: Payload::I64(xs.to_vec()) }
}

fn scalar(x: f64) -> Operation {
    Operation::Literal { value: scalar_value(x) }
}

fn source() -> Operation {
    Operation::DataSource {
        dataset_id: "people".to_string(),
        column_id: "age".to_string(),
        datatype: ElementType::F64,
    }
}

fn mean(epsilon: f64, mechanism: Mechanism) -> Operation {
    Operation::DpMean { epsilon: num(epsilon), mechanism }
}

fn statistic_arguments(data: u32, n: u32, lo: u32, hi: u32) -> Vec<Argument> {
    vec![arg("data", data), arg("num_records", n), arg("minimum", lo), arg("maximum", hi)]
}

/// bounds 2 and 3, count 4, mean 5, data source 1 last in the graph.
fn mean_graph() -> Analysis {
    Analysis {
        graph: vec![
            node(2, scalar(0.0), vec![]),
            node(3, scalar(10.0), vec![]),
            node(4, scalar(5.0), vec![]),
            node(5, mean(1.0, Mechanism::Laplace), statistic_arguments(1, 4, 2, 3)),
            node(1, source(), vec![]),
        ],
    }
}

fn release(entries: Vec<(u32, Value)>) -> Release {
    Release { values: entries.into_iter().map(|(node_id, value)| Entry { node_id, value }).collect() }
}

fn ids(release: &Release) -> Vec<u32> {
    release.values.iter().map(|e| e.node_id).collect()
}

fn literal_of(analysis: &Analysis, position: usize) -> Value {
    match &analysis.graph[position].operation {
        Operation::Literal { value } => match &value.data {
            Payload::F64(v) => Value { shape: value.shape.clone(), data: Payload::F64(v.clone()) },
            _ => panic!("not a number"),
        },
        _ => panic!("not a literal"),
    }
}

#[test]
fn the_order_has_data_sources_first_and_sources_before_consumers() {
    let analysis = mean_graph();
    let order = evaluation_order(&analysis, &Release::new());
    assert_eq!(order.len(), 5);
    assert_eq!(order[0], 4);
    assert_eq!(order[4], 3);
    let mut rest = order[1..4].to_vec();
    rest.sort();
    assert_eq!(rest, vec![0, 1, 2]);
}

#[test]
fn the_order_takes_the_first_node_that_can_be_computed() {
    // 1 reads 2 and 3, which read the literal 4; the mean 5 reads 1.
    let analysis = Analysis {
        graph: vec![
            node(5, mean(1.0, Mechanism::Laplace), statistic_arguments(1, 4, 4, 4)),
            node(1, Operation::Add, vec![arg("left", 2), arg("right", 3)]),
            node(3, Operation::Negate, vec![arg("data", 4)]),
            node(2, Operation::Negate, vec![arg("data", 4)]),
            node(4, scalar(1.0), vec![]),
        ],
    };
    assert_eq!(evaluation_order(&analysis, &Release::new()), vec![4, 2, 3, 1, 0]);
    assert_eq!(evaluation_order(&analysis, &Release::new()), evaluation_order(&analysis, &Release::new()));
    assert_eq!(evaluation_order(&analysis, &release(vec![(2, scalar_value(-1.0))])), vec![4, 2, 1, 0]);
    assert_eq!(evaluation_order(&analysis, &release(vec![(1, scalar_value(-2.0))])), vec![4, 0]);
}

#[test]
fn nothing_is_computed_for_a_release_node_at_hand() {
    let analysis = mean_graph();
    let order = evaluation_order(&analysis, &release(vec![(5, scalar_value(3.0))]));
    assert!(order.is_empty());
}

#[test]
fn a_source_at_hand_is_not_computed_again() {
    let analysis = mean_graph();
    let order =
        evaluation_order(&analysis, &release(vec![(1, list_value(&[1.0, 2.0])), (3, scalar_value(10.0))]));
    assert_eq!(order.len(), 3);
    assert_eq!(order[2], 3);
    assert!(!order.contains(&4));
    assert!(!order.contains(&1));
}

#[test]
fn what_no_release_node_reads_is_not_computed() {
    let mut analysis = mean_graph();
    analysis.graph.push(node(8, scalar(1.0), vec![]));
    analysis.graph.push(node(9, Operation::Negate, vec![arg("data", 8)]));
    let order = evaluation_order(&analysis, &Release::new());
    assert_eq!(order.len(), 5);
    assert!(!order.contains(&5));
    assert!(!order.contains(&6));
}

#[test]
fn an_evaluation_runs_node_by_node() {
    let analysis = mean_graph();
    let mut evaluation: Evaluation = start(&analysis, Release::new()).unwrap();
    let mut kernels: Vec<String> = Vec::new();
    loop {
        match evaluation.step(&analysis) {
            Step::Done => break,
            Step::Failed { node_id, fault } => panic!("node {} failed: {:?}", node_id, fault),
            Step::Run { position, node_id, kernel } => {
                assert_eq!(analysis.graph[position].id, node_id);
                let value = match kernel {
                    Kernel::Literal => {
                        kernels.push("literal".to_string());
                        literal_of(&analysis, position)
                    }
                    Kernel::Ingest { datatype } => {
                        assert_eq!(datatype, ElementType::F64);
                        kernels.push("ingest".to_string());
                        list_value(&[1.0, 2.0, 3.0, 4.0, 5.0])
                    }
                    Kernel::Mean { epsilon, column } => {
                        kernels.push("mean".to_string());
                        assert_eq!(back(epsilon), 1.0);
                        assert_eq!(column.data, 1);
                        assert_eq!(back(column.num_records), 5.0);
                        assert_eq!(back(column.minimum), 0.0);
                        assert_eq!(back(column.maximum), 10.0);
                        scalar_value(3.0)
                    }
                    other => panic!("unexpected kernel {:?}", other),
                };
                assert_eq!(evaluation.record(&analysis, value), Ok(()));
            }
        }
    }
    assert!(evaluation.is_done());
    assert_eq!(kernels, vec!["ingest", "literal", "literal", "literal", "mean"]);
    let out = evaluation.finish(&analysis);
    assert_eq!(ids(&out), vec![5]);
    match &out.values[0].value.data {
        Payload::F64(v) => assert_eq!(back(v[0]), 3.0),
        _ => panic!("wrong element type"),
    }
}

#[test]
fn an_invalid_analysis_is_not_evaluated() {
    let mut analysis = mean_graph();
    analysis.graph[3] = node(5, mean(0.0, Mechanism::Laplace), statistic_arguments(1, 4, 2, 3));
    match start(&analysis, Release::new()) {
        Err(verdict) => {
            assert!(!verdict.valid);
            assert_eq!(verdict.errors.len(), 1);
        }
        Ok(_) => panic!("started on an invalid analysis"),
    }
}

#[test]
fn a_malformed_value_is_refused() {
    let analysis = mean_graph();
    let mut evaluation = start(&analysis, Release::new()).unwrap();
    let bad = Value { shape: vec![4], data: Payload::F64(vec![num(1.0)]) };
    assert_eq!(evaluation.record(&analysis, bad), Err(Fault::Shape));
    assert_eq!(evaluation.next, 0);
    assert_eq!(evaluation.evaluated.len(), 0);
}

#[test]
fn another_mechanism_than_laplace_is_refused() {
    let mut analysis = mean_graph();
    analysis.graph[3] = node(5, mean(1.0, Mechanism::Gaussian), statistic_arguments(1, 4, 2, 3));
    let at_hand = release(vec![
        (1, list_value(&[1.0])),
        (2, scalar_value(0.0)),
        (3, scalar_value(10.0)),
        (4, scalar_value(1.0)),
    ]);
    assert!(matches!(plan(&analysis, 3, &at_hand), Err(Fault::UnsupportedMechanism)));
    analysis.graph[3] = node(5, mean(1.0, Mechanism::Unknown), statistic_arguments(1, 4, 2, 3));
    assert!(matches!(plan(&analysis, 3, &at_hand), Err(Fault::UnsupportedMechanism)));
}

#[test]
fn the_evaluation_fails_at_the_node_with_the_fault() {
    let mut analysis = mean_graph();
    analysis.graph[3] = node(5, mean(1.0, Mechanism::Gaussian), statistic_arguments(1, 4, 2, 3));
    let at_hand = release(vec![
        (1, list_value(&[1.0])),
        (2, scalar_value(0.0)),
        (3, scalar_value(10.0)),
        (4, scalar_value(1.0)),
    ]);
    let evaluation = start(&analysis, at_hand).unwrap();
    assert_eq!(evaluation.order, vec![3]);
    match evaluation.step(&analysis) {
        Step::Failed { node_id, fault } => {
            assert_eq!(node_id, 5);
            assert_eq!(fault, Fault::UnsupportedMechanism);
        }
        other => panic!("unexpected step {:?}", other),
    }
}

#[test]
fn dispatch_names_each_fault() {
    let analysis = mean_graph();
    let full = |data: Value, lo: Value, hi: Value, n: Value| {
        release(vec![(1, data), (2, lo), (3, hi), (4, n)])
    };
    let run = |r: &Release| plan(&analysis, 3, r);
    assert!(matches!(
        run(&full(list_value(&[1.0]), scalar_value(0.0), scalar_value(10.0), scalar_value(1.0))),
        Ok(Kernel::Mean { .. })
    ));
    assert!(matches!(run(&Release::new()), Err(Fault::MissingArgument)));
    assert!(matches!(
        run(&release(vec![(1, list_value(&[1.0])), (4, scalar_value(1.0))])),
        Err(Fault::MissingArgument)
    ));
    assert!(matches!(
        run(&full(integer_value(&[1]), scalar_value(0.0), scalar_value(10.0), scalar_value(1.0))),
        Err(Fault::Type)
    ));
    assert!(matches!(
        run(&full(list_value(&[1.0]), integer_value(&[0]), scalar_value(10.0), scalar_value(1.0))),
        Err(Fault::Type)
    ));
    assert!(matches!(
        run(&full(list_value(&[1.0]), list_value(&[]), scalar_value(10.0), scalar_value(1.0))),
        Err(Fault::Type)
    ));
    assert!(matches!(
        run(&full(list_value(&[1.0]), scalar_value(10.0), scalar_value(0.0), scalar_value(1.0))),
        Err(Fault::Domain)
    ));
    assert!(matches!(
        run(&full(list_value(&[1.0]), scalar_value(0.0), scalar_value(10.0), scalar_value(0.0))),
        Err(Fault::Domain)
    ));
    assert!(matches!(
        run(&full(list_value(&[1.0]), scalar_value(0.0), scalar_value(10.0), scalar_value(-3.0))),
        Err(Fault::Domain)
    ));
}

#[test]
fn arithmetic_is_dispatched_on_the_element_types() {
    let analysis = Analysis {
        graph: vec![
            node(1, scalar(1.0), vec![]),
            node(2, scalar(1.0), vec![]),
            node(3, Operation::Add, vec![arg("left", 1), arg("right", 2)]),
            node(4, Operation::Power, vec![arg("left", 1), arg("right", 2)]),
            node(5, Operation::Negate, vec![arg("data", 1)]),
            node(6, Operation::Divide, vec![arg("left", 1), arg("right", 2)]),
        ],
    };
    let numbers = release(vec![(1, list_value(&[1.0, 2.0])), (2, scalar_value(2.0))]);
    match plan(&analysis, 2, &numbers) {
        Ok(Kernel::Arithmetic { operation, element_type, left, right }) => {
            assert_eq!(operation, NodeKind::Add);
            assert_eq!(element_type, ElementType::F64);
            assert_eq!((left, right), (1, 2));
        }
        other => panic!("unexpected {:?}", other),
    }
    assert!(matches!(
        plan(&analysis, 3, &numbers),
        Ok(Kernel::Arithmetic { operation: NodeKind::Power, .. })
    ));
    assert!(matches!(
        plan(&analysis, 4, &numbers),
        Ok(Kernel::Negate { element_type: ElementType::F64, data: 1 })
    ));
    let whole = release(vec![(1, integer_value(&[1, 2])), (2, integer_value(&[2, 3]))]);
    assert!(matches!(
        plan(&analysis, 5, &whole),
        Ok(Kernel::Arithmetic { operation: NodeKind::Divide, element_type: ElementType::I64, .. })
    ));
    assert!(matches!(plan(&analysis, 3, &whole), Err(Fault::Type)));
    assert!(matches!(
        plan(&analysis, 4, &whole),
        Ok(Kernel::Negate { element_type: ElementType::I64, data: 1 })
    ));
    let mixed = release(vec![(1, list_value(&[1.0])), (2, integer_value(&[2]))]);
    assert!(matches!(plan(&analysis, 2, &mixed), Err(Fault::Type)));
    let ragged = release(vec![(1, list_value(&[1.0, 2.0])), (2, list_value(&[1.0, 2.0, 3.0]))]);
    assert!(matches!(plan(&analysis, 2, &ragged), Err(Fault::Shape)));
    let texts = release(vec![(1, Value { shape: vec![1], data: Payload::Str(vec!["a".to_string()]) })]);
    assert!(matches!(plan(&analysis, 4, &texts), Err(Fault::Type)));
    assert!(matches!(plan(&analysis, 2, &texts), Err(Fault::MissingArgument)));
    assert!(matches!(plan(&analysis, 0, &Release::new()), Ok(Kernel::Literal)));
}

#[test]
fn covariance_and_histogram_are_dispatched() {
    let analysis = Analysis {
        graph: vec![
            node(
                6,
                Operation::DpCovariance { epsilon: num(0.5), mechanism: Mechanism::Laplace },
                vec![
                    arg("data_x", 1),
                    arg("data_y", 2),
                    arg("num_records", 5),
                    arg("minimum_x", 3),
                    arg("minimum_y", 3),
                    arg("maximum_x", 4),
                    arg("maximum_y", 4),
                ],
            ),
            node(
                7,
                Operation::DpHistogram {
                    epsilon: num(1.0),
                    mechanism: Mechanism::Laplace,
                    stability: Some(num(1e-5)),
                    num_bins: 10,
                    inclusive_left: false,
                },
                vec![arg("data", 1), arg("minimum", 3), arg("maximum", 4)],
            ),
        ],
    };
    let at_hand = |y: Value| {
        release(vec![
            (1, list_value(&[1.0, 2.0])),
            (2, y),
            (3, scalar_value(0.0)),
            (4, scalar_value(10.0)),
            (5, scalar_value(2.0)),
        ])
    };
    match plan(&analysis, 0, &at_hand(list_value(&[3.0, 4.0]))) {
        Ok(Kernel::Covariance { epsilon, data_x, data_y, num_records, minimum_x, maximum_y, .. }) => {
            assert_eq!(back(epsilon), 0.5);
            assert_eq!((data_x, data_y), (1, 2));
            assert_eq!(back(num_records), 2.0);
            assert_eq!(back(minimum_x), 0.0);
            assert_eq!(back(maximum_y), 10.0);
        }
        other => panic!("unexpected {:?}", other),
    }
    assert!(matches!(plan(&analysis, 0, &at_hand(list_value(&[3.0]))), Err(Fault::Shape)));
    assert!(matches!(plan(&analysis, 0, &at_hand(integer_value(&[3, 4]))), Err(Fault::Type)));
    match plan(&analysis, 1, &at_hand(list_value(&[3.0]))) {
        Ok(Kernel::Histogram { data, minimum, maximum, num_bins, inclusive_left, stability, .. }) => {
            assert_eq!(data, 1);
            assert_eq!(back(minimum), 0.0);
            assert_eq!(back(maximum), 10.0);
            assert_eq!(num_bins, 10);
            assert!(!inclusive_left);
            assert_eq!(stability.map(back), Some(1e-5));
        }
        other => panic!("unexpected {:?}", other),
    }
}

#[test]
fn projection_keeps_the_release_nodes_in_order() {
    let all = release(vec![
        (1, scalar_value(1.0)),
        (5, scalar_value(5.0)),
        (2, scalar_value(2.0)),
        (7, scalar_value(7.0)),
        (5, scalar_value(55.0)),
    ]);
    let keep: HashSet<u32> = [5, 7, 9].iter().cloned().collect();
    let out = project_release(all, &keep);
    assert_eq!(ids(&out), vec![5, 7, 5]);
    let firsts: Vec<f64> = out
        .values
        .iter()
        .map(|e| match &e.value.data {
            Payload::F64(v) => back(v[0]),
            _ => panic!("wrong element type"),
        })
        .collect();
    assert_eq!(firsts, vec![5.0, 7.0, 55.0]);
    assert_eq!(project_release(Release::new(), &keep).len(), 0);
}

#[test]
fn a_release_finds_the_first_value_of_a_node() {
    let mut r = Release::new();
    assert!(!r.contains(3));
    r.insert(3, scalar_value(1.0));
    r.insert(4, scalar_value(2.0));
    r.insert(3, scalar_value(9.0));
    assert_eq!(r.len(), 3);
    assert!(r.contains(3));
    assert!(r.contains(4));
    assert!(!r.contains(5));
    match &r.get(3).unwrap().data {
        Payload::F64(v) => assert_eq!(back(v[0]), 1.0),
        _ => panic!("wrong element type"),
    }
    assert!(r.get(5).is_none());
}
