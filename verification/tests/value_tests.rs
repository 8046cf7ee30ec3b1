use dp_graph::graph::{Analysis, Argument, Component, Field, Mechanism, Operation};
use dp_graph::number::Binary64;
use dp_graph::release::Release;
use dp_graph::surface::{
    compute_privacy, compute_sensitivities, from_accuracy, generate_report, infer_constraints,
    to_accuracy, Accuracies, Constraints, Sensitivity,
};
use dp_graph::value::{broadcast_shape, copy_shape, ElementType, Payload, Value};

fn num(x: f64) -> Binary64 {
    Binary64::from_bits(x.to_bits())
}

#[test]
fn shapes_are_broadcast_from_the_last_dimension() {
    assert_eq!(broadcast_shape(&vec![2, 3], &vec![2, 3]), Some(vec![2, 3]));
    assert_eq!(broadcast_shape(&vec![2, 3], &vec![3]), Some(vec![2, 3]));
    assert_eq!(broadcast_shape(&vec![3], &vec![2, 3]), Some(vec![2, 3]));
    assert_eq!(broadcast_shape(&vec![2, 1], &vec![1, 3]), Some(vec![2, 3]));
    assert_eq!(broadcast_shape(&vec![], &vec![4, 5]), Some(vec![4, 5]));
    assert_eq!(broadcast_shape(&vec![], &vec![]), Some(vec![]));
    assert_eq!(broadcast_shape(&vec![1], &vec![0]), Some(vec![0]));
    assert_eq!(broadcast_shape(&vec![2], &vec![3]), None);
    assert_eq!(broadcast_shape(&vec![2, 3], &vec![2]), None);
    assert_eq!(broadcast_shape(&vec![4, 2, 3], &vec![5, 1, 3]), None);
}

#[test]
fn a_value_is_well_formed_when_its_shape_accounts_for_its_elements() {
    let value = |shape: Vec<usize>, n: usize| Value { shape, data: Payload::I64(vec![0; n]) };
    assert!(value(vec![], 1).is_well_formed());
    assert!(!value(vec![], 0).is_well_formed());
    assert!(!value(vec![], 2).is_well_formed());
    assert!(value(vec![3], 3).is_well_formed());
    assert!(value(vec![2, 3], 6).is_well_formed());
    assert!(!value(vec![2, 3], 5).is_well_formed());
    assert!(value(vec![0], 0).is_well_formed());
    assert!(value(vec![5, 0, 7], 0).is_well_formed());
    assert!(value(vec![usize::MAX, 0], 0).is_well_formed());
    assert!(!value(vec![usize::MAX, 2], 4).is_well_formed());
    assert!(!value(vec![0], 1).is_well_formed());
    assert!(!value(vec![3], 0).is_well_formed());
}

#[test]
fn the_first_number_of_a_value_is_found() {
    let numbers = Value { shape: vec![2], data: Payload::F64(vec![num(4.5), num(1.0)]) };
    assert_eq!(numbers.first_number().map(|x| x.to_bits()), Some(4.5f64.to_bits()));
    assert_eq!(numbers.element_type(), ElementType::F64);
    let empty = Value { shape: vec![0], data: Payload::F64(vec![]) };
    assert!(empty.first_number().is_none());
    let whole = Value { shape: vec![1], data: Payload::I64(vec![4]) };
    assert!(whole.first_number().is_none());
    assert_eq!(whole.element_type(), ElementType::I64);
    assert_eq!(whole.data.len(), 1);
}

#[test]
fn numeric_types_are_the_two_number_types() {
    assert!(ElementType::F64.is_numeric());
    assert!(ElementType::I64.is_numeric());
    assert!(!ElementType::Bool.is_numeric());
    assert!(!ElementType::Str.is_numeric());
    assert!(!ElementType::Bytes.is_numeric());
}

#[test]
fn a_shape_is_copied() {
    assert_eq!(copy_shape(&vec![1, 2, 3]), vec![1, 2, 3]);
    assert_eq!(copy_shape(&vec![]), Vec::<usize>::new());
}

#[test]
fn the_report_is_the_fixed_text() {
    let report = generate_report(Analysis { graph: vec![] }, Release::new());
    assert_eq!(report.value, "{\"key\": \"value\"}");
}

#[test]
fn constraints_leave_the_analysis_as_it_is() {
    let analysis = Analysis { graph: vec![] };
    let out = infer_constraints(analysis, Release::new(), Constraints {});
    assert_eq!(out.graph.len(), 0);
}

#[test]
fn the_other_entry_points_answer() {
    let _ = compute_privacy(Analysis { graph: vec![] }, Release::new());
    let _ = compute_sensitivities(Analysis { graph: vec![] }, Release::new());
    let _ = from_accuracy(Analysis { graph: vec![] }, Release::new(), Accuracies {});
    let _ = to_accuracy(Analysis { graph: vec![] }, Release::new());
}

fn arg(name: &str, source: u32) -> Argument {
    Argument {
        name: name.to_string(),
        field: Field { source_node_id: source, source_field: "data".to_string() },
    }
}

fn literal(id: u32, x: f64) -> Component {
    Component {
        id,
        arguments: vec![],
        operation: Operation::Literal { value: Value { shape: vec![], data: Payload::F64(vec![num(x)]) } },
    }
}

fn back(x: Binary64) -> f64 {
    f64::from_bits(x.to_bits())
}

/// Literals 1 to 5, a data source 6, and one private node of each kind.
fn statistics(lo: f64, hi: f64, records: f64) -> Analysis {
    let column = || vec![arg("data", 6), arg("num_records", 3), arg("minimum", 1), arg("maximum", 2)];
    let laplace = Mechanism::Laplace;
    Analysis {
        graph: vec![
            literal(1, lo),
            literal(2, hi),
            literal(3, records),
            literal(4, -1.0),
            literal(5, 4.0),
            Component {
                id: 6,
                arguments: vec![],
                operation: Operation::DataSource {
                    dataset_id: "people".to_string(),
                    column_id: "age".to_string(),
                    datatype: ElementType::F64,
                },
            },
            Component { id: 10, arguments: column(), operation: Operation::DpMean { epsilon: num(1.0), mechanism: laplace } },
            Component { id: 11, arguments: column(), operation: Operation::DpVariance { epsilon: num(1.0), mechanism: laplace } },
            Component { id: 20, arguments: vec![arg("data", 6)], operation: Operation::Negate },
            Component {
                id: 12,
                arguments: column(),
                operation: Operation::DpMomentRaw { epsilon: num(1.0), mechanism: laplace, order: 3 },
            },
            Component {
                id: 13,
                arguments: vec![
                    arg("data_x", 6),
                    arg("data_y", 6),
                    arg("num_records", 3),
                    arg("minimum_x", 1),
                    arg("minimum_y", 4),
                    arg("maximum_x", 2),
                    arg("maximum_y", 5),
                ],
                operation: Operation::DpCovariance { epsilon: num(1.0), mechanism: laplace },
            },
            Component {
                id: 14,
                arguments: vec![arg("data", 6), arg("minimum", 1), arg("maximum", 2)],
                operation: Operation::DpHistogram {
                    epsilon: num(1.0),
                    mechanism: laplace,
                    stability: None,
                    num_bins: 4,
                    inclusive_left: true,
                },
            },
        ],
    }
}

#[test]
fn each_private_node_has_its_sensitivity() {
    let out = compute_sensitivities(statistics(0.0, 10.0, 5.0), Release::new());
    let ids: Vec<u32> = out.nodes.iter().map(|s| s.node_id).collect();
    assert_eq!(ids, vec![10, 11, 12, 13, 14]);
    match out.nodes[0].sensitivity {
        Some(Sensitivity::Mean { num_records, minimum, maximum }) => {
            assert_eq!((back(num_records), back(minimum), back(maximum)), (5.0, 0.0, 10.0));
            assert_eq!((back(maximum) - back(minimum)) / back(num_records), 2.0);
        }
        other => panic!("unexpected {:?}", other),
    }
    match out.nodes[1].sensitivity {
        Some(Sensitivity::Variance { num_records, minimum, maximum }) => {
            let (n, lo, hi) = (back(num_records), back(minimum), back(maximum));
            assert_eq!((n - 1.0) * ((hi - lo) / n).powi(2), 16.0);
        }
        other => panic!("unexpected {:?}", other),
    }
    match out.nodes[2].sensitivity {
        Some(Sensitivity::MomentRaw { num_records, minimum, maximum, order }) => {
            assert_eq!(order, 3);
            assert_eq!((back(maximum) - back(minimum)).powi(order as i32) / back(num_records), 200.0);
        }
        other => panic!("unexpected {:?}", other),
    }
    match out.nodes[3].sensitivity {
        Some(Sensitivity::Covariance { num_records, minimum_x, minimum_y, maximum_x, maximum_y }) => {
            assert_eq!(
                (back(num_records), back(minimum_x), back(minimum_y), back(maximum_x), back(maximum_y)),
                (5.0, 0.0, -1.0, 10.0, 4.0)
            );
            let n = back(num_records);
            assert_eq!(2.0 * (n - 1.0) / n * 10.0 * 5.0, 80.0);
        }
        other => panic!("unexpected {:?}", other),
    }
    match out.nodes[4].sensitivity {
        Some(Sensitivity::Histogram { value }) => assert_eq!(value.to_bits(), 2.0f64.to_bits()),
        other => panic!("unexpected {:?}", other),
    }
}

#[test]
fn there_is_no_sensitivity_without_bounds_in_order() {
    for (lo, hi, records) in [
        (10.0, 0.0, 5.0),
        (1.0, 1.0, 5.0),
        (0.0, f64::INFINITY, 5.0),
        (f64::NAN, 1.0, 5.0),
        (0.0, 10.0, 0.0),
        (0.0, 10.0, -2.0),
        (0.0, 10.0, f64::NAN),
    ] {
        let out = compute_sensitivities(statistics(lo, hi, records), Release::new());
        assert_eq!(out.nodes.len(), 5);
        for k in 0..4 {
            assert!(out.nodes[k].sensitivity.is_none());
        }
        assert!(matches!(out.nodes[4].sensitivity, Some(Sensitivity::Histogram { .. })));
    }
}

#[test]
fn there_is_no_sensitivity_for_bounds_that_are_not_declared() {
    let mut analysis = statistics(0.0, 10.0, 5.0);
    // The lower bound of the mean is computed, not declared.
    analysis.graph[6].arguments[2] = arg("minimum", 20);
    // The variance has no upper bound at all.
    analysis.graph[7].arguments.pop();
    let out = compute_sensitivities(analysis, Release::new());
    assert!(out.nodes[0].sensitivity.is_none());
    assert!(out.nodes[1].sensitivity.is_none());
    assert!(out.nodes[2].sensitivity.is_some());
}

#[test]
fn an_analysis_without_private_nodes_has_no_sensitivities() {
    assert!(compute_sensitivities(Analysis { graph: vec![] }, Release::new()).nodes.is_empty());
    let plain = Analysis { graph: vec![literal(1, 1.0), literal(2, 2.0)] };
    assert!(compute_sensitivities(plain, Release::new()).nodes.is_empty());
}
