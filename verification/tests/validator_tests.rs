use std::collections::HashSet;

use dp_graph::checks::{check_bounds, check_delta, check_epsilon, Check, ErrorKind};
use dp_graph::graph::{
    is_privatizer, Analysis, Argument, Component, Field, Mechanism, NodeKind, Operation,
};
use dp_graph::number::Binary64;
use dp_graph::traversal::{is_cyclic, sort_nodes};
use dp_graph::validator::{get_release_nodes, get_sinks, validate_analysis, Finding};
use dp_graph::value::{ElementType, Payload, Value};

fn num(x: f64) -> Binary64 {
    Binary64::from_bits(x.to_bits())
}

fn arg(name: &str, source: u32) -> Argument {
    Argument {
        name: name.to_string(),
        field: Field { source_node_id: source, source_field: "data".to_string() },
    }
}

fn node(id: u32, operation: Operation, arguments: Vec<Argument>) -> Component {
    Component { id, arguments, operation }
}

fn scalar(x: f64) -> Operation {
    Operation::Literal { value: Value { shape: vec![], data: Payload::F64(vec![num(x)]) } }
}

fn list(xs: &[f64]) -> Operation {
    Operation::Literal {
        value: Value { shape: vec![xs.len()], data: Payload::F64(xs.iter().map(|x| num(*x)).collect()) },
    }
}

fn integers(xs: &[i64]) -> Operation {
    Operation::Literal { value: Value { shape: vec![xs.len()], data: Payload::I64(xs.to_vec()) } }
}

fn source() -> Operation {
    Operation::DataSource {
        dataset_id: "people".to_string(),
        column_id: "age".to_string(),
        datatype: ElementType::F64,
    }
}

fn mean(epsilon: f64) -> Operation {
    Operation::DpMean { epsilon: num(epsilon), mechanism: Mechanism::Laplace }
}

fn statistic_arguments(data: u32, n: u32, lo: u32, hi: u32) -> Vec<Argument> {
    vec![arg("data", data), arg("num_records", n), arg("minimum", lo), arg("maximum", hi)]
}

/// data source 1, bounds 2 and 3, count 4, mean 5.
fn mean_graph(epsilon: f64, lo: f64, hi: f64) -> Analysis {
    Analysis {
        graph: vec![
            node(1, source(), vec![]),
            node(2, scalar(lo), vec![]),
            node(3, scalar(hi), vec![]),
            node(4, scalar(5.0), vec![]),
            node(5, mean(epsilon), statistic_arguments(1, 4, 2, 3)),
        ],
    }
}

fn ring() -> Analysis {
    // A is read by B, B by C, and C by A.
    Analysis {
        graph: vec![
            node(1, Operation::Negate, vec![arg("data", 3)]),
            node(2, Operation::Negate, vec![arg("data", 1)]),
            node(3, Operation::Negate, vec![arg("data", 2)]),
        ],
    }
}

fn set(ids: &[u32]) -> HashSet<u32> {
    ids.iter().cloned().collect()
}

#[test]
fn a_sound_analysis_is_valid() {
    let verdict = validate_analysis(&mean_graph(1.0, 0.0, 10.0));
    assert!(verdict.valid);
    assert!(verdict.errors.is_empty());
}

#[test]
fn the_empty_analysis_is_valid() {
    let verdict = validate_analysis(&Analysis { graph: vec![] });
    assert!(verdict.valid);
    assert!(verdict.errors.is_empty());
}

#[test]
fn cycle_detection() {
    let analysis = ring();
    assert!(is_cyclic(&analysis));
    let verdict = validate_analysis(&analysis);
    assert!(!verdict.valid);
    assert_eq!(verdict.errors[0], Finding::Cycle { consumer: 2, source: 1 });
    assert_eq!(verdict.errors[0].kind(), ErrorKind::GraphStructure);
    assert!(verdict.errors.iter().any(|e| match e {
        Finding::Cycle { consumer, source } => *consumer == 1 || *source == 1,
        _ => false,
    }));
}

#[test]
fn a_node_that_reads_itself_is_a_cycle() {
    let analysis = Analysis { graph: vec![node(7, Operation::Negate, vec![arg("data", 7)])] };
    assert!(is_cyclic(&analysis));
    let verdict = validate_analysis(&analysis);
    assert!(!verdict.valid);
    assert_eq!(verdict.errors, vec![Finding::Cycle { consumer: 7, source: 7 }]);
}

#[test]
fn a_diamond_is_no_cycle() {
    let analysis = Analysis {
        graph: vec![
            node(4, Operation::Add, vec![arg("left", 2), arg("right", 3)]),
            node(2, Operation::Negate, vec![arg("data", 1)]),
            node(3, Operation::Negate, vec![arg("data", 1)]),
            node(1, list(&[1.0, 2.0]), vec![]),
        ],
    };
    assert!(!is_cyclic(&analysis));
    let order = sort_nodes(&analysis).unwrap();
    assert_eq!(order.len(), 4);
    let place = |p: usize| order.iter().position(|x| *x == p).unwrap();
    assert!(place(3) < place(1));
    assert!(place(3) < place(2));
    assert!(place(1) < place(0));
    assert!(place(2) < place(0));
    assert!(validate_analysis(&analysis).valid);
}

#[test]
fn a_cycle_beside_a_sound_part_is_found() {
    let mut analysis = mean_graph(1.0, 0.0, 10.0);
    analysis.graph.push(node(8, Operation::Negate, vec![arg("data", 9)]));
    analysis.graph.push(node(9, Operation::Negate, vec![arg("data", 8)]));
    assert!(is_cyclic(&analysis));
    assert!(sort_nodes(&analysis).is_err());
    let verdict = validate_analysis(&analysis);
    assert!(!verdict.valid);
    assert_eq!(verdict.errors, vec![Finding::Cycle { consumer: 9, source: 8 }]);
}

#[test]
fn an_edge_to_a_missing_node_is_no_cycle_but_a_finding() {
    let analysis = Analysis { graph: vec![node(1, Operation::Negate, vec![arg("data", 99)])] };
    assert!(!is_cyclic(&analysis));
    let verdict = validate_analysis(&analysis);
    assert!(!verdict.valid);
    assert_eq!(verdict.errors, vec![Finding::Node { node: 1, check: Check::Closure }]);
    assert_eq!(verdict.errors[0].kind(), ErrorKind::GraphStructure);
}

#[test]
fn missing_and_unexpected_arguments_are_found() {
    let missing = Analysis {
        graph: vec![node(1, list(&[1.0]), vec![]), node(2, Operation::Add, vec![arg("left", 1)])],
    };
    assert_eq!(
        validate_analysis(&missing).errors,
        vec![Finding::Node { node: 2, check: Check::Arity }]
    );
    let unexpected = Analysis {
        graph: vec![
            node(1, list(&[1.0]), vec![]),
            node(2, Operation::Negate, vec![arg("data", 1), arg("other", 1)]),
        ],
    };
    assert_eq!(
        validate_analysis(&unexpected).errors,
        vec![Finding::Node { node: 2, check: Check::Arity }]
    );
    let twice = Analysis {
        graph: vec![
            node(1, list(&[1.0]), vec![]),
            node(2, Operation::Negate, vec![arg("data", 1), arg("data", 1)]),
        ],
    };
    assert_eq!(
        validate_analysis(&twice).errors,
        vec![Finding::Node { node: 2, check: Check::Arity }]
    );
    let literal_with_argument =
        Analysis { graph: vec![node(1, list(&[1.0]), vec![]), node(2, source(), vec![arg("data", 1)])] };
    assert_eq!(
        validate_analysis(&literal_with_argument).errors,
        vec![Finding::Node { node: 2, check: Check::Arity }]
    );
}

#[test]
fn epsilon_must_be_positive() {
    for bad in [0.0, -0.0, -1.0, f64::NAN, f64::INFINITY] {
        let verdict = validate_analysis(&mean_graph(bad, 0.0, 10.0));
        assert!(!verdict.valid);
        assert_eq!(verdict.errors, vec![Finding::Node { node: 5, check: Check::Epsilon }]);
        assert_eq!(verdict.errors[0].kind(), ErrorKind::Domain);
    }
    assert!(check_epsilon(num(0.1)));
    assert!(!check_epsilon(num(0.0)));
}

#[test]
fn bounds_must_be_ordered() {
    for (lo, hi) in [(10.0, 0.0), (1.0, 1.0), (f64::NAN, 1.0), (0.0, f64::INFINITY), (0.0, -0.0)] {
        let verdict = validate_analysis(&mean_graph(1.0, lo, hi));
        assert!(!verdict.valid);
        assert_eq!(verdict.errors, vec![Finding::Node { node: 5, check: Check::Bounds }]);
    }
    assert!(check_bounds(num(-1.0), num(1.0)));
    assert!(!check_bounds(num(1.0), num(1.0)));
}

#[test]
fn bounds_that_are_computed_are_not_judged() {
    let analysis = Analysis {
        graph: vec![
            node(1, source(), vec![]),
            node(2, scalar(10.0), vec![]),
            node(3, Operation::Negate, vec![arg("data", 2)]),
            node(4, scalar(5.0), vec![]),
            node(5, mean(1.0), statistic_arguments(1, 4, 2, 3)),
        ],
    };
    assert!(validate_analysis(&analysis).valid);
}

#[test]
fn delta_must_lie_between_zero_and_one() {
    let histogram = |delta: Option<f64>| Analysis {
        graph: vec![
            node(1, source(), vec![]),
            node(2, scalar(0.0), vec![]),
            node(3, scalar(10.0), vec![]),
            node(
                6,
                Operation::DpHistogram {
                    epsilon: num(1.0),
                    mechanism: Mechanism::Laplace,
                    stability: delta.map(num),
                    num_bins: 10,
                    inclusive_left: true,
                },
                vec![arg("data", 1), arg("minimum", 2), arg("maximum", 3)],
            ),
        ],
    };
    assert!(validate_analysis(&histogram(None)).valid);
    assert!(validate_analysis(&histogram(Some(1e-5))).valid);
    for bad in [0.0, 1.0, -0.5, 1.5, f64::NAN] {
        assert_eq!(
            validate_analysis(&histogram(Some(bad))).errors,
            vec![Finding::Node { node: 6, check: Check::Delta }]
        );
    }
    assert!(check_delta(num(0.5)));
    assert!(!check_delta(num(1.0)));
    assert!(!check_delta(num(0.0)));
}

#[test]
fn operand_types_must_match() {
    let analysis = Analysis {
        graph: vec![
            node(1, list(&[1.0, 2.0]), vec![]),
            node(2, integers(&[1, 2]), vec![]),
            node(3, Operation::Add, vec![arg("left", 1), arg("right", 2)]),
        ],
    };
    let verdict = validate_analysis(&analysis);
    assert_eq!(verdict.errors, vec![Finding::Node { node: 3, check: Check::Type }]);
    assert_eq!(verdict.errors[0].kind(), ErrorKind::Type);
}

#[test]
fn integers_are_not_promoted() {
    let power = Analysis {
        graph: vec![
            node(1, integers(&[1, 2]), vec![]),
            node(2, integers(&[2]), vec![]),
            node(3, Operation::Power, vec![arg("left", 1), arg("right", 2)]),
        ],
    };
    assert_eq!(
        validate_analysis(&power).errors,
        vec![Finding::Node { node: 3, check: Check::Type }]
    );
    let sum = Analysis {
        graph: vec![
            node(1, integers(&[1, 2]), vec![]),
            node(2, integers(&[2]), vec![]),
            node(3, Operation::Add, vec![arg("left", 1), arg("right", 2)]),
        ],
    };
    assert!(validate_analysis(&sum).valid);
}

#[test]
fn private_kernels_want_numbers() {
    let analysis = Analysis {
        graph: vec![
            node(1, integers(&[1, 2, 3]), vec![]),
            node(2, scalar(0.0), vec![]),
            node(3, scalar(10.0), vec![]),
            node(4, scalar(3.0), vec![]),
            node(5, mean(1.0), statistic_arguments(1, 4, 2, 3)),
        ],
    };
    assert_eq!(
        validate_analysis(&analysis).errors,
        vec![Finding::Node { node: 5, check: Check::Type }]
    );
}

#[test]
fn operand_shapes_must_conform() {
    let sum = |left: &[f64], right: &[f64]| Analysis {
        graph: vec![
            node(1, list(left), vec![]),
            node(2, list(right), vec![]),
            node(3, Operation::Multiply, vec![arg("left", 1), arg("right", 2)]),
        ],
    };
    let verdict = validate_analysis(&sum(&[1.0, 2.0], &[1.0, 2.0, 3.0]));
    assert_eq!(verdict.errors, vec![Finding::Node { node: 3, check: Check::Shape }]);
    assert_eq!(verdict.errors[0].kind(), ErrorKind::Shape);
    assert!(validate_analysis(&sum(&[1.0, 2.0], &[5.0])).valid);
    assert!(validate_analysis(&sum(&[1.0, 2.0], &[5.0, 6.0])).valid);
}

#[test]
fn a_literal_must_hold_what_its_shape_says() {
    let analysis = Analysis {
        graph: vec![node(
            1,
            Operation::Literal { value: Value { shape: vec![3], data: Payload::F64(vec![num(1.0)]) } },
            vec![],
        )],
    };
    assert_eq!(
        validate_analysis(&analysis).errors,
        vec![Finding::Node { node: 1, check: Check::Shape }]
    );
}

#[test]
fn covariance_wants_two_lists_of_one_length() {
    let covariance = |x: &[f64], y: &[f64]| Analysis {
        graph: vec![
            node(1, list(x), vec![]),
            node(2, list(y), vec![]),
            node(3, scalar(0.0), vec![]),
            node(4, scalar(1.0), vec![]),
            node(5, scalar(2.0), vec![]),
            node(
                6,
                Operation::DpCovariance { epsilon: num(1.0), mechanism: Mechanism::Laplace },
                vec![
                    arg("data_x", 1),
                    arg("data_y", 2),
                    arg("num_records", 5),
                    arg("minimum_x", 3),
                    arg("minimum_y", 3),
                    arg("maximum_x", 4),
                    arg("maximum_y", 4),
                ],
            ),
        ],
    };
    assert!(validate_analysis(&covariance(&[1.0, 2.0], &[3.0, 4.0])).valid);
    assert_eq!(
        validate_analysis(&covariance(&[1.0, 2.0], &[3.0])).errors,
        vec![Finding::Node { node: 6, check: Check::Shape }]
    );
}

#[test]
fn repeated_ids_are_found() {
    let analysis = Analysis {
        graph: vec![
            node(1, scalar(1.0), vec![]),
            node(2, scalar(1.0), vec![]),
            node(1, scalar(1.0), vec![]),
            node(1, scalar(1.0), vec![]),
        ],
    };
    let verdict = validate_analysis(&analysis);
    assert!(!verdict.valid);
    assert_eq!(
        verdict.errors,
        vec![Finding::DuplicateId { id: 1 }, Finding::DuplicateId { id: 1 }]
    );
    assert!(!analysis.is_well_formed());
}

#[test]
fn every_error_is_collected_in_order() {
    let analysis = Analysis {
        graph: vec![
            node(1, source(), vec![]),
            node(2, scalar(10.0), vec![]),
            node(3, scalar(0.0), vec![]),
            node(5, mean(-1.0), vec![arg("data", 1), arg("minimum", 2), arg("maximum", 3), arg("size", 77)]),
            node(6, Operation::Negate, vec![]),
        ],
    };
    let verdict = validate_analysis(&analysis);
    assert!(!verdict.valid);
    assert_eq!(
        verdict.errors,
        vec![
            Finding::Node { node: 5, check: Check::Closure },
            Finding::Node { node: 5, check: Check::Arity },
            Finding::Node { node: 5, check: Check::Bounds },
            Finding::Node { node: 5, check: Check::Epsilon },
            Finding::Node { node: 6, check: Check::Arity },
        ]
    );
}

#[test]
fn findings_are_put_in_words() {
    let verdict = validate_analysis(&mean_graph(0.0, 10.0, 0.0));
    assert_eq!(
        verdict.messages(),
        vec![
            "node 5: a lower bound is not below its upper bound",
            "node 5: epsilon is not positive",
        ]
    );
    assert_eq!(
        Finding::Cycle { consumer: 4294967295, source: 10 }.message(),
        "node 4294967295: the argument from node 10 closes a cycle"
    );
    assert_eq!(Finding::DuplicateId { id: 0 }.message(), "node 0: the id occurs more than once");
    assert_eq!(
        Finding::Node { node: 907, check: Check::Closure }.message(),
        "node 907: an argument comes from a node that is not in the graph"
    );
    assert_eq!(
        Finding::Node { node: 1, check: Check::Arity }.message(),
        "node 1: the arguments are not those of the kind"
    );
    assert_eq!(
        Finding::Node { node: 1, check: Check::Type }.message(),
        "node 1: the element types of the arguments do not fit"
    );
    assert_eq!(
        Finding::Node { node: 1, check: Check::Shape }.message(),
        "node 1: the shapes of the arguments do not conform"
    );
    assert_eq!(
        Finding::Node { node: 1, check: Check::Delta }.message(),
        "node 1: delta is not between zero and one"
    );
    assert_eq!(dp_graph::text::decimal_text(0), "0");
    assert_eq!(dp_graph::text::decimal_text(1000), "1000");
    assert_eq!(dp_graph::text::decimal_text(u32::MAX), u32::MAX.to_string());
}

#[test]
fn validity_is_the_absence_of_errors() {
    for analysis in [mean_graph(1.0, 0.0, 10.0), mean_graph(0.0, 0.0, 10.0), ring()] {
        let verdict = validate_analysis(&analysis);
        assert_eq!(verdict.valid, verdict.errors.is_empty());
    }
}

#[test]
fn sinks_are_the_nodes_that_nothing_reads() {
    assert_eq!(get_sinks(&mean_graph(1.0, 0.0, 10.0)), set(&[5]));
    assert_eq!(get_sinks(&ring()), set(&[]));
    assert_eq!(get_sinks(&Analysis { graph: vec![] }), set(&[]));
    let two = Analysis {
        graph: vec![
            node(1, scalar(1.0), vec![]),
            node(2, Operation::Negate, vec![arg("data", 1)]),
            node(3, Operation::Negate, vec![arg("data", 1)]),
            node(4, scalar(1.0), vec![]),
        ],
    };
    assert_eq!(get_sinks(&two), set(&[2, 3, 4]));
}

#[test]
fn release_nodes_are_the_first_privatizers_below_the_sinks() {
    assert_eq!(get_release_nodes(&mean_graph(1.0, 0.0, 10.0)), set(&[5]));
    // A mean of a mean: the outer one hides the inner one.
    let mut nested = mean_graph(1.0, 0.0, 10.0);
    nested.graph.push(node(6, mean(1.0), statistic_arguments(5, 4, 2, 3)));
    assert_eq!(get_release_nodes(&nested), set(&[6]));
    // A sum of two means releases both.
    let mut both = mean_graph(1.0, 0.0, 10.0);
    both.graph.push(node(6, mean(1.0), statistic_arguments(1, 4, 2, 3)));
    both.graph.push(node(7, Operation::Add, vec![arg("left", 5), arg("right", 6)]));
    assert_eq!(get_release_nodes(&both), set(&[5, 6]));
    // Without a privatizer nothing is released.
    let plain = Analysis {
        graph: vec![node(1, scalar(1.0), vec![]), node(2, Operation::Negate, vec![arg("data", 1)])],
    };
    assert_eq!(get_release_nodes(&plain), set(&[]));
}

#[test]
fn release_nodes_of_a_ring_are_none() {
    assert_eq!(get_release_nodes(&ring()), set(&[]));
}

#[test]
fn privatizers_are_the_private_kernels() {
    assert!(is_privatizer(&node(1, mean(1.0), vec![])));
    assert!(is_privatizer(&node(
        1,
        Operation::DpVariance { epsilon: num(1.0), mechanism: Mechanism::Laplace },
        vec![]
    )));
    assert!(is_privatizer(&node(
        1,
        Operation::DpMomentRaw { epsilon: num(1.0), mechanism: Mechanism::Laplace, order: 2 },
        vec![]
    )));
    assert!(is_privatizer(&node(
        1,
        Operation::DpCovariance { epsilon: num(1.0), mechanism: Mechanism::Gaussian },
        vec![]
    )));
    assert!(!is_privatizer(&node(1, Operation::Add, vec![])));
    assert!(!is_privatizer(&node(1, scalar(1.0), vec![])));
    assert!(!is_privatizer(&node(1, source(), vec![])));
    assert!(NodeKind::DpHistogram.is_privatizer());
    assert!(!NodeKind::Negate.is_privatizer());
}

#[test]
fn nodes_and_arguments_are_found() {
    let analysis = mean_graph(1.0, 0.0, 10.0);
    assert_eq!(analysis.nodes().len(), 5);
    assert_eq!(analysis.get(5).unwrap().id, 5);
    assert!(analysis.get(6).is_none());
    assert_eq!(analysis.position(3), Some(2));
    let node = analysis.get(5).unwrap();
    assert_eq!(node.arguments().len(), 4);
    assert_eq!(node.argument("minimum").unwrap().source_node_id, 2);
    assert!(node.argument("median").is_none());
    assert_eq!(node.find_argument("maximum"), Some(3));
    assert_eq!(node.kind(), NodeKind::DpMean);
    assert_eq!(NodeKind::DpMean.required_arguments(), vec!["data", "num_records", "minimum", "maximum"]);
    assert_eq!(NodeKind::Add.required_arguments(), vec!["left", "right"]);
    assert!(NodeKind::Literal.required_arguments().is_empty());
    assert_eq!(analysis.declared_number(4, "minimum").map(|x| x.to_bits()), Some(0.0f64.to_bits()));
    assert!(analysis.declared_number(4, "data").is_none());
}

#[test]
fn mechanism_tags_are_read() {
    assert_eq!(Mechanism::from_i32(0), Mechanism::Laplace);
    assert_eq!(Mechanism::from_i32(1), Mechanism::Gaussian);
    assert_eq!(Mechanism::from_i32(2), Mechanism::Unknown);
    assert_eq!(Mechanism::from_i32(-1), Mechanism::Unknown);
}
