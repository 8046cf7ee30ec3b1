use dp_graph::arithmetic::{integer_arithmetic, integer_negation, pair_fits};
use dp_graph::dispatch::{Fault, Kernel};
use dp_graph::evaluator::start;
use dp_graph::graph::{Analysis, Argument, Component, Field, NodeKind, Operation};
use dp_graph::number::Binary64;
use dp_graph::release::{Entry, Release};
use dp_graph::value::{same_shape, volume_of, ElementType, Payload, Value};

fn ints(shape: &[usize], data: &[i64]) -> Value {
    Value { shape: shape.to_vec(), data: Payload::I64(data.to_vec()) }
}

fn unpack(v: Value) -> (Vec<usize>, Vec<i64>) {
    match v.data {
        Payload::I64(d) => (v.shape, d),
        _ => panic!("not integers"),
    }
}

fn run(op: NodeKind, l: &Value, r: &Value) -> (Vec<usize>, Vec<i64>) {
    unpack(integer_arithmetic(op, l, r).unwrap())
}

#[test]
fn arrays_of_one_shape_are_combined_place_by_place() {
    let l = ints(&[3], &[1, 2, 3]);
    let r = ints(&[3], &[10, 20, 30]);
    assert_eq!(run(NodeKind::Add, &l, &r), (vec![3], vec![11, 22, 33]));
    assert_eq!(run(NodeKind::Subtract, &l, &r), (vec![3], vec![-9, -18, -27]));
    assert_eq!(run(NodeKind::Multiply, &l, &r), (vec![3], vec![10, 40, 90]));
    assert_eq!(run(NodeKind::Divide, &r, &l), (vec![3], vec![10, 10, 10]));
}

#[test]
fn a_single_element_meets_every_element() {
    let l = ints(&[3], &[1, 2, 3]);
    assert_eq!(run(NodeKind::Multiply, &l, &ints(&[], &[2])), (vec![3], vec![2, 4, 6]));
    assert_eq!(run(NodeKind::Multiply, &l, &ints(&[1], &[2])), (vec![3], vec![2, 4, 6]));
    assert_eq!(run(NodeKind::Subtract, &ints(&[], &[10]), &l), (vec![3], vec![9, 8, 7]));
    assert_eq!(run(NodeKind::Add, &l, &ints(&[1, 1], &[5])), (vec![1, 3], vec![6, 7, 8]));
    assert_eq!(run(NodeKind::Add, &ints(&[], &[1]), &ints(&[], &[2])), (vec![], vec![3]));
}

#[test]
fn shapes_are_broadcast() {
    let table = ints(&[2, 3], &[1, 2, 3, 4, 5, 6]);
    let row = ints(&[3], &[10, 20, 30]);
    assert_eq!(run(NodeKind::Add, &table, &row), (vec![2, 3], vec![11, 22, 33, 14, 25, 36]));
    assert_eq!(run(NodeKind::Subtract, &row, &table), (vec![2, 3], vec![9, 18, 27, 6, 15, 24]));
    let column = ints(&[2, 1], &[100, 200]);
    assert_eq!(run(NodeKind::Add, &table, &column), (vec![2, 3], vec![101, 102, 103, 204, 205, 206]));
    assert_eq!(
        run(NodeKind::Multiply, &column, &ints(&[1, 3], &[1, 2, 3])),
        (vec![2, 3], vec![100, 200, 300, 200, 400, 600])
    );
}

#[test]
fn quotients_are_rounded_towards_zero() {
    let l = ints(&[4], &[7, -7, 7, -7]);
    let r = ints(&[4], &[2, 2, -2, -2]);
    assert_eq!(run(NodeKind::Divide, &l, &r), (vec![4], vec![3, -3, -3, 3]));
    assert_eq!(run(NodeKind::Divide, &ints(&[1], &[i64::MIN]), &ints(&[1], &[1])), (vec![1], vec![i64::MIN]));
}

#[test]
fn what_does_not_fit_is_a_domain_fault() {
    let max = ints(&[1], &[i64::MAX]);
    let min = ints(&[1], &[i64::MIN]);
    let one = ints(&[1], &[1]);
    let minus_one = ints(&[1], &[-1]);
    let zero = ints(&[1], &[0]);
    assert_eq!(integer_arithmetic(NodeKind::Add, &max, &one).err(), Some(Fault::Domain));
    assert_eq!(integer_arithmetic(NodeKind::Subtract, &min, &one).err(), Some(Fault::Domain));
    assert_eq!(integer_arithmetic(NodeKind::Multiply, &max, &ints(&[1], &[2])).err(), Some(Fault::Domain));
    assert_eq!(integer_arithmetic(NodeKind::Multiply, &min, &minus_one).err(), Some(Fault::Domain));
    assert_eq!(integer_arithmetic(NodeKind::Divide, &min, &minus_one).err(), Some(Fault::Domain));
    assert_eq!(integer_arithmetic(NodeKind::Divide, &one, &zero).err(), Some(Fault::Domain));
    assert_eq!(
        integer_arithmetic(NodeKind::Divide, &ints(&[2, 2], &[1, 2, 3, 4]), &ints(&[2], &[1, 0])).err(),
        Some(Fault::Domain)
    );
    assert_eq!(run(NodeKind::Add, &max, &minus_one), (vec![1], vec![i64::MAX - 1]));
    assert_eq!(run(NodeKind::Multiply, &min, &one), (vec![1], vec![i64::MIN]));
    assert_eq!(run(NodeKind::Subtract, &max, &max), (vec![1], vec![0]));
}

#[test]
fn elements_at_one_place_need_only_fit_each_other() {
    let l = ints(&[2], &[i64::MAX, 0]);
    let r = ints(&[2], &[0, 1]);
    assert_eq!(run(NodeKind::Add, &l, &r), (vec![2], vec![i64::MAX, 1]));
    let l = ints(&[2], &[i64::MIN, 8]);
    let r = ints(&[2], &[1, -1]);
    assert_eq!(run(NodeKind::Divide, &l, &r), (vec![2], vec![i64::MIN, -8]));
}

#[test]
fn broadcast_products_are_judged_by_their_extremes() {
    let l = ints(&[2, 2], &[-3, 2, 5, -1]);
    let r = ints(&[2], &[i64::MAX / 5, -(i64::MAX / 5)]);
    let (shape, data) = run(NodeKind::Multiply, &l, &r);
    assert_eq!(shape, vec![2, 2]);
    assert_eq!(data[2], 5 * (i64::MAX / 5));
    let r = ints(&[2], &[i64::MAX / 4, 1]);
    assert_eq!(integer_arithmetic(NodeKind::Multiply, &l, &r).err(), Some(Fault::Domain));
}

#[test]
fn other_types_and_operations_are_a_type_fault() {
    let whole = ints(&[1], &[1]);
    let number = Value { shape: vec![1], data: Payload::F64(vec![Binary64::from_bits(0)]) };
    assert_eq!(integer_arithmetic(NodeKind::Add, &whole, &number).err(), Some(Fault::Type));
    assert_eq!(integer_arithmetic(NodeKind::Add, &number, &whole).err(), Some(Fault::Type));
    assert_eq!(integer_arithmetic(NodeKind::Power, &whole, &whole).err(), Some(Fault::Type));
    assert_eq!(integer_arithmetic(NodeKind::Negate, &whole, &whole).err(), Some(Fault::Type));
    assert_eq!(integer_negation(&number).err(), Some(Fault::Type));
}

#[test]
fn shapes_that_do_not_conform_are_a_shape_fault() {
    assert_eq!(
        integer_arithmetic(NodeKind::Add, &ints(&[2], &[1, 2]), &ints(&[3], &[1, 2, 3])).err(),
        Some(Fault::Shape)
    );
    assert_eq!(
        integer_arithmetic(NodeKind::Add, &ints(&[3], &[1, 2]), &ints(&[1], &[1])).err(),
        Some(Fault::Shape)
    );
    assert_eq!(
        integer_arithmetic(NodeKind::Add, &ints(&[1], &[1]), &ints(&[], &[])).err(),
        Some(Fault::Shape)
    );
}

#[test]
fn empty_arrays_give_empty_arrays() {
    assert_eq!(run(NodeKind::Add, &ints(&[0], &[]), &ints(&[1], &[5])), (vec![0], vec![]));
    assert_eq!(run(NodeKind::Divide, &ints(&[0], &[]), &ints(&[], &[0])), (vec![0], vec![]));
    assert_eq!(run(NodeKind::Add, &ints(&[2, 0], &[]), &ints(&[0], &[])), (vec![2, 0], vec![]));
}

#[test]
fn negation_negates_each_element() {
    assert_eq!(
        unpack(integer_negation(&ints(&[2, 2], &[1, -2, 0, i64::MAX])).unwrap()),
        (vec![2, 2], vec![-1, 2, 0, -i64::MAX])
    );
    assert_eq!(integer_negation(&ints(&[2], &[1, i64::MIN])).err(), Some(Fault::Domain));
    assert_eq!(unpack(integer_negation(&ints(&[0], &[])).unwrap()), (vec![0], vec![]));
}

#[test]
fn single_results_are_judged() {
    assert!(pair_fits(NodeKind::Add, 1, 2));
    assert!(!pair_fits(NodeKind::Add, i64::MAX, 1));
    assert!(!pair_fits(NodeKind::Subtract, i64::MIN, 1));
    assert!(!pair_fits(NodeKind::Multiply, i64::MIN, -1));
    assert!(pair_fits(NodeKind::Divide, i64::MIN, 1));
    assert!(!pair_fits(NodeKind::Divide, i64::MIN, -1));
    assert!(!pair_fits(NodeKind::Divide, 5, 0));
}

#[test]
fn volumes_and_shapes_are_compared() {
    assert_eq!(volume_of(&vec![]), Some(1));
    assert_eq!(volume_of(&vec![2, 3, 4]), Some(24));
    assert_eq!(volume_of(&vec![usize::MAX, 0]), Some(0));
    assert_eq!(volume_of(&vec![usize::MAX, 2]), None);
    assert!(same_shape(&vec![1, 2], &vec![1, 2]));
    assert!(!same_shape(&vec![1, 2], &vec![2, 1]));
    assert!(!same_shape(&vec![1], &vec![1, 1]));
    assert!(same_shape(&vec![], &vec![]));
}

#[test]
fn a_value_is_copied() {
    let v = Value { shape: vec![2], data: Payload::Str(vec!["a".to_string(), "b".to_string()]) };
    let c = v.copy();
    assert_eq!(c.shape, vec![2]);
    match c.data {
        Payload::Str(s) => assert_eq!(s, vec!["a", "b"]),
        _ => panic!("wrong element type"),
    }
    assert_eq!(unpack(ints(&[2], &[4, 5]).copy()), (vec![2], vec![4, 5]));
    assert_eq!(ints(&[2], &[4, 5]).copy().element_type(), ElementType::I64);
}

#[test]
fn the_evaluator_runs_literals_and_integers_itself() {
    let arg = |name: &str, source: u32| Argument {
        name: name.to_string(),
        field: Field { source_node_id: source, source_field: "data".to_string() },
    };
    let analysis = Analysis {
        graph: vec![
            Component { id: 1, arguments: vec![], operation: Operation::Literal { value: ints(&[2], &[3, 4]) } },
            Component { id: 2, arguments: vec![arg("left", 1), arg("right", 1)], operation: Operation::Add },
            Component { id: 3, arguments: vec![arg("data", 2)], operation: Operation::Negate },
        ],
    };
    let evaluation = start(&analysis, Release::new()).unwrap();
    match evaluation.compute(&analysis, 0, &Kernel::Literal) {
        Some(Ok(v)) => assert_eq!(unpack(v), (vec![2], vec![3, 4])),
        _ => panic!("the literal was not computed"),
    }
    assert!(evaluation.compute(&analysis, 1, &Kernel::Literal).is_none());
    let mut evaluation = evaluation;
    evaluation.evaluated = Release {
        values: vec![
            Entry { node_id: 1, value: ints(&[2], &[3, 4]) },
            Entry { node_id: 2, value: ints(&[2], &[6, 8]) },
        ],
    };
    let add = Kernel::Arithmetic { operation: NodeKind::Add, element_type: ElementType::I64, left: 1, right: 2 };
    match evaluation.compute(&analysis, 1, &add) {
        Some(Ok(v)) => assert_eq!(unpack(v), (vec![2], vec![9, 12])),
        _ => panic!("the sum was not computed"),
    }
    let negate = Kernel::Negate { element_type: ElementType::I64, data: 2 };
    match evaluation.compute(&analysis, 2, &negate) {
        Some(Ok(v)) => assert_eq!(unpack(v), (vec![2], vec![-6, -8])),
        _ => panic!("the negation was not computed"),
    }
    let numbers = Kernel::Arithmetic { operation: NodeKind::Add, element_type: ElementType::F64, left: 1, right: 2 };
    assert!(evaluation.compute(&analysis, 1, &numbers).is_none());
    let missing = Kernel::Negate { element_type: ElementType::I64, data: 9 };
    assert!(evaluation.compute(&analysis, 2, &missing).is_none());
    assert!(evaluation.compute(&analysis, 0, &Kernel::Ingest { datatype: ElementType::I64 }).is_none());
}
