use std::collections::HashSet;

use dp_graph::binning::{bin_index, histogram, Edge};
use dp_graph::evaluator::project_release;
use dp_graph::graph::{Analysis, Argument, Component, Field, Mechanism, Operation};
use dp_graph::number::Binary64;
use dp_graph::reach::explore;
use dp_graph::release::{Entry, Release};
use dp_graph::schedule::evaluation_order;
use dp_graph::traversal::{is_cyclic, sort_nodes};
use dp_graph::validator::{get_release_nodes, get_sinks, validate_analysis};
use dp_graph::value::{Payload, Value};

/// A small generator, so that every run sees the same graphs.
struct Lcg(u64);

impl Lcg {
    fn next(&mut self) -> u64 {
        self.0 = self.0.wrapping_mul(6364136223846793005).wrapping_add(1442695040888963407);
        self.0 >> 33
    }

    fn below(&mut self, n: u64) -> u64 {
        self.next() % n
    }
}

fn num(x: f64) -> Binary64 {
    Binary64::from_bits(x.to_bits())
}

fn arg(name: &str, source: u32) -> Argument {
    Argument {
        name: name.to_string(),
        field: Field { source_node_id: source, source_field: "data".to_string() },
    }
}

fn scalar(x: f64) -> Value {
    Value { shape: vec![], data: Payload::F64(vec![num(x)]) }
}

/// A graph of `n` nodes with ids 10, 11, ...: literals, negations, sums and
/// means, whose arguments come from any node of the graph.
fn any_graph(rng: &mut Lcg, n: u32) -> Analysis {
    let mut graph = Vec::new();
    for k in 0..n {
        let pick = |rng: &mut Lcg| 10 + rng.below(n as u64) as u32;
        let node = match rng.below(4) {
            0 => Component {
                id: 10 + k,
                arguments: vec![],
                operation: Operation::Literal { value: scalar(1.0) },
            },
            1 => Component { id: 10 + k, arguments: vec![arg("data", pick(rng))], operation: Operation::Negate },
            2 => Component {
                id: 10 + k,
                arguments: vec![arg("left", pick(rng)), arg("right", pick(rng))],
                operation: Operation::Add,
            },
            _ => Component {
                id: 10 + k,
                arguments: vec![
                    arg("data", pick(rng)),
                    arg("num_records", pick(rng)),
                    arg("minimum", pick(rng)),
                    arg("maximum", pick(rng)),
                ],
                operation: Operation::DpMean { epsilon: num(1.0), mechanism: Mechanism::Laplace },
            },
        };
        graph.push(node);
    }
    Analysis { graph }
}

/// The same graph with every argument that goes to a node at the same or
/// a later position turned to an earlier one, or dropped for a literal.
fn forward_only(analysis: &Analysis) -> Analysis {
    let mut graph = Vec::new();
    for (k, node) in analysis.graph.iter().enumerate() {
        let id = node.id;
        if k == 0 {
            graph.push(Component { id, arguments: vec![], operation: Operation::Literal { value: scalar(1.0) } });
            continue;
        }
        let arguments: Vec<Argument> = node
            .arguments
            .iter()
            .map(|a| arg(a.name.as_str(), 10 + (a.field.source_node_id - 10) % (k as u32)))
            .collect();
        let operation = match &node.operation {
            Operation::Literal { .. } => Operation::Literal { value: scalar(1.0) },
            Operation::Negate => Operation::Negate,
            Operation::Add => Operation::Add,
            _ => Operation::DpMean { epsilon: num(1.0), mechanism: Mechanism::Laplace },
        };
        graph.push(Component { id, arguments, operation });
    }
    Analysis { graph }
}

fn edges_of(analysis: &Analysis) -> Vec<Vec<usize>> {
    analysis
        .graph
        .iter()
        .map(|node| node.arguments.iter().map(|a| (a.field.source_node_id - 10) as usize).collect())
        .collect()
}

/// Whether some node reaches itself, found by plain closure.
fn has_cycle(edges: &Vec<Vec<usize>>) -> bool {
    let n = edges.len();
    let mut reach = vec![vec![false; n]; n];
    for i in 0..n {
        for j in edges[i].iter() {
            reach[i][*j] = true;
        }
    }
    for k in 0..n {
        for i in 0..n {
            for j in 0..n {
                if reach[i][k] && reach[k][j] {
                    reach[i][j] = true;
                }
            }
        }
    }
    (0..n).any(|i| reach[i][i])
}

fn is_private(analysis: &Analysis, i: usize) -> bool {
    matches!(analysis.graph[i].operation, Operation::DpMean { .. })
}

/// The nodes reached from the roots without going beyond a stop.
fn reached(edges: &Vec<Vec<usize>>, roots: &Vec<bool>, stops: &Vec<bool>) -> Vec<bool> {
    let n = edges.len();
    let mut seen = roots.clone();
    let mut changed = true;
    while changed {
        changed = false;
        for i in 0..n {
            if seen[i] && !stops[i] {
                for j in edges[i].iter() {
                    if !seen[*j] {
                        seen[*j] = true;
                        changed = true;
                    }
                }
            }
        }
    }
    seen
}

#[test]
fn cycles_are_found_in_many_graphs() {
    let mut rng = Lcg(7);
    let mut cyclic = 0;
    let mut sound = 0;
    for round in 0..400 {
        let n = 1 + rng.below(7) as u32;
        let mut analysis = any_graph(&mut rng, n);
        if round % 2 == 0 {
            analysis = forward_only(&analysis);
        }
        let edges = edges_of(&analysis);
        let expected = has_cycle(&edges);
        assert_eq!(is_cyclic(&analysis), expected);
        match sort_nodes(&analysis) {
            Ok(order) => {
                assert!(!expected);
                sound += 1;
                let mut sorted = order.clone();
                sorted.sort();
                assert_eq!(sorted, (0..n as usize).collect::<Vec<usize>>());
                for (at, i) in order.iter().enumerate() {
                    for j in edges[*i].iter() {
                        assert!(order[..at].contains(j));
                    }
                }
            }
            Err((a, b)) => {
                assert!(expected);
                cyclic += 1;
                assert!(edges[a].contains(&b));
            }
        }
        let verdict = validate_analysis(&analysis);
        assert_eq!(verdict.valid, verdict.errors.is_empty());
        if expected {
            assert!(!verdict.valid);
        }
    }
    assert!(cyclic > 50);
    assert!(sound > 50);
}

#[test]
fn sinks_and_release_nodes_agree_with_plain_search() {
    let mut rng = Lcg(11);
    for round in 0..400 {
        let n = 1 + rng.below(7) as u32;
        let mut analysis = any_graph(&mut rng, n);
        if round % 2 == 0 {
            analysis = forward_only(&analysis);
        }
        let edges = edges_of(&analysis);
        let n = n as usize;
        let sinks: Vec<bool> = (0..n).map(|j| !edges.iter().any(|e| e.contains(&j))).collect();
        let expected: HashSet<u32> = (0..n).filter(|j| sinks[*j]).map(|j| 10 + j as u32).collect();
        assert_eq!(get_sinks(&analysis), expected);
        let stops: Vec<bool> = (0..n).map(|i| is_private(&analysis, i)).collect();
        let seen = reached(&edges, &sinks, &stops);
        assert_eq!(explore(&analysis, &sinks, &stops), seen);
        let expected: HashSet<u32> =
            (0..n).filter(|i| seen[*i] && stops[*i]).map(|i| 10 + i as u32).collect();
        assert_eq!(get_release_nodes(&analysis), expected);
    }
}

#[test]
fn the_order_of_evaluation_is_sound_in_many_graphs() {
    let mut rng = Lcg(13);
    let mut seen_some = 0;
    for _ in 0..600 {
        let n = 1 + rng.below(7) as u32;
        let analysis = forward_only(&any_graph(&mut rng, n));
        if !validate_analysis(&analysis).valid {
            continue;
        }
        let n = n as usize;
        let at_hand: Vec<bool> = (0..n).map(|_| rng.below(4) == 0).collect();
        let release = Release {
            values: (0..n)
                .filter(|i| at_hand[*i])
                .map(|i| Entry { node_id: 10 + i as u32, value: scalar(0.0) })
                .collect(),
        };
        let edges = edges_of(&analysis);
        let released = get_release_nodes(&analysis);
        let roots: Vec<bool> = (0..n).map(|i| released.contains(&(10 + i as u32)) && !at_hand[i]).collect();
        let seen = reached(&edges, &roots, &at_hand);
        let needed: Vec<usize> = (0..n).filter(|i| seen[*i] && !at_hand[*i]).collect();
        let order = evaluation_order(&analysis, &release);
        assert_eq!(order, evaluation_order(&analysis, &release));
        let mut sorted = order.clone();
        sorted.sort();
        assert_eq!(sorted, needed);
        for (at, i) in order.iter().enumerate() {
            for j in edges[*i].iter() {
                assert!(at_hand[*j] || order[..at].contains(j));
            }
            // Nothing earlier in the graph could have been taken instead.
            for earlier in 0..*i {
                if needed.contains(&earlier) && !order[..at].contains(&earlier) {
                    assert!(edges[earlier].iter().any(|j| !at_hand[*j] && !order[..at].contains(j)));
                }
            }
        }
        if !order.is_empty() {
            seen_some += 1;
        }
    }
    assert!(seen_some > 50);
}

#[test]
fn projection_agrees_with_a_filter() {
    let mut rng = Lcg(17);
    for _ in 0..200 {
        let n = rng.below(9) as usize;
        let ids: Vec<u32> = (0..n).map(|_| rng.below(6) as u32).collect();
        let keep: HashSet<u32> = (0..6).filter(|_| rng.below(2) == 0).collect();
        let release = Release {
            values: ids.iter().enumerate().map(|(k, id)| Entry { node_id: *id, value: scalar(k as f64) }).collect(),
        };
        let out = project_release(release, &keep);
        let got: Vec<(u32, u64)> = out
            .values
            .iter()
            .map(|e| match &e.value.data {
                Payload::F64(v) => (e.node_id, v[0].to_bits()),
                _ => panic!("wrong element type"),
            })
            .collect();
        let expected: Vec<(u32, u64)> = ids
            .iter()
            .enumerate()
            .filter(|(_, id)| keep.contains(id))
            .map(|(k, id)| (*id, (k as f64).to_bits()))
            .collect();
        assert_eq!(got, expected);
    }
}

#[test]
fn the_order_of_bit_patterns_is_the_order_of_numbers() {
    let mut rng = Lcg(19);
    let mut pattern = |rng: &mut Lcg| -> u64 {
        let wide = (rng.next() << 33) ^ (rng.next() << 11) ^ rng.next();
        match rng.below(8) {
            0 => wide & 0x800f_ffff_ffff_ffff,
            1 => wide | 0x7ff0_0000_0000_0000,
            2 => wide & 0x8000_0000_0000_0000,
            3 => (wide & 0x8000_0000_0000_0000) | 0x7ff0_0000_0000_0000,
            _ => wide,
        }
    };
    for _ in 0..20000 {
        let a = pattern(&mut rng);
        let b = pattern(&mut rng);
        let (x, y) = (f64::from_bits(a), f64::from_bits(b));
        let (p, q) = (Binary64::from_bits(a), Binary64::from_bits(b));
        assert_eq!(p.is_below(q), x < y);
        assert_eq!(p.is_at_most(q), x <= y);
        assert_eq!(p.is_same(q), x == y);
        assert_eq!(p.is_nan(), x.is_nan());
        assert_eq!(p.is_finite(), x.is_finite());
        assert_eq!(p.partial_cmp(&q), x.partial_cmp(&y));
        if !(y.is_nan() || x.is_nan()) {
            let (lo, hi) = if x <= y { (p, q) } else { (q, p) };
            let (flo, fhi) = if x <= y { (x, y) } else { (y, x) };
            let z = f64::from_bits(pattern(&mut rng));
            if !z.is_nan() {
                let got = f64::from_bits(Binary64::from_bits(z.to_bits()).clamp(lo, hi).to_bits());
                assert!(flo <= got && got <= fhi);
                let plain = if z < flo { flo } else if z > fhi { fhi } else { z };
                assert_eq!(got.to_bits(), plain.to_bits());
            }
        }
    }
}

#[test]
fn histograms_count_what_lies_between_the_edges() {
    let mut rng = Lcg(23);
    for _ in 0..300 {
        let bins = 1 + rng.below(6) as usize;
        let mut values: Vec<f64> = (0..bins + 1).map(|_| rng.below(20) as f64 / 2.0).collect();
        values.sort_by(|a, b| a.partial_cmp(b).unwrap());
        let edges: Vec<Edge> =
            values.iter().map(|x| Edge { value: num(*x), text: format!("{}", x) }).collect();
        let data: Vec<f64> = (0..rng.below(30)).map(|_| rng.below(24) as f64 / 2.0 - 1.0).collect();
        let numbers: Vec<Binary64> = data.iter().map(|x| num(*x)).collect();
        for flag in [true, false] {
            let h = histogram(&numbers, &edges, flag);
            assert_eq!(h.len(), bins);
            let inside = data.iter().filter(|x| values[0] <= **x && **x <= values[bins]).count();
            assert_eq!(h.iter().map(|b| b.count).sum::<usize>(), inside);
            for (j, b) in h.iter().enumerate() {
                let hits = numbers.iter().filter(|x| bin_index(**x, &edges, flag) == Some(j)).count();
                assert_eq!(b.count, hits);
            }
            for x in data.iter() {
                // The rule as it is written for one value.
                let mut expected = None;
                if !(*x < values[0] || *x > values[bins]) {
                    for j in 0..bins {
                        if *x < values[j + 1]
                            || (*x == values[j + 1] && !flag)
                            || (*x == values[j + 1] && j == bins - 1)
                        {
                            expected = Some(j);
                            break;
                        }
                    }
                }
                assert_eq!(bin_index(num(*x), &edges, flag), expected);
            }
        }
    }
}
