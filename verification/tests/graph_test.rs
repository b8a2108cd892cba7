use daw::graph::{AudioGraph, GraphError};
use petgraph::graph::{DiGraph, NodeIndex};

fn position(order: &[usize], node: usize) -> usize {
    order.iter().position(|&n| n == node).expect("node in order")
}

#[test]
fn graph_chain_schedules_in_order() {
    let mut graph = AudioGraph::new(64);
    let source = graph.add_node();
    let gain = graph.add_node();
    let master = graph.add_node();
    assert_eq!((source, gain, master), (0, 1, 2));

    graph.connect(source, gain).unwrap();
    graph.connect(gain, master).unwrap();

    let steps = graph.schedule().unwrap();
    let order: Vec<usize> = steps.iter().map(|s| s.node).collect();
    assert_eq!(order, vec![0, 1, 2]);
    assert!(steps[0].inputs.is_empty());
    assert_eq!(steps[1].inputs, vec![0]);
    assert_eq!(steps[2].inputs, vec![1]);
}

#[test]
fn graph_refuses_cycles_and_keeps_graph() {
    let mut graph = AudioGraph::new(64);
    let a = graph.add_node();
    let b = graph.add_node();
    let c = graph.add_node();
    graph.connect(a, b).unwrap();
    graph.connect(b, c).unwrap();
    assert_eq!(graph.connect(c, a), Err(GraphError::CycleDetected));
    assert_eq!(graph.connect(b, a), Err(GraphError::CycleDetected));
    assert_eq!(graph.connect(b, b), Err(GraphError::CycleDetected));

    let steps = graph.schedule().unwrap();
    let order: Vec<usize> = steps.iter().map(|s| s.node).collect();
    assert_eq!(order, vec![a, b, c]);
    assert_eq!(steps[0].inputs, Vec::<usize>::new());
    assert_eq!(steps[1].inputs, vec![a]);
    assert_eq!(steps[2].inputs, vec![b]);
}

#[test]
fn graph_mixer_gets_every_input_once_per_connection() {
    let mut graph = AudioGraph::new(32);
    let s1 = graph.add_node();
    let s2 = graph.add_node();
    let mix = graph.add_node();
    graph.connect(s2, mix).unwrap();
    graph.connect(s1, mix).unwrap();
    graph.connect(s1, mix).unwrap();
    let steps = graph.schedule().unwrap();
    let mix_step = steps.iter().find(|s| s.node == mix).unwrap();
    let mut inputs = mix_step.inputs.clone();
    inputs.sort();
    assert_eq!(inputs, vec![s1, s1, s2]);
    let order: Vec<usize> = steps.iter().map(|s| s.node).collect();
    assert!(position(&order, s1) < position(&order, mix));
    assert!(position(&order, s2) < position(&order, mix));
}

#[test]
fn graph_empty_and_block_len() {
    let graph = AudioGraph::new(256);
    assert!(graph.schedule().unwrap().is_empty());
    assert_eq!(graph.block_len(0), 256);
    assert_eq!(graph.block_len(64), 64);
}

#[test]
fn graph_error_messages() {
    assert_eq!(GraphError::CycleDetected.message(), "Cycle detected in audio graph");
    assert_eq!(GraphError::NodeNotFound.message(), "Node not found");
    assert_eq!(GraphError::InvalidConnection.message(), "Invalid connection");
}

#[test]
fn graph_random_dags_stay_acyclic() {
    // Adversarial topologies built from a fixed byte pattern: every accepted
    // connection runs forward in the schedule.
    let data: Vec<u8> = (0u32..200).map(|i| ((i * 37 + 11) % 251) as u8).collect();
    for round in 0..20usize {
        let num_nodes = (data[round] % 8 + 1) as usize;
        let mut graph = AudioGraph::new(128);
        let nodes: Vec<usize> = (0..num_nodes).map(|_| graph.add_node()).collect();
        let mut accepted = Vec::new();
        for i in 0..num_nodes * 2 {
            let from = nodes[(data[(round * 7 + i) % data.len()] as usize) % num_nodes];
            let to = nodes[(data[(round * 11 + i + 3) % data.len()] as usize) % num_nodes];
            if graph.connect(from, to).is_ok() {
                accepted.push((from, to));
            }
        }
        let steps = graph.schedule().unwrap();
        let order: Vec<usize> = steps.iter().map(|s| s.node).collect();
        assert_eq!(order.len(), num_nodes);
        for (from, to) in accepted {
            assert!(from != to);
            assert!(position(&order, from) < position(&order, to));
        }
    }
}

#[test]
fn graph_schedule_follows_petgraph_order() {
    let edges = [(0usize, 3usize), (1, 3), (2, 3), (3, 4), (0, 4), (2, 1)];
    let mut g = AudioGraph::new(64);
    let mut reference: DiGraph<(), ()> = DiGraph::new();
    for _ in 0..5 {
        g.add_node();
        reference.add_node(());
    }
    for &(a, b) in edges.iter() {
        g.connect(a, b).unwrap();
        reference.add_edge(NodeIndex::new(a), NodeIndex::new(b), ());
    }
    let expected: Vec<usize> =
        petgraph::algo::toposort(&reference, None).unwrap().into_iter().map(|n| n.index()).collect();
    let steps = g.schedule().unwrap();
    let order: Vec<usize> = steps.iter().map(|s| s.node).collect();
    assert_eq!(order, expected);
    for s in &steps {
        let inputs: Vec<usize> = reference
            .neighbors_directed(NodeIndex::new(s.node), petgraph::Direction::Incoming)
            .map(|n| n.index())
            .collect();
        assert_eq!(s.inputs, inputs);
    }
}
