use std::collections::VecDeque;

use hydroflow::scheduled::graph::{HandoffId, Hydroflow, Scheduler, SubgraphData, SubgraphId};
use hydroflow::scheduled::graphviz::{DotClusterItem, DotStmt};
use hydroflow::scheduled::handoff::{CanReceive, Handoff, VecHandoff};

type H = VecHandoff<u64>;

fn two_stage_graph() -> (Hydroflow<H>, SubgraphId, SubgraphId) {
    let mut hf: Hydroflow<H> = Hydroflow::new();
    let (send, recv) = hf.make_edge("edge".to_owned());
    let source = hf.add_subgraph_n_m("source".to_owned(), vec![], vec![send]);
    let sink = hf.add_subgraph_stratified_n_m("sink".to_owned(), 1, vec![recv], vec![]);
    (hf, source, sink)
}

#[test]
fn added_subgraphs_are_scheduled_in_their_strata() {
    let (mut hf, source, sink) = two_stage_graph();
    assert_eq!(0, source.0);
    assert_eq!(1, sink.0);
    assert!(hf.subgraphs().iter().all(|d| d.is_scheduled));
    // Already scheduled, so scheduling again changes nothing.
    assert!(!hf.schedule(sink));
    assert_eq!(0, hf.try_recv_events(vec![source, sink]));
    // Stratum 0 runs first: the source.
    assert!(hf.next_stratum(vec![]));
    assert_eq!(Some(source), hf.take_next_subgraph());
    assert!(!hf.subgraphs()[source.0].is_scheduled);
    assert_eq!(None, hf.take_next_subgraph());
    // Then stratum 1: the sink.
    assert!(hf.next_stratum(vec![]));
    assert_eq!(Some(sink), hf.take_next_subgraph());
    assert_eq!(0, hf.current_epoch());
    assert_eq!(1, hf.current_stratum());
    // Nothing left: one full round past the last stratum, back to stratum 1, one epoch on.
    assert!(!hf.next_stratum(vec![]));
    assert_eq!(1, hf.current_epoch());
    assert_eq!(1, hf.current_stratum());
}

#[test]
fn wiring_is_recorded_on_both_sides() {
    let (hf, source, sink) = two_stage_graph();
    let handoff = &hf.handoffs()[0];
    assert_eq!("edge", handoff.name);
    assert_eq!(vec![source], handoff.preds);
    assert_eq!(vec![sink], handoff.succs);
    assert_eq!(1, hf.subgraphs()[sink.0].stratum);
    assert_eq!(0, hf.subgraphs()[sink.0].preds[0].0);
    assert_eq!(0, hf.subgraphs()[source.0].succs[0].0);
}

#[test]
fn scheduler_runs_strata_in_order_and_counts_epochs() {
    let mut subgraphs = vec![
        SubgraphData::new("a".to_owned(), 0, vec![], vec![], false),
        SubgraphData::new("b".to_owned(), 2, vec![], vec![], false),
    ];
    let mut s = Scheduler::new();
    assert!(s.schedule(SubgraphId(1), &mut subgraphs));
    assert!(!s.schedule(SubgraphId(1), &mut subgraphs));
    assert!(subgraphs[1].is_scheduled);
    // Stratum 0 is empty; the next stratum with work is 2, in the same epoch.
    assert!(s.next_stratum(vec![], &mut subgraphs));
    assert_eq!(Some(SubgraphId(1)), s.pop_current_stratum());
    assert_eq!(None, s.pop_current_stratum());
    // Scheduling `a` by an event: from stratum 2 the round wraps to stratum 0, a new epoch.
    assert!(s.next_stratum(vec![SubgraphId(0)], &mut subgraphs));
    assert_eq!(Some(SubgraphId(0)), s.pop_current_stratum());
    // Nothing left: a full round, one more epoch, and `false`.
    assert!(!s.next_stratum(vec![], &mut subgraphs));
}

#[test]
fn try_recv_events_counts_newly_scheduled() {
    let mut subgraphs = vec![
        SubgraphData::new("c".to_owned(), 0, vec![], vec![], false),
        SubgraphData::new("d".to_owned(), 1, vec![], vec![], false),
    ];
    let mut s = Scheduler::new();
    // `c` twice counts once; `d` is new.
    assert_eq!(2, s.try_recv_events(vec![SubgraphId(0), SubgraphId(0), SubgraphId(1)], &mut subgraphs));
    assert_eq!(Some(SubgraphId(0)), s.pop_current_stratum());
    assert!(s.next_stratum(vec![], &mut subgraphs));
    assert_eq!(Some(SubgraphId(1)), s.pop_current_stratum());
}

#[test]
fn successors_of_filled_handoffs_are_scheduled() {
    let (mut hf, source, sink) = two_stage_graph();
    assert!(hf.next_stratum(vec![]));
    assert_eq!(Some(source), hf.take_next_subgraph());
    // The source ran but wrote nothing: its successor is not scheduled again.
    hf.schedule_successors(source);
    assert!(hf.next_stratum(vec![]));
    assert_eq!(Some(sink), hf.take_next_subgraph());
    assert!(!hf.next_stratum(vec![]));
    // Now the source writes into its handoff: the sink is scheduled.
    let state = hf.handoff_state_mut(HandoffId(0));
    assert!(<H as Handoff>::is_bottom(state));
    let rest = <H as CanReceive<Option<u64>>>::give(state, Some(5));
    assert!(rest.is_none());
    assert_eq!(VecDeque::from(vec![5u64]), hf.handoffs()[0].state);
    hf.schedule_successors(source);
    assert!(hf.next_stratum(vec![]));
    assert_eq!(Some(sink), hf.take_next_subgraph());
}

/// Runs every scheduled subgraph, stratum by stratum, until none is left, calling `run` for
/// each subgraph taken.
fn run_available(hf: &mut Hydroflow<H>, mut run: impl FnMut(&mut Hydroflow<H>, SubgraphId)) {
    while hf.next_stratum(vec![]) {
        while let Some(sg_id) = hf.take_next_subgraph() {
            run(hf, sg_id);
            hf.schedule_successors(sg_id);
        }
    }
}

#[test]
fn test_doctest() {
    let mut output: Vec<usize> = Vec::new();
    let mut hf: Hydroflow<VecHandoff<usize>> = Hydroflow::new();
    let (loop_send_port, loop_recv_port) = hf.make_edge("loop handoff".to_owned());
    let (input_send_port, input_recv_port) = hf.make_edge("external input handoff".to_owned());
    let input_hid = input_send_port.handoff_id;
    let loop_hid = loop_recv_port.handoff_id;
    let incrementer = hf.add_subgraph_n_m(
        "incrementer".to_owned(),
        vec![input_recv_port, loop_recv_port],
        vec![loop_send_port],
    );
    // The external input: one item into the input handoff.
    let state = hf.handoff_state_mut(input_hid);
    <VecHandoff<usize> as CanReceive<Option<usize>>>::give(state, Some(1));

    let mut runs = 0;
    while hf.next_stratum(vec![]) {
        while let Some(sg_id) = hf.take_next_subgraph() {
            assert_eq!(incrementer, sg_id);
            runs += 1;
            let input_buffer = <VecHandoff<usize> as Handoff>::take_inner(hf.handoff_state_mut(input_hid));
            let loop_buffer = <VecHandoff<usize> as Handoff>::take_inner(hf.handoff_state_mut(loop_hid));
            for x in input_buffer.into_iter().chain(loop_buffer) {
                output.push(x);
                if x < 10 {
                    <VecHandoff<usize> as CanReceive<Option<usize>>>::give(
                        hf.handoff_state_mut(loop_hid),
                        Some(x + 1),
                    );
                }
            }
            hf.schedule_successors(sg_id);
        }
    }
    assert_eq!(&[1, 2, 3, 4, 5, 6, 7, 8, 9, 10], &*output);
    assert_eq!(10, runs);
}

#[test]
fn run_available_runs_each_scheduled_subgraph_once() {
    let (mut hf, source, sink) = two_stage_graph();
    let mut ran = Vec::new();
    run_available(&mut hf, |_, sg_id| ran.push(sg_id));
    assert_eq!(vec![source, sink], ran);
}

#[test]
fn graphviz_lists_clusters_then_handoff_statements() {
    let (hf, _, _) = two_stage_graph();
    let stmts = hf.graphviz();
    assert_eq!(2 + 3, stmts.len());
    match &stmts[0] {
        DotStmt::Cluster(c) => {
            assert_eq!("cluster_sg_0", c.id);
            assert_eq!(3, c.items.len());
            match &c.items[0] {
                DotClusterItem::Node(n) => {
                    assert_eq!("sg_0_hoff_0_send", n.id);
                    assert_eq!("label", n.attrs[0].key);
                    assert_eq!("\"H[0] send\"", n.attrs[0].value);
                },
                _ => panic!("expected a node"),
            }
            match &c.items[1] {
                DotClusterItem::Attr(a) => {
                    assert_eq!("label", a.key);
                    assert_eq!("\"SG[0]: source\"", a.value);
                },
                _ => panic!("expected an attribute"),
            }
            match &c.items[2] {
                DotClusterItem::Attr(a) => assert_eq!("rounded", a.value),
                _ => panic!("expected an attribute"),
            }
        },
        _ => panic!("expected a cluster"),
    }
    match &stmts[2] {
        DotStmt::Edge(e) => {
            assert_eq!("sg_0_hoff_0_send", e.from);
            assert_eq!("hoff_0", e.to);
        },
        _ => panic!("expected an edge"),
    }
    match &stmts[3] {
        DotStmt::Edge(e) => {
            assert_eq!("hoff_0", e.from);
            assert_eq!("sg_1_hoff_0_recv", e.to);
        },
        _ => panic!("expected an edge"),
    }
    match &stmts[4] {
        DotStmt::Node(n) => {
            assert_eq!("hoff_0", n.id);
            assert_eq!("\"H[0]: edge\"", n.attrs[0].value);
            assert_eq!("box", n.attrs[1].value);
        },
        _ => panic!("expected a node"),
    }
}
