//! The operator graph of a surface-syntax dataflow program.
//!
//! A program is a list of statements; each statement is a pipeline, possibly given a name.
//! A pipeline is an operator, a reference to a named pipeline, or a chain of pipelines joined
//! by arrows. Building the graph adds one operator per operator occurrence and, for each arrow
//! in a chain, an edge from the output of the left pipeline to the input of the right one,
//! on the ports the arrow names or, by default, on the next free port numbers.
use vstd::prelude::*;

use crate::text::{concat_all, decimal, push_decimal, push_str, push_char};
use crate::util::slot_map::{Key, KeyData, SlotMap};
use vstd::string::StrSliceExecFns;

verus! {

/// An arrow between two pipelines of a chain, with its optional port numbers.
#[derive(Clone, Copy, Debug)]
pub struct Arrow {
    /// The output port of the left pipeline, if given.
    pub src: Option<u64>,
    /// The input port of the right pipeline, if given.
    pub dst: Option<u64>,
}

/// An operator occurrence.
pub struct Operator {
    /// The operator's name (its path).
    pub name: String,
    /// The operator's source text.
    pub text: String,
}

/// A pipeline of a chain and the arrow that follows it.
pub struct ChainElem {
    /// The pipeline.
    pub pipeline: Pipeline,
    /// The arrow after it; present for every element but the last.
    pub arrow: Option<Arrow>,
}

/// A pipeline.
pub enum Pipeline {
    /// Pipelines joined by arrows.
    Chain(Vec<ChainElem>),
    /// A reference to a named pipeline.
    Name(String),
    /// A single operator.
    Operator(Operator),
}

/// A statement of a program.
pub enum HfStatement {
    /// `name = pipeline;`
    Named(String, Pipeline),
    /// `pipeline;`
    Pipeline(Pipeline),
}

/// A program: a list of statements.
pub struct HfCode {
    /// The statements, in order.
    pub statements: Vec<HfStatement>,
}

/// The id of an operator in its graph.
#[derive(Clone, Copy, Debug, PartialEq, Eq, Structural)]
pub struct OperatorId(pub usize);

impl Key for OperatorId {
    open spec fn index(self) -> usize {
        self.0
    }

    fn from_key_data(data: KeyData) -> (r: Self) {
        OperatorId(data.0)
    }

    fn into_usize(self) -> (r: usize) {
        self.0
    }
}

/// The operators where a pipeline receives its input and emits its output.
#[derive(Clone, Copy, Debug)]
pub struct Ports {
    /// The input operator, if any.
    pub inn: Option<OperatorId>,
    /// The output operator, if any.
    pub out: Option<OperatorId>,
}

/// An edge end stored at an operator: on `port`, connected to port `op_port` of `op`.
#[derive(Clone, Copy, Debug)]
pub struct PortEdge {
    /// This operator's port.
    pub port: u64,
    /// The operator at the other end.
    pub op: OperatorId,
    /// The other operator's port.
    pub op_port: u64,
}

/// An operator of the graph with its connections, by port.
pub struct OpInfo {
    /// The operator.
    pub operator: Operator,
    /// Input connections; no port occurs twice.
    pub preds: Vec<PortEdge>,
    /// Output connections; no port occurs twice.
    pub succs: Vec<PortEdge>,
}

/// A problem found in a program.
pub enum GraphDiagnostic {
    /// A second connection on the same output (`output`) or input port replaced the first.
    PortConflict { output: bool, port: u64 },
    /// A name was used before any pipeline was given that name.
    UnknownName(String),
    /// An operator name that no operator has.
    UnknownOperator(String),
    /// An operator has a number of inputs outside its allowed range `min..=max`
    /// (no `max`: unbounded).
    InputCount { op: String, count: usize, min: usize, max: Option<usize> },
    /// An operator has a number of outputs outside its allowed range.
    OutputCount { op: String, count: usize, min: usize, max: Option<usize> },
}

/// An operator, as text.
#[verifier::ext_equal]
pub struct OpView {
    /// The operator's name.
    pub name: Seq<char>,
    /// The operator's source text.
    pub text: Seq<char>,
    /// Input connections.
    pub preds: Seq<PortEdge>,
    /// Output connections.
    pub succs: Seq<PortEdge>,
}

/// A diagnostic, as text.
pub enum DiagView {
    /// See [`GraphDiagnostic::PortConflict`].
    PortConflict(bool, u64),
    /// See [`GraphDiagnostic::UnknownName`].
    UnknownName(Seq<char>),
    /// See [`GraphDiagnostic::UnknownOperator`].
    UnknownOperator(Seq<char>),
    /// See [`GraphDiagnostic::InputCount`].
    InputCount(Seq<char>, usize, usize, Option<usize>),
    /// See [`GraphDiagnostic::OutputCount`].
    OutputCount(Seq<char>, usize, usize, Option<usize>),
}

/// The graph, as text: operators by id, named pipelines in the order they were named (a
/// later name hides an earlier one), and the diagnostics so far.
#[verifier::ext_equal]
pub struct GraphView {
    /// Operators, by id.
    pub ops: Seq<OpView>,
    /// Named pipelines.
    pub names: Seq<(Seq<char>, Ports)>,
    /// Diagnostics, in the order they arose.
    pub diags: Seq<DiagView>,
}

/// An operator as text.
pub open spec fn op_view(o: OpInfo) -> OpView {
    OpView { name: o.operator.name@, text: o.operator.text@, preds: o.preds@, succs: o.succs@ }
}

/// A diagnostic as text.
pub open spec fn diag_view(d: GraphDiagnostic) -> DiagView {
    match d {
        GraphDiagnostic::PortConflict { output, port } => DiagView::PortConflict(output, port),
        GraphDiagnostic::UnknownName(n) => DiagView::UnknownName(n@),
        GraphDiagnostic::UnknownOperator(n) => DiagView::UnknownOperator(n@),
        GraphDiagnostic::InputCount { op, count, min, max } => DiagView::InputCount(op@, count, min, max),
        GraphDiagnostic::OutputCount { op, count, min, max } => DiagView::OutputCount(op@, count, min, max),
    }
}

/// Diagnostics as text.
pub open spec fn diags_view(ds: Seq<GraphDiagnostic>) -> Seq<DiagView> {
    ds.map_values(|d: GraphDiagnostic| diag_view(d))
}

/// No input or output.
pub open spec fn no_ports() -> Ports {
    Ports { inn: None, out: None }
}

/// The ports most recently given the name `n`, if any.
pub open spec fn lookup_name(names: Seq<(Seq<char>, Ports)>, n: Seq<char>) -> Option<Ports>
    decreases names.len(),
{
    if names.len() == 0 {
        None
    } else if names.last().0 == n {
        Some(names.last().1)
    } else {
        lookup_name(names.drop_last(), n)
    }
}

/// Whether some connection of `s` is on `port`.
pub open spec fn has_port(s: Seq<PortEdge>, port: u64) -> bool {
    exists|i: int| 0 <= i < s.len() && (#[trigger] s[i]).port == port
}

/// The connections of `s` that are not on `port`, in order.
pub open spec fn without_port(s: Seq<PortEdge>, port: u64) -> Seq<PortEdge>
    decreases s.len(),
{
    if s.len() == 0 {
        s
    } else {
        let r = without_port(s.drop_last(), port);
        if s.last().port == port {
            r
        } else {
            r.push(s.last())
        }
    }
}

/// Storing connection `e` at operator `o`, as an output (`output`) or an input: a connection
/// already on that port is replaced, and the replacement is recorded as a conflict.
pub open spec fn put_edge(g: GraphView, o: int, e: PortEdge, output: bool) -> GraphView {
    let op = g.ops[o];
    let s = if output { op.succs } else { op.preds };
    let diags = if has_port(s, e.port) {
        g.diags.push(DiagView::PortConflict(output, e.port))
    } else {
        g.diags
    };
    let s2 = without_port(s, e.port).push(e);
    let op2 = if output {
        OpView { succs: s2, ..op }
    } else {
        OpView { preds: s2, ..op }
    };
    GraphView { ops: g.ops.update(o, op2), diags, ..g }
}

/// No port of `s` holds two connections.
pub open spec fn ports_unique(s: Seq<PortEdge>) -> bool {
    forall|i: int, j: int| 0 <= i < s.len() && 0 <= j < s.len() && i != j ==> #[trigger] s[i].port != #[trigger] s[j].port
}

/// Every operator holds at most one connection per input port and per output port.
pub open spec fn ops_ports_unique(ops: Seq<OpView>) -> bool {
    forall|o: int| 0 <= o < ops.len() ==> ports_unique(#[trigger] ops[o].preds) && ports_unique(ops[o].succs)
}

/// Removing the connections on `port` leaves none on it, keeps the others in order, and keeps
/// ports unique.
pub proof fn lemma_without_port(s: Seq<PortEdge>, port: u64)
    ensures
        forall|i: int| 0 <= i < without_port(s, port).len() ==> (#[trigger] without_port(s, port)[i]).port != port,
        forall|i: int| 0 <= i < without_port(s, port).len() ==> s.contains(#[trigger] without_port(s, port)[i]),
        ports_unique(s) ==> ports_unique(without_port(s, port)),
    decreases s.len(),
{
    if s.len() > 0 {
        let rest = s.drop_last();
        lemma_without_port(rest, port);
        let r = without_port(rest, port);
        let w = without_port(s, port);
        assert forall|i: int| 0 <= i < w.len() implies s.contains(#[trigger] w[i]) by {
            if i < r.len() {
                assert(w[i] == r[i]);
                let k = choose|k: int| 0 <= k < rest.len() && rest[k] == r[i];
                assert(s[k] == rest[k]);
            } else {
                assert(w[i] == s.last());
                assert(s[s.len() - 1] == s.last());
            }
        }
        if ports_unique(s) {
            assert(ports_unique(rest)) by {
                assert forall|i: int, j: int| 0 <= i < rest.len() && 0 <= j < rest.len() && i != j implies
                    #[trigger] rest[i].port != #[trigger] rest[j].port by {
                    assert(rest[i] == s[i]);
                    assert(rest[j] == s[j]);
                }
            }
            if s.last().port != port {
                assert forall|i: int, j: int| 0 <= i < w.len() && 0 <= j < w.len() && i != j implies
                    #[trigger] w[i].port != #[trigger] w[j].port by {
                    if i < r.len() && j < r.len() {
                        assert(w[i] == r[i]);
                        assert(w[j] == r[j]);
                    } else if i < r.len() {
                        assert(w[i] == r[i]);
                        let k = choose|k: int| 0 <= k < rest.len() && rest[k] == r[i];
                        assert(s[k] == rest[k]);
                        assert(s[s.len() - 1] == w[j]);
                    } else {
                        assert(w[j] == r[j]);
                        let k = choose|k: int| 0 <= k < rest.len() && rest[k] == r[j];
                        assert(s[k] == rest[k]);
                        assert(s[s.len() - 1] == w[i]);
                    }
                }
            }
        }
    }
}

/// Storing a connection keeps every operator's ports unique.
pub proof fn lemma_put_edge_unique(g: GraphView, o: int, e: PortEdge, output: bool)
    requires
        0 <= o < g.ops.len(),
        ops_ports_unique(g.ops),
    ensures
        ops_ports_unique(put_edge(g, o, e, output).ops),
        put_edge(g, o, e, output).ops.len() == g.ops.len(),
{
    let op = g.ops[o];
    let s = if output { op.succs } else { op.preds };
    lemma_without_port(s, e.port);
    let w = without_port(s, e.port);
    let s2 = w.push(e);
    assert(ports_unique(s2)) by {
        assert forall|i: int, j: int| 0 <= i < s2.len() && 0 <= j < s2.len() && i != j implies
            #[trigger] s2[i].port != #[trigger] s2[j].port by {
            if i < w.len() {
                assert(s2[i] == w[i]);
            }
            if j < w.len() {
                assert(s2[j] == w[j]);
            }
        }
    }
    let g2 = put_edge(g, o, e, output);
    assert forall|k: int| 0 <= k < g2.ops.len() implies ports_unique(#[trigger] g2.ops[k].preds) && ports_unique(g2.ops[k].succs) by {
        if k != o {
            assert(g2.ops[k] == g.ops[k]);
        }
    }
}

/// Joining a pipeline with ports `curr` through `arrow` to a pipeline with ports `next`: when
/// the left has an output and the right an input, connect them on the arrow's ports, or by
/// default on the output's and the input's next port numbers.
pub open spec fn connect(g: GraphView, curr: Ports, arrow: Arrow, next: Ports) -> GraphView {
    match (curr.out, next.inn) {
        (Some(out), Some(inn)) => {
            let src = match arrow.src {
                Some(p) => p,
                None => g.ops[out.0 as int].succs.len() as u64,
            };
            let dst = match arrow.dst {
                Some(p) => p,
                None => g.ops[inn.0 as int].preds.len() as u64,
            };
            let g1 = put_edge(g, out.0 as int, PortEdge { port: src, op: inn, op_port: dst }, true);
            put_edge(g1, inn.0 as int, PortEdge { port: dst, op: out, op_port: src }, false)
        },
        _ => g,
    }
}

/// Combining the first `n` (at least one) elements of a chain, left to right: each step
/// connects the pipeline so far to the next element, through the arrow after the pipeline so
/// far.
pub open spec fn reduce_chain(g: GraphView, results: Seq<(Ports, Option<Arrow>)>, n: nat) -> (GraphView, (Ports, Option<Arrow>))
    decreases n,
{
    if n <= 1 {
        (g, results[0])
    } else {
        let prev = reduce_chain(g, results, (n - 1) as nat);
        let curr = prev.1;
        let next = results[n - 1];
        (
            connect(prev.0, curr.0, curr.1->0, next.0),
            (Ports { inn: curr.0.inn, out: next.0.out }, next.1),
        )
    }
}

/// The number of elements of a chain, or zero.
pub open spec fn full_len(p: Pipeline) -> nat {
    match p {
        Pipeline::Chain(elems) => elems@.len(),
        _ => 0,
    }
}

/// The operator that a pipeline adds to the graph.
pub open spec fn new_op(op: Operator) -> OpView {
    OpView { name: op.name@, text: op.text@, preds: Seq::empty(), succs: Seq::empty() }
}

/// Finishing a pipeline once its nested pipelines (`built`, from graph `g`) are added:
/// a chain combines its elements (no elements: no ports); a name gives the named ports or
/// records that the name is unknown; an operator adds itself.
pub open spec fn finish(p: Pipeline, g: GraphView, built: (GraphView, Seq<(Ports, Option<Arrow>)>)) -> (GraphView, Ports) {
    match p {
        Pipeline::Chain(_) => {
            if built.1.len() == 0 {
                (built.0, no_ports())
            } else {
                let r = reduce_chain(built.0, built.1, built.1.len());
                (r.0, r.1.0)
            }
        },
        Pipeline::Name(n) => match lookup_name(g.names, n@) {
            Some(ports) => (g, ports),
            None => (GraphView { diags: g.diags.push(DiagView::UnknownName(n@)), ..g }, no_ports()),
        },
        Pipeline::Operator(op) => {
            let id = OperatorId(g.ops.len() as usize);
            (GraphView { ops: g.ops.push(new_op(op)), ..g }, Ports { inn: Some(id), out: Some(id) })
        },
    }
}

/// Adding the first `n` elements of chain `p`, each pipeline fully, left to right, and
/// collecting their ports with the arrows that follow them.
pub open spec fn build_prefix(g: GraphView, p: Pipeline, n: nat) -> (GraphView, Seq<(Ports, Option<Arrow>)>)
    decreases p, n,
{
    match p {
        Pipeline::Chain(elems) => {
            if n == 0 || n > elems@.len() {
                (g, Seq::empty())
            } else {
                let prev = build_prefix(g, p, (n - 1) as nat);
                let child = elems@[n - 1].pipeline;
                let r = finish(child, prev.0, build_prefix(prev.0, child, full_len(child)));
                (r.0, prev.1.push((r.1, elems@[n - 1].arrow)))
            }
        },
        _ => (g, Seq::empty()),
    }
}

/// Adding pipeline `p` to the graph: the new graph and the pipeline's ports.
pub open spec fn add_pipeline_spec(g: GraphView, p: Pipeline) -> (GraphView, Ports) {
    finish(p, g, build_prefix(g, p, full_len(p)))
}

/// Every arrow between two elements of a chain is present, at every depth.
pub open spec fn arrows_ok(p: Pipeline, n: nat) -> bool
    decreases p, n,
{
    match p {
        Pipeline::Chain(elems) => {
            if n == 0 || n > elems@.len() {
                true
            } else {
                let child = elems@[n - 1].pipeline;
                &&& arrows_ok(p, (n - 1) as nat)
                &&& (n < elems@.len() ==> elems@[n - 1].arrow is Some)
                &&& arrows_ok(child, full_len(child))
            }
        },
        _ => true,
    }
}

/// Whether pipeline `p` is well formed: every intermediate arrow is present.
pub open spec fn pipeline_ok(p: Pipeline) -> bool {
    arrows_ok(p, full_len(p))
}

/// Adding statement `s`: a named statement also records its pipeline's ports under the name.
pub open spec fn add_statement_spec(g: GraphView, s: HfStatement) -> GraphView {
    match s {
        HfStatement::Named(name, p) => {
            let r = add_pipeline_spec(g, p);
            GraphView { names: r.0.names.push((name@, r.1)), ..r.0 }
        },
        HfStatement::Pipeline(p) => add_pipeline_spec(g, p).0,
    }
}

/// Adding the first `n` statements, in order, to the empty graph.
pub open spec fn add_statements(stmts: Seq<HfStatement>, n: nat) -> GraphView
    decreases n,
{
    if n == 0 || n > stmts.len() {
        GraphView { ops: Seq::empty(), names: Seq::empty(), diags: Seq::empty() }
    } else {
        add_statement_spec(add_statements(stmts, (n - 1) as nat), stmts[n - 1])
    }
}

/// Whether every pipeline of the statements is well formed.
pub open spec fn statements_ok(stmts: Seq<HfStatement>) -> bool {
    forall|i: int| 0 <= i < stmts.len() ==> match #[trigger] stmts[i] {
        HfStatement::Named(_, p) => pipeline_ok(p),
        HfStatement::Pipeline(p) => pipeline_ok(p),
    }
}

/// Allowed input and output counts of the known operators, by name: a minimum and, unless
/// unbounded, a maximum. Unknown names have none.
pub open spec fn arity(name: Seq<char>) -> Option<((usize, Option<usize>), (usize, Option<usize>))> {
    if name == "merge"@ {
        Some(((2, None), (1, Some(1))))
    } else if name == "join"@ {
        Some(((2, Some(2)), (1, Some(1))))
    } else if name == "tee"@ {
        Some(((1, Some(1)), (2, None)))
    } else if name == "map"@ || name == "dedup"@ {
        Some(((1, Some(1)), (1, Some(1))))
    } else if name == "input"@ || name == "seed"@ {
        Some(((0, Some(0)), (1, Some(1))))
    } else if name == "for_each"@ {
        Some(((1, Some(1)), (0, Some(0))))
    } else {
        None
    }
}

/// Whether `count` lies within `bounds`.
pub open spec fn in_bounds(count: nat, bounds: (usize, Option<usize>)) -> bool {
    &&& bounds.0 <= count
    &&& (bounds.1 matches Some(m) ==> count <= m)
}

/// The problems of one operator: an unknown name (which then allows any counts), or input
/// and output counts outside the allowed ranges.
pub open spec fn op_diags(op: OpView) -> Seq<DiagView> {
    match arity(op.name) {
        None => seq![DiagView::UnknownOperator(op.name)],
        Some(bounds) => {
            let (inn, out) = bounds;
            (if in_bounds(op.preds.len(), inn) {
                Seq::empty()
            } else {
                seq![DiagView::InputCount(op.name, op.preds.len() as usize, inn.0, inn.1)]
            }) + (if in_bounds(op.succs.len(), out) {
                Seq::empty()
            } else {
                seq![DiagView::OutputCount(op.name, op.succs.len() as usize, out.0, out.1)]
            })
        },
    }
}

/// The problems of all operators, operator by operator.
pub open spec fn validate_spec(ops: Seq<OpView>) -> Seq<DiagView> {
    concat_all(ops.map_values(|o: OpView| op_diags(o)))
}

/// How an operator pulls or pushes its data.
#[derive(Clone, Copy, Debug, PartialEq, Eq, Structural)]
pub enum Color {
    /// Several inputs (and at most one output), or none in and some out.
    Pull,
    /// Several outputs (and at most one input), or some in and none out.
    Push,
    /// Several inputs and several outputs.
    Comp,
}

/// The color of an operator with `ins` inputs and `outs` outputs, if determined.
pub open spec fn color_of(ins: nat, outs: nat) -> Option<Color> {
    if 1 < ins && 1 < outs {
        Some(Color::Comp)
    } else if 1 < ins {
        Some(Color::Pull)
    } else if 1 < outs {
        Some(Color::Push)
    } else if ins == 0 && outs != 0 {
        Some(Color::Pull)
    } else if ins != 0 && outs == 0 {
        Some(Color::Push)
    } else {
        None
    }
}

/// The color an operator's own counts give it: both several inputs and several outputs make
/// a computation operator; several inputs (at most one output), or no input and some output,
/// make it pull; several outputs (at most one input), or some input and no output, make it
/// push; one input and one output, or none of either, give no color.
pub proof fn lemma_color_of_counts(ins: nat, outs: nat)
    ensures
        (ins > 1 && outs > 1) ==> color_of(ins, outs) == Some(Color::Comp),
        (ins > 1 && outs <= 1) ==> color_of(ins, outs) == Some(Color::Pull),
        (ins <= 1 && outs > 1) ==> color_of(ins, outs) == Some(Color::Push),
        (ins == 0 && outs == 1) ==> color_of(ins, outs) == Some(Color::Pull),
        (ins == 1 && outs == 0) ==> color_of(ins, outs) == Some(Color::Push),
        (ins == outs && ins <= 1) ==> color_of(ins, outs) is None,
{
}

/// The allowed input and output counts of each known operator: `merge` takes two or more
/// inputs, `join` exactly two, `tee`, `map`, `dedup` and `for_each` one, `input` and `seed`
/// none; `tee` gives two or more outputs, `for_each` none, every other one exactly one.
pub proof fn lemma_arity_table(n: nat)
    ensures
        in_bounds(n, arity("merge"@).unwrap().0) == (n >= 2),
        in_bounds(n, arity("merge"@).unwrap().1) == (n == 1),
        in_bounds(n, arity("join"@).unwrap().0) == (n == 2),
        in_bounds(n, arity("join"@).unwrap().1) == (n == 1),
        in_bounds(n, arity("tee"@).unwrap().0) == (n == 1),
        in_bounds(n, arity("tee"@).unwrap().1) == (n >= 2),
        in_bounds(n, arity("map"@).unwrap().0) == (n == 1),
        in_bounds(n, arity("map"@).unwrap().1) == (n == 1),
        in_bounds(n, arity("dedup"@).unwrap().0) == (n == 1),
        in_bounds(n, arity("dedup"@).unwrap().1) == (n == 1),
        in_bounds(n, arity("input"@).unwrap().0) == (n == 0),
        in_bounds(n, arity("input"@).unwrap().1) == (n == 1),
        in_bounds(n, arity("seed"@).unwrap().0) == (n == 0),
        in_bounds(n, arity("seed"@).unwrap().1) == (n == 1),
        in_bounds(n, arity("for_each"@).unwrap().0) == (n == 1),
        in_bounds(n, arity("for_each"@).unwrap().1) == (n == 0),
{
    reveal_strlit("merge");
    reveal_strlit("join");
    reveal_strlit("tee");
    reveal_strlit("map");
    reveal_strlit("dedup");
    reveal_strlit("input");
    reveal_strlit("seed");
    reveal_strlit("for_each");
    assert("join"@ != "merge"@) by { assert("join"@.len() != "merge"@.len() || "join"@[0] != "merge"@[0] || "join"@[1] != "merge"@[1]); }
    assert("tee"@ != "merge"@) by { assert("tee"@.len() != "merge"@.len() || "tee"@[0] != "merge"@[0] || "tee"@[1] != "merge"@[1]); }
    assert("tee"@ != "join"@) by { assert("tee"@.len() != "join"@.len() || "tee"@[0] != "join"@[0] || "tee"@[1] != "join"@[1]); }
    assert("map"@ != "merge"@) by { assert("map"@.len() != "merge"@.len() || "map"@[0] != "merge"@[0] || "map"@[1] != "merge"@[1]); }
    assert("map"@ != "join"@) by { assert("map"@.len() != "join"@.len() || "map"@[0] != "join"@[0] || "map"@[1] != "join"@[1]); }
    assert("map"@ != "tee"@) by { assert("map"@.len() != "tee"@.len() || "map"@[0] != "tee"@[0] || "map"@[1] != "tee"@[1]); }
    assert("dedup"@ != "merge"@) by { assert("dedup"@.len() != "merge"@.len() || "dedup"@[0] != "merge"@[0] || "dedup"@[1] != "merge"@[1]); }
    assert("dedup"@ != "join"@) by { assert("dedup"@.len() != "join"@.len() || "dedup"@[0] != "join"@[0] || "dedup"@[1] != "join"@[1]); }
    assert("dedup"@ != "tee"@) by { assert("dedup"@.len() != "tee"@.len() || "dedup"@[0] != "tee"@[0] || "dedup"@[1] != "tee"@[1]); }
    assert("dedup"@ != "map"@) by { assert("dedup"@.len() != "map"@.len() || "dedup"@[0] != "map"@[0] || "dedup"@[1] != "map"@[1]); }
    assert("input"@ != "merge"@) by { assert("input"@.len() != "merge"@.len() || "input"@[0] != "merge"@[0] || "input"@[1] != "merge"@[1]); }
    assert("input"@ != "join"@) by { assert("input"@.len() != "join"@.len() || "input"@[0] != "join"@[0] || "input"@[1] != "join"@[1]); }
    assert("input"@ != "tee"@) by { assert("input"@.len() != "tee"@.len() || "input"@[0] != "tee"@[0] || "input"@[1] != "tee"@[1]); }
    assert("input"@ != "map"@) by { assert("input"@.len() != "map"@.len() || "input"@[0] != "map"@[0] || "input"@[1] != "map"@[1]); }
    assert("input"@ != "dedup"@) by { assert("input"@.len() != "dedup"@.len() || "input"@[0] != "dedup"@[0] || "input"@[1] != "dedup"@[1]); }
    assert("seed"@ != "merge"@) by { assert("seed"@.len() != "merge"@.len() || "seed"@[0] != "merge"@[0] || "seed"@[1] != "merge"@[1]); }
    assert("seed"@ != "join"@) by { assert("seed"@.len() != "join"@.len() || "seed"@[0] != "join"@[0] || "seed"@[1] != "join"@[1]); }
    assert("seed"@ != "tee"@) by { assert("seed"@.len() != "tee"@.len() || "seed"@[0] != "tee"@[0] || "seed"@[1] != "tee"@[1]); }
    assert("seed"@ != "map"@) by { assert("seed"@.len() != "map"@.len() || "seed"@[0] != "map"@[0] || "seed"@[1] != "map"@[1]); }
    assert("seed"@ != "dedup"@) by { assert("seed"@.len() != "dedup"@.len() || "seed"@[0] != "dedup"@[0] || "seed"@[1] != "dedup"@[1]); }
    assert("seed"@ != "input"@) by { assert("seed"@.len() != "input"@.len() || "seed"@[0] != "input"@[0] || "seed"@[1] != "input"@[1]); }
    assert("for_each"@ != "merge"@) by { assert("for_each"@.len() != "merge"@.len() || "for_each"@[0] != "merge"@[0] || "for_each"@[1] != "merge"@[1]); }
    assert("for_each"@ != "join"@) by { assert("for_each"@.len() != "join"@.len() || "for_each"@[0] != "join"@[0] || "for_each"@[1] != "join"@[1]); }
    assert("for_each"@ != "tee"@) by { assert("for_each"@.len() != "tee"@.len() || "for_each"@[0] != "tee"@[0] || "for_each"@[1] != "tee"@[1]); }
    assert("for_each"@ != "map"@) by { assert("for_each"@.len() != "map"@.len() || "for_each"@[0] != "map"@[0] || "for_each"@[1] != "map"@[1]); }
    assert("for_each"@ != "dedup"@) by { assert("for_each"@.len() != "dedup"@.len() || "for_each"@[0] != "dedup"@[0] || "for_each"@[1] != "dedup"@[1]); }
    assert("for_each"@ != "input"@) by { assert("for_each"@.len() != "input"@.len() || "for_each"@[0] != "input"@[0] || "for_each"@[1] != "input"@[1]); }
    assert("for_each"@ != "seed"@) by { assert("for_each"@.len() != "seed"@.len() || "for_each"@[0] != "seed"@[0] || "for_each"@[1] != "seed"@[1]); }
}

/// A join whose input count is not two is reported: validating operators yields, for it,
/// an input-count problem naming `join`, its count and the allowed range `2..=2`.
pub proof fn lemma_join_input_count_reported(op: OpView)
    requires
        op.name == "join"@,
        op.preds.len() != 2,
        op.preds.len() <= usize::MAX,
    ensures
        op_diags(op).len() > 0,
        op_diags(op)[0] == DiagView::InputCount("join"@, op.preds.len() as usize, 2, Some(2)),
{
    lemma_arity_table(op.preds.len());
    reveal_strlit("join");
    reveal_strlit("merge");
    assert("join"@ != "merge"@) by {
        assert("join"@.len() != "merge"@.len());
    }
}

/// An arrow without a destination port lands on the next free input port of the operator
/// it points to: when that operator's `k` connections sit on ports below `k`, connecting
/// gives it `k + 1` inputs, the new one from the arrow's source operator, and records no
/// input-port conflict.
pub proof fn lemma_default_arrow_adds_input(g: GraphView, curr: Ports, arrow: Arrow, next: Ports)
    requires
        ops_ports_unique(g.ops),
        curr.out is Some,
        next.inn is Some,
        ports_ok(curr, g.ops.len() as int),
        ports_ok(next, g.ops.len() as int),
        arrow.dst is None,
        g.ops[next.inn.unwrap().0 as int].preds.len() < u64::MAX,
        forall|i: int|
            0 <= i < g.ops[next.inn.unwrap().0 as int].preds.len() ==> (#[trigger] g.ops[next.inn.unwrap().0 as int].preds[i]).port
                < g.ops[next.inn.unwrap().0 as int].preds.len(),
    ensures
        ({
            let inn = next.inn.unwrap().0 as int;
            let g2 = connect(g, curr, arrow, next);
            &&& g2.ops[inn].preds.len() == g.ops[inn].preds.len() + 1
            &&& g2.ops[inn].preds.last().op == curr.out->0
            &&& forall|d: int|
                g.diags.len() <= d < g2.diags.len() ==> !(#[trigger] g2.diags[d] matches DiagView::PortConflict(
                    false,
                    _,
                ))
        }),
{
    let out = curr.out->0;
    let inn = next.inn->0;
    let src = match arrow.src {
        Some(p) => p,
        None => g.ops[out.0 as int].succs.len() as u64,
    };
    let k = g.ops[inn.0 as int].preds.len();
    let dst = k as u64;
    let g1 = put_edge(g, out.0 as int, PortEdge { port: src, op: inn, op_port: dst }, true);
    assert(g1.ops[inn.0 as int].preds == g.ops[inn.0 as int].preds);
    let s = g1.ops[inn.0 as int].preds;
    assert(!has_port(s, dst)) by {
        if has_port(s, dst) {
            let i = choose|i: int| 0 <= i < s.len() && (#[trigger] s[i]).port == dst;
            assert(s[i].port < k);
        }
    }
    lemma_without_port_absent(s, dst);
    assert(g1.diags.len() <= g.diags.len() + 1);
    assert(forall|d: int| g.diags.len() <= d < g1.diags.len() ==> g1.diags[d] == DiagView::PortConflict(true, src));
}

/// An arrow without a source port leaves from the next free output port of the operator it
/// starts at: when that operator's `k` outputs sit on ports below `k`, connecting gives it
/// `k + 1` outputs, the new one to the arrow's destination operator, and records no
/// output-port conflict.
pub proof fn lemma_default_arrow_adds_output(g: GraphView, curr: Ports, arrow: Arrow, next: Ports)
    requires
        ops_ports_unique(g.ops),
        curr.out is Some,
        next.inn is Some,
        ports_ok(curr, g.ops.len() as int),
        ports_ok(next, g.ops.len() as int),
        arrow.src is None,
        g.ops[curr.out.unwrap().0 as int].succs.len() < u64::MAX,
        forall|i: int|
            0 <= i < g.ops[curr.out.unwrap().0 as int].succs.len() ==> (#[trigger] g.ops[curr.out.unwrap().0 as int].succs[i]).port
                < g.ops[curr.out.unwrap().0 as int].succs.len(),
    ensures
        ({
            let out = curr.out.unwrap().0 as int;
            let g2 = connect(g, curr, arrow, next);
            &&& g2.ops[out].succs.len() == g.ops[out].succs.len() + 1
            &&& g2.ops[out].succs.last().op == next.inn.unwrap()
            &&& forall|d: int|
                g.diags.len() <= d < g2.diags.len() ==> !(#[trigger] g2.diags[d] matches DiagView::PortConflict(
                    true,
                    _,
                ))
        }),
{
    let out = curr.out.unwrap();
    let inn = next.inn.unwrap();
    let k = g.ops[out.0 as int].succs.len();
    let src = k as u64;
    let dst = match arrow.dst {
        Some(p) => p,
        None => g.ops[inn.0 as int].preds.len() as u64,
    };
    let s0 = g.ops[out.0 as int].succs;
    assert(!has_port(s0, src)) by {
        if has_port(s0, src) {
            let i = choose|i: int| 0 <= i < s0.len() && (#[trigger] s0[i]).port == src;
            assert(s0[i].port < k);
        }
    }
    lemma_without_port_absent(s0, src);
    let g1 = put_edge(g, out.0 as int, PortEdge { port: src, op: inn, op_port: dst }, true);
    assert(g1.diags == g.diags);
    let g2 = put_edge(g1, inn.0 as int, PortEdge { port: dst, op: out, op_port: src }, false);
    assert(g2.ops[out.0 as int].succs == g1.ops[out.0 as int].succs);
    assert(forall|d: int| g.diags.len() <= d < g2.diags.len() ==> g2.diags[d] == DiagView::PortConflict(false, dst));
}

/// Removing a port no connection uses changes nothing.
proof fn lemma_without_port_absent(s: Seq<PortEdge>, port: u64)
    requires
        !has_port(s, port),
    ensures
        without_port(s, port) == s,
    decreases s.len(),
{
    if s.len() > 0 {
        let rest = s.drop_last();
        assert(!has_port(rest, port)) by {
            if has_port(rest, port) {
                let i = choose|i: int| 0 <= i < rest.len() && (#[trigger] rest[i]).port == port;
                assert(s[i].port == port);
            }
        }
        lemma_without_port_absent(rest, port);
        assert(s.last().port != port) by {
            assert(s[s.len() - 1].port == s.last().port);
        }
        assert(rest.push(s.last()) =~= s);
    }
}

/// Whether operator `y` can take color `c`: its own counts determine no color, or determine `c`.
pub open spec fn takes_color(ops: Seq<OpView>, y: int, c: Color) -> bool {
    match color_of(ops[y].preds.len(), ops[y].succs.len()) {
        None => true,
        Some(d) => d == c,
    }
}

/// The connections of operator `x` on its inputs (`preds`) or on its outputs.
pub open spec fn next_edges(ops: Seq<OpView>, x: int, preds: bool) -> Seq<PortEdge> {
    if preds {
        ops[x].preds
    } else {
        ops[x].succs
    }
}

/// Whether operator `x` has a connection to operator `y` on the side `preds` names.
pub open spec fn connected(ops: Seq<OpView>, x: int, preds: bool, y: int) -> bool {
    exists|j: int| 0 <= j < next_edges(ops, x, preds).len() && #[trigger] next_edges(ops, x, preds)[j].op.0 == y
}

/// A path of operators of the graph that can all take `c`, each connected to the next on the
/// side `preds` names.
pub open spec fn color_path(ops: Seq<OpView>, c: Color, preds: bool, p: Seq<int>) -> bool {
    &&& p.len() > 0
    &&& forall|i: int| 0 <= i < p.len() ==> 0 <= #[trigger] p[i] < ops.len() && takes_color(ops, p[i], c)
    &&& forall|i: int| 0 <= i < p.len() - 1 ==> connected(ops, #[trigger] p[i], preds, p[i + 1])
}

/// Whether color `c`, spread from `start` along the side `preds` names, reaches `y`.
pub open spec fn spreads_to(ops: Seq<OpView>, c: Color, preds: bool, start: int, y: int) -> bool {
    exists|p: Seq<int>| #[trigger] color_path(ops, c, preds, p) && p[0] == start && p.last() == y
}

/// `colors` with every operator that `c`, spread from `start` along `preds`, reaches set to `c`.
pub open spec fn spread(
    ops: Seq<OpView>,
    colors: Seq<Option<Color>>,
    c: Color,
    preds: bool,
    start: int,
) -> Seq<Option<Color>> {
    Seq::new(
        colors.len(),
        |v: int|
            if spreads_to(ops, c, preds, start, v) {
                Some(c)
            } else {
                colors[v]
            },
    )
}

/// One step of the coloring: an operator not yet colored whose counts determine a color
/// takes it; a computation operator then spreads pull upwards and push downwards, any other
/// spreads its own color both ways.
pub open spec fn color_step(ops: Seq<OpView>, colors: Seq<Option<Color>>, k: int) -> Seq<Option<Color>> {
    match color_of(ops[k].preds.len(), ops[k].succs.len()) {
        None => colors,
        Some(c) => if colors[k] is Some {
            colors
        } else {
            let marked = colors.update(k, Some(c));
            match c {
                Color::Comp => spread(
                    ops,
                    spread(ops, marked, Color::Pull, true, k),
                    Color::Push,
                    false,
                    k,
                ),
                _ => spread(ops, spread(ops, marked, c, true, k), c, false, k),
            }
        },
    }
}

/// The colors after visiting the first `k` operators in order.
pub open spec fn colors_upto(ops: Seq<OpView>, k: nat) -> Seq<Option<Color>>
    decreases k,
{
    if k == 0 {
        Seq::new(ops.len(), |_v: int| None)
    } else {
        color_step(ops, colors_upto(ops, (k - 1) as nat), k - 1)
    }
}

/// Spreading a color only paints operators that can take it.
proof fn lemma_spread_respects(ops: Seq<OpView>, colors: Seq<Option<Color>>, c: Color, preds: bool, start: int)
    requires
        colors.len() == ops.len(),
        forall|v: int| 0 <= v < colors.len() && (#[trigger] colors[v]) is Some ==> takes_color(ops, v, colors[v]->0),
    ensures
        spread(ops, colors, c, preds, start).len() == ops.len(),
        forall|v: int|
            0 <= v < ops.len() && (#[trigger] spread(ops, colors, c, preds, start)[v]) is Some ==> takes_color(
                ops,
                v,
                spread(ops, colors, c, preds, start)[v]->0,
            ),
        forall|v: int| 0 <= v < ops.len() && colors[v] is Some ==> (#[trigger] spread(ops, colors, c, preds, start)[v]) is Some,
{
    let r = spread(ops, colors, c, preds, start);
    assert forall|v: int| 0 <= v < ops.len() && (#[trigger] r[v]) is Some implies takes_color(ops, v, r[v]->0) by {
        if spreads_to(ops, c, preds, start, v) {
            let p = choose|p: Seq<int>| #[trigger] color_path(ops, c, preds, p) && p[0] == start && p.last() == v;
            assert(p[p.len() - 1] == v);
        } else {
            assert(colors[v] is Some);
        }
    }
}

/// Every operator whose own counts determine a color ends up with exactly that color, and
/// no operator ends up with a color its own counts rule out.
pub proof fn lemma_coloring_respects_own_colors(ops: Seq<OpView>, k: nat)
    requires
        k <= ops.len(),
    ensures
        colors_upto(ops, k).len() == ops.len(),
        forall|v: int|
            0 <= v < ops.len() && (#[trigger] colors_upto(ops, k)[v]) is Some ==> takes_color(
                ops,
                v,
                colors_upto(ops, k)[v]->0,
            ),
        forall|v: int|
            0 <= v < k && color_of(ops[v].preds.len(), ops[v].succs.len()) is Some ==> #[trigger] colors_upto(ops, k)[v]
                == color_of(ops[v].preds.len(), ops[v].succs.len()),
    decreases k,
{
    if k > 0 {
        let j = (k - 1) as int;
        lemma_coloring_respects_own_colors(ops, (k - 1) as nat);
        let cs = colors_upto(ops, (k - 1) as nat);
        let r = colors_upto(ops, k);
        assert(r == color_step(ops, cs, j));
        match color_of(ops[j].preds.len(), ops[j].succs.len()) {
            None => {},
            Some(c) => {
                if cs[j] is Some {
                    assert(takes_color(ops, j, cs[j]->0));
                } else {
                    let marked = cs.update(j, Some(c));
                    assert forall|v: int| 0 <= v < marked.len() && (#[trigger] marked[v]) is Some implies takes_color(
                        ops,
                        v,
                        marked[v]->0,
                    ) by {
                        if v != j {
                            assert(marked[v] == cs[v]);
                        }
                    }
                    match c {
                        Color::Comp => {
                            let m1 = spread(ops, marked, Color::Pull, true, j);
                            lemma_spread_respects(ops, marked, Color::Pull, true, j);
                            lemma_spread_respects(ops, m1, Color::Push, false, j);
                        },
                        _ => {
                            let m1 = spread(ops, marked, c, true, j);
                            lemma_spread_respects(ops, marked, c, true, j);
                            lemma_spread_respects(ops, m1, c, false, j);
                        },
                    }
                }
            },
        }
        assert forall|v: int|
            0 <= v < k && color_of(ops[v].preds.len(), ops[v].succs.len()) is Some implies #[trigger] r[v]
                == color_of(ops[v].preds.len(), ops[v].succs.len()) by {
            assert(r[v] is Some);
            assert(takes_color(ops, v, r[v]->0));
        }
    }
}

/// A set of operators that holds `start` and every operator that can take `c` and is
/// connected to one of its members holds every operator `c` spreads to from `start`.
proof fn lemma_closed_holds_spread(
    ops: Seq<OpView>,
    c: Color,
    preds: bool,
    start: int,
    marks: Seq<bool>,
    y: int,
)
    requires
        marks.len() == ops.len(),
        0 <= start < ops.len(),
        marks[start],
        forall|x: int, z: int|
            0 <= x < ops.len() && 0 <= z < ops.len() && #[trigger] marks[x] && connected(ops, x, preds, z)
                && takes_color(ops, z, c) ==> #[trigger] marks[z],
        spreads_to(ops, c, preds, start, y),
    ensures
        marks[y],
{
    let p = choose|p: Seq<int>| #[trigger] color_path(ops, c, preds, p) && p[0] == start && p.last() == y;
    lemma_path_marked(ops, c, preds, marks, p, p.len() - 1);
}

proof fn lemma_path_marked(ops: Seq<OpView>, c: Color, preds: bool, marks: Seq<bool>, p: Seq<int>, i: int)
    requires
        color_path(ops, c, preds, p),
        0 <= i < p.len(),
        marks.len() == ops.len(),
        marks[p[0]],
        forall|x: int, z: int|
            0 <= x < ops.len() && 0 <= z < ops.len() && #[trigger] marks[x] && connected(ops, x, preds, z)
                && takes_color(ops, z, c) ==> #[trigger] marks[z],
    ensures
        marks[p[i]],
    decreases i,
{
    if i > 0 {
        lemma_path_marked(ops, c, preds, marks, p, i - 1);
        assert(connected(ops, p[i - 1], preds, p[i]));
        assert(0 <= p[i] < ops.len() && takes_color(ops, p[i], c));
        assert(0 <= p[i - 1] < ops.len());
    }
}

/// Text with `&`, `<`, `>` and `"` replaced by their HTML entities.
pub open spec fn escape_char(c: char) -> Seq<char> {
    if c == '&' {
        "&amp;"@
    } else if c == '<' {
        "&lt;"@
    } else if c == '>' {
        "&gt;"@
    } else if c == '"' {
        "&quot;"@
    } else {
        seq![c]
    }
}

/// `s` with each character escaped.
pub open spec fn escape_text(s: Seq<char>) -> Seq<char> {
    concat_all(s.map_values(|c: char| escape_char(c)))
}

/// Escaping writes `&`, `<`, `>` and `"` as the HTML entities `&amp;`, `&lt;`, `&gt;` and
/// `&quot;`, keeps every other character, and leaves no `<`, `>` or `"` in the text.
pub proof fn lemma_escape_entities(s: Seq<char>, c: char)
    ensures
        escape_char('&') == seq!['&', 'a', 'm', 'p', ';'],
        escape_char('<') == seq!['&', 'l', 't', ';'],
        escape_char('>') == seq!['&', 'g', 't', ';'],
        escape_char('"') == seq!['&', 'q', 'u', 'o', 't', ';'],
        (c != '&' && c != '<' && c != '>' && c != '"') ==> escape_char(c) == seq![c],
        forall|i: int|
            0 <= i < escape_text(s).len() ==> #[trigger] escape_text(s)[i] != '<' && escape_text(s)[i] != '>'
                && escape_text(s)[i] != '"',
    decreases s.len(),
{
    reveal_strlit("&amp;");
    reveal_strlit("&lt;");
    reveal_strlit("&gt;");
    reveal_strlit("&quot;");
    assert("&amp;"@ =~= seq!['&', 'a', 'm', 'p', ';']);
    assert("&lt;"@ =~= seq!['&', 'l', 't', ';']);
    assert("&gt;"@ =~= seq!['&', 'g', 't', ';']);
    assert("&quot;"@ =~= seq!['&', 'q', 'u', 'o', 't', ';']);
    if s.len() > 0 {
        let init = s.drop_last();
        lemma_escape_entities(init, s.last());
        let f = |x: char| escape_char(x);
        assert(s.map_values(f).drop_last() =~= init.map_values(f));
        let e = escape_char(s.last());
        assert(escape_text(s) == escape_text(init) + e);
        assert forall|i: int| 0 <= i < e.len() implies e[i] != '<' && e[i] != '>' && e[i] != '"' by {
        }
        assert forall|i: int|
            0 <= i < escape_text(s).len() implies #[trigger] escape_text(s)[i] != '<' && escape_text(s)[i] != '>'
                && escape_text(s)[i] != '"' by {
            if i < escape_text(init).len() {
                assert(escape_text(s)[i] == escape_text(init)[i]);
            } else {
                assert(escape_text(s)[i] == e[i - escape_text(init).len()]);
            }
        }
    }
}

/// The number that names operator `i` in the flowchart: its key in the FFI form of a
/// slot-map key, with the key's version, 1, in the high 32 bits and its slot, `i + 1`, in
/// the low bits (slot 0 is never handed out, and no operator is ever removed).
pub open spec fn key_number(i: nat) -> nat {
    0x1_0000_0000 + i + 1
}

/// The Mermaid line of operator `i`.
pub open spec fn node_line(i: nat, op: OpView) -> Seq<char> {
    "    "@ + decimal(key_number(i)) + "[\""@ + escape_text(op.text) + "\"]\n"@
}

/// The Mermaid line of an edge from operator `i` to operator `j`.
pub open spec fn edge_line(i: nat, j: nat) -> Seq<char> {
    "    "@ + decimal(key_number(i)) + "-->"@ + decimal(key_number(j)) + "\n"@
}

/// The Mermaid lines of operator `i`'s outputs, in the order they are stored.
pub open spec fn edge_lines(i: nat, op: OpView) -> Seq<char> {
    concat_all(op.succs.map_values(|e: PortEdge| edge_line(i, e.op.0 as nat)))
}

/// The Mermaid flowchart of the operators: a header, a line per operator, a blank line, and a
/// line per connection.
pub open spec fn mermaid(ops: Seq<OpView>) -> Seq<char> {
    "flowchart TB\n"@ + concat_all(Seq::new(ops.len(), |i: int| node_line(i as nat, ops[i]))) + "\n"@
        + concat_all(Seq::new(ops.len(), |i: int| edge_lines(i as nat, ops[i])))
}

/// Ports name existing operators.
pub open spec fn ports_ok(p: Ports, n: int) -> bool {
    &&& (p.inn matches Some(i) ==> i.0 < n)
    &&& (p.out matches Some(o) ==> o.0 < n)
}

/// Every ports of `results` name existing operators.
pub open spec fn results_ok(results: Seq<(Ports, Option<Arrow>)>, n: int) -> bool {
    forall|i: int| 0 <= i < results.len() ==> ports_ok(#[trigger] results[i].0, n)
}

/// What `arrows_ok` gives for each element of a chain: the element is well formed, and it is
/// followed by an arrow unless it is the last.
pub proof fn lemma_arrows_ok_elem(p: Pipeline, n: nat, i: int)
    requires
        p is Chain,
        arrows_ok(p, n),
        n <= full_len(p),
        0 <= i < n,
    ensures
        arrows_ok(p->Chain_0@[i].pipeline, full_len(p->Chain_0@[i].pipeline)),
        i < full_len(p) - 1 ==> p->Chain_0@[i].arrow is Some,
    decreases n,
{
    if i < n - 1 {
        lemma_arrows_ok_elem(p, (n - 1) as nat, i);
    }
}

/// A name that is found gives ports stored under some entry.
pub proof fn lemma_lookup_found(names: Seq<(Seq<char>, Ports)>, n: Seq<char>)
    ensures
        lookup_name(names, n) matches Some(p) ==> exists|i: int| 0 <= i < names.len() && (#[trigger] names[i]).1 == p,
    decreases names.len(),
{
    if names.len() > 0 {
        lemma_lookup_found(names.drop_last(), n);
        if lookup_name(names, n) is Some {
            let p = lookup_name(names, n)->0;
            if names.last().0 != n {
                let i = choose|i: int| 0 <= i < names.len() - 1 && (#[trigger] names.drop_last()[i]).1 == p;
                assert(names[i] == names.drop_last()[i]);
            } else {
                assert(names[names.len() - 1].1 == p);
            }
        }
    }
}

/// A name refers to the ports most recently given that name.
pub proof fn lemma_lookup_after_naming(names: Seq<(Seq<char>, Ports)>, n: Seq<char>, ports: Ports, other: Seq<char>)
    ensures
        lookup_name(names.push((n, ports)), n) == Some(ports),
        other != n ==> lookup_name(names.push((n, ports)), other) == lookup_name(names, other),
{
    assert(names.push((n, ports)).drop_last() == names);
}

fn names_equal(a: &String, b: &str) -> (r: bool)
    ensures
        r == (a@ == b@),
{
    *a == b.to_owned()
}

/// The allowed counts of operator `name`; see [`arity`].
pub fn arity_of(name: &String) -> (r: Option<((usize, Option<usize>), (usize, Option<usize>))>)
    ensures
        r == arity(name@),
{
    if names_equal(name, "merge") {
        Some(((2, None), (1, Some(1))))
    } else if names_equal(name, "join") {
        Some(((2, Some(2)), (1, Some(1))))
    } else if names_equal(name, "tee") {
        Some(((1, Some(1)), (2, None)))
    } else if names_equal(name, "map") || names_equal(name, "dedup") {
        Some(((1, Some(1)), (1, Some(1))))
    } else if names_equal(name, "input") || names_equal(name, "seed") {
        Some(((0, Some(0)), (1, Some(1))))
    } else if names_equal(name, "for_each") {
        Some(((1, Some(1)), (0, Some(0))))
    } else {
        None
    }
}

fn within(count: usize, bounds: (usize, Option<usize>)) -> (r: bool)
    ensures
        r == in_bounds(count as nat, bounds),
{
    bounds.0 <= count && match bounds.1 {
        Some(m) => count <= m,
        None => true,
    }
}

/// The color of an operator, if its input and output counts determine one.
pub fn op_color(op: &OpInfo) -> (r: Option<Color>)
    ensures
        r == color_of(op.preds@.len(), op.succs@.len()),
{
    let ins = op.preds.len();
    let outs = op.succs.len();
    if 1 < ins && 1 < outs {
        Some(Color::Comp)
    } else if 1 < ins {
        Some(Color::Pull)
    } else if 1 < outs {
        Some(Color::Push)
    } else if ins == 0 && outs != 0 {
        Some(Color::Pull)
    } else if ins != 0 && outs == 0 {
        Some(Color::Push)
    } else {
        None
    }
}

proof fn lemma_concat_all_push<A>(parts: Seq<Seq<A>>, x: Seq<A>)
    ensures
        concat_all(parts.push(x)) == concat_all(parts) + x,
{
    assert(parts.push(x).drop_last() == parts);
}

/// Appends the number that names operator `i` in the flowchart.
fn push_key_number(s: &mut String, i: usize)
    ensures
        final(s)@ == old(s)@ + decimal(key_number(i as nat)),
{
    push_decimal(s, 0x1_0000_0001u128 + i as u128);
}

fn push_escaped(s: &mut String, text: &String)
    ensures
        final(s)@ == old(s)@ + escape_text(text@),
{
    let t = text.as_str();
    let n = t.unicode_len();
    let ghost chars = t@;
    let mut i: usize = 0;
    while i < n
        invariant
            t@ == chars,
            chars == text@,
            n == chars.len(),
            i <= n,
            s@ == old(s)@ + escape_text(chars.take(i as int)),
        decreases n - i,
    {
        let c = t.get_char(i);
        let ghost before = s@;
        if c == '&' {
            push_str(s, "&amp;");
        } else if c == '<' {
            push_str(s, "&lt;");
        } else if c == '>' {
            push_str(s, "&gt;");
        } else if c == '"' {
            push_str(s, "&quot;");
        } else {
            push_char(s, c);
            assert(s@ == before + seq![c]);
        }
        proof {
            let f = |c: char| escape_char(c);
            assert(chars.take(i + 1) == chars.take(i as int).push(c));
            assert(chars.take(i + 1).map_values(f) == chars.take(i as int).map_values(f).push(escape_char(c))) by {
                assert(chars.take(i + 1).map_values(f) =~= chars.take(i as int).map_values(f).push(escape_char(c)));
            }
            lemma_concat_all_push(chars.take(i as int).map_values(f), escape_char(c));
        }
        i = i + 1;
    }
    assert(chars.take(n as int) == chars);
}

/// The operator graph of a program.
pub struct Graph {
    operators: SlotMap<OperatorId, OpInfo>,
    names: Vec<(String, Ports)>,
    diagnostics: Vec<GraphDiagnostic>,
}

impl View for Graph {
    type V = GraphView;

    closed spec fn view(&self) -> GraphView {
        GraphView {
            ops: self.operators@.map_values(|o: OpInfo| op_view(o)),
            names: self.names@.map_values(|e: (String, Ports)| (e.0@, e.1)),
            diags: diags_view(self.diagnostics@),
        }
    }
}

proof fn lemma_map_push<A, B>(s: Seq<A>, x: A, f: spec_fn(A) -> B)
    ensures
        s.push(x).map_values(f) == s.map_values(f).push(f(x)),
{
    assert(s.push(x).map_values(f) =~= s.map_values(f).push(f(x)));
}

proof fn lemma_map_update<A, B>(s: Seq<A>, i: int, x: A, f: spec_fn(A) -> B)
    requires
        0 <= i < s.len(),
    ensures
        s.update(i, x).map_values(f) == s.map_values(f).update(i, f(x)),
{
    assert(s.update(i, x).map_values(f) =~= s.map_values(f).update(i, f(x)));
}

impl Graph {
    /// Every named pipeline's ports name existing operators.
    pub closed spec fn wf(&self) -> bool {
        &&& forall|i: int| 0 <= i < self.names@.len() ==> ports_ok(
            #[trigger] self.names@[i].1,
            self.operators@.len() as int,
        )
        &&& ops_ports_unique(self@.ops)
    }

    /// In a well-formed graph every operator holds at most one connection per input port and
    /// per output port: a second connection on a port replaces the first.
    pub proof fn lemma_wf_ports_unique(&self)
        requires
            self.wf(),
        ensures
            ops_ports_unique(self@.ops),
    {
    }

    /// The empty graph.
    pub fn new() -> (r: Self)
        ensures
            r.wf(),
            r@ == (GraphView { ops: Seq::empty(), names: Seq::empty(), diags: Seq::empty() }),
    {
        let r = Graph { operators: SlotMap::new(), names: Vec::new(), diagnostics: Vec::new() };
        assert(r@ =~= (GraphView { ops: Seq::empty(), names: Seq::empty(), diags: Seq::empty() }));
        r
    }

    fn op(&self, id: OperatorId) -> (r: &OpInfo)
        requires
            id.0 < self.operators@.len(),
        ensures
            *r == self.operators@[id.0 as int],
    {
        self.operators.get(id).unwrap()
    }

    fn push_diagnostic(&mut self, d: GraphDiagnostic)
        ensures
            final(self)@ == (GraphView { diags: old(self)@.diags.push(diag_view(d)), ..old(self)@ }),
            final(self).operators@ == old(self).operators@,
            final(self).names@ == old(self).names@,
    {
        let ghost before = self.diagnostics@;
        let ghost dd = d;
        self.diagnostics.push(d);
        proof {
            lemma_map_push(before, dd, |d: GraphDiagnostic| diag_view(d));
        }
    }

    /// Stores connection `e` at operator `o`; see [`put_edge`].
    fn put_edge(&mut self, o: OperatorId, e: PortEdge, output: bool)
        requires
            o.0 < old(self).operators@.len(),
            ops_ports_unique(old(self)@.ops),
        ensures
            ops_ports_unique(final(self)@.ops),
            final(self)@ == put_edge(old(self)@, o.0 as int, e, output),
            final(self).operators@.len() == old(self).operators@.len(),
            final(self).names@ == old(self).names@,
    {
        let ghost g = self@;
        let ghost s = if output { g.ops[o.0 as int].succs } else { g.ops[o.0 as int].preds };
        let ghost ops = self.operators@;
        assert(self@.ops[o.0 as int] == op_view(ops[o.0 as int]));
        let n = if output { self.op(o).succs.len() } else { self.op(o).preds.len() };
        let mut kept: Vec<PortEdge> = Vec::new();
        let mut found = false;
        let mut i: usize = 0;
        while i < n
            invariant
                o.0 < ops.len(),
                self.operators@ == ops,
                self.diagnostics@ == old(self).diagnostics@,
                self.names@ == old(self).names@,
                s == (if output { ops[o.0 as int].succs@ } else { ops[o.0 as int].preds@ }),
                n == s.len(),
                i <= n,
                kept@ == without_port(s.take(i as int), e.port),
                found == exists|j: int| 0 <= j < i && (#[trigger] s[j]).port == e.port,
            decreases n - i,
        {
            let x = if output { self.op(o).succs[i] } else { self.op(o).preds[i] };
            assert(x == s[i as int]);
            proof {
                assert(s.take(i + 1).drop_last() == s.take(i as int));
                assert(s.take(i + 1).last() == x);
            }
            if x.port == e.port {
                found = true;
            } else {
                kept.push(x);
            }
            i = i + 1;
        }
        assert(s.take(n as int) == s);
        if found {
            self.push_diagnostic(GraphDiagnostic::PortConflict { output, port: e.port });
        }
        kept.push(e);
        let ghost before_ops = self.operators@;
        assert(before_ops == ops);
        let slot = self.operators.get_mut(o);
        if output {
            slot.succs = kept;
        } else {
            slot.preds = kept;
        }
        proof {
            let new_op = self.operators@[o.0 as int];
            lemma_map_update(ops, o.0 as int, new_op, |x: OpInfo| op_view(x));
            assert(has_port(s, e.port) == found);
            assert(op_view(new_op) == (if output {
                OpView { succs: without_port(s, e.port).push(e), ..g.ops[o.0 as int] }
            } else {
                OpView { preds: without_port(s, e.port).push(e), ..g.ops[o.0 as int] }
            }));
            assert(self@ =~= put_edge(g, o.0 as int, e, output));
            lemma_put_edge_unique(g, o.0 as int, e, output);
        }
    }

    /// Connects a pipeline with ports `curr` through `arrow` to one with ports `next`; see
    /// [`connect`].
    fn connect(&mut self, curr: Ports, arrow: Arrow, next: Ports)
        requires
            ports_ok(curr, old(self).operators@.len() as int),
            ports_ok(next, old(self).operators@.len() as int),
            ops_ports_unique(old(self)@.ops),
        ensures
            ops_ports_unique(final(self)@.ops),
            final(self)@ == connect(old(self)@, curr, arrow, next),
            final(self).operators@.len() == old(self).operators@.len(),
            final(self).names@ == old(self).names@,
    {
        match (curr.out, next.inn) {
            (Some(out), Some(inn)) => {
                let ghost g = self@;
                assert(g.ops[out.0 as int] == op_view(self.operators@[out.0 as int]));
                assert(g.ops[inn.0 as int] == op_view(self.operators@[inn.0 as int]));
                let src = match arrow.src {
                    Some(p) => p,
                    None => self.op(out).succs.len() as u64,
                };
                let dst = match arrow.dst {
                    Some(p) => p,
                    None => self.op(inn).preds.len() as u64,
                };
                self.put_edge(out, PortEdge { port: src, op: inn, op_port: dst }, true);
                self.put_edge(inn, PortEdge { port: dst, op: out, op_port: src }, false);
            },
            _ => {},
        }
    }

    /// Adds pipeline `p` and returns its ports; see [`add_pipeline_spec`]. Problems found are
    /// recorded as diagnostics.
    pub fn add_pipeline(&mut self, p: &Pipeline) -> (r: Ports)
        requires
            old(self).wf(),
            pipeline_ok(*p),
        ensures
            final(self).wf(),
            (final(self)@, r) == add_pipeline_spec(old(self)@, *p),
            ports_ok(r, final(self)@.ops.len() as int),
            final(self)@.ops.len() >= old(self)@.ops.len(),
        decreases p,
    {
        match p {
            Pipeline::Chain(elems) => {
                let ghost g0 = self@;
                let mut results: Vec<(Ports, Option<Arrow>)> = Vec::new();
                let mut i: usize = 0;
                while i < elems.len()
                    invariant
                        *p == Pipeline::Chain(*elems),
                        i <= elems@.len(),
                        self.wf(),
                        arrows_ok(*p, elems@.len()),
                        (self@, results@) == build_prefix(g0, *p, i as nat),
                        results_ok(results@, self@.ops.len() as int),
                        self@.ops.len() >= g0.ops.len(),
                        g0 == old(self)@,
                        results@.len() == i,
                        forall|j: int| 0 <= j < i ==> (#[trigger] results@[j]).1 == elems@[j].arrow,
                    decreases elems@.len() - i,
                {
                    proof {
                        lemma_arrows_ok_elem(*p, elems@.len(), i as int);
                        let v = *elems;
                        assert((*p)->Chain_0 == v);
                        assert(decreases_to!(*p => (*p)->Chain_0));
                        assert(decreases_to!(v => v@));
                        assert(decreases_to!(v@ => v@[i as int]));
                        assert(decreases_to!(v@[i as int] => v@[i as int].pipeline));
                    }
                    let ghost before = self@;
                    let ghost before_results = results@;
                    let ports = self.add_pipeline(&elems[i].pipeline);
                    let arrow = elems[i].arrow;
                    results.push((ports, arrow));
                    proof {
                        assert(build_prefix(g0, *p, (i + 1) as nat).0 == self@);
                        assert(results@ == before_results.push((ports, arrow)));
                        assert forall|j: int| 0 <= j < results@.len() implies ports_ok(
                            #[trigger] results@[j].0,
                            self@.ops.len() as int,
                        ) by {
                            if j < before_results.len() {
                                assert(results@[j] == before_results[j]);
                            }
                        }
                    }
                    i = i + 1;
                }
                let ghost built = (self@, results@);
                assert(built == build_prefix(g0, *p, full_len(*p)));
                if results.len() == 0 {
                    return Ports { inn: None, out: None };
                }
                let mut acc = results[0];
                let mut k: usize = 1;
                while k < results.len()
                    invariant
                        *p == Pipeline::Chain(*elems),
                        arrows_ok(*p, elems@.len()),
                        results@.len() == elems@.len(),
                        forall|j: int| 0 <= j < results@.len() ==> (#[trigger] results@[j]).1 == elems@[j].arrow,
                        1 <= k <= results@.len(),
                        self.wf(),
                        (self@, acc) == reduce_chain(built.0, built.1, k as nat),
                        built.1 == results@,
                        results_ok(results@, self@.ops.len() as int),
                        ports_ok(acc.0, self@.ops.len() as int),
                        acc.1 == results@[k - 1].1,
                        self@.ops.len() == built.0.ops.len(),
                        built.0.ops.len() >= old(self)@.ops.len(),
                    decreases results@.len() - k,
                {
                    proof {
                        lemma_arrows_ok_elem(*p, elems@.len(), k - 1);
                    }
                    let next = results[k];
                    let arrow = acc.1.unwrap();
                    self.connect(acc.0, arrow, next.0);
                    acc = (Ports { inn: acc.0.inn, out: next.0.out }, next.1);
                    proof {
                        assert forall|j: int| 0 <= j < self.names@.len() implies ports_ok(
                            #[trigger] self.names@[j].1,
                            self.operators@.len() as int,
                        ) by {
                        }
                    }
                    k = k + 1;
                }
                acc.0
            },
            Pipeline::Name(n) => {
                let mut j: usize = self.names.len();
                assert(self@.names.take(j as int) =~= self@.names);
                let mut result: Option<Ports> = None;
                while j > 0
                    invariant_except_break
                        result is None,
                    invariant
                        self.wf(),
                        j <= self.names@.len(),
                        lookup_name(self@.names, n@) == lookup_name(self@.names.take(j as int), n@),
                    ensures
                        result == lookup_name(self@.names, n@),
                    decreases j,
                {
                    proof {
                        let t = self@.names.take(j as int);
                        assert(t.drop_last() == self@.names.take(j - 1));
                        assert(t.last() == (self.names@[j - 1].0@, self.names@[j - 1].1));
                    }
                    if self.names[j - 1].0 == *n {
                        result = Some(self.names[j - 1].1);
                        break;
                    }
                    j = j - 1;
                }
                match result {
                    Some(ports) => {
                        proof {
                            lemma_lookup_found(self@.names, n@);
                            let i = choose|i: int| 0 <= i < self@.names.len() && (#[trigger] self@.names[i]).1 == ports;
                            assert(self.names@[i].1 == ports);
                        }
                        ports
                    },
                    None => {
                        self.push_diagnostic(GraphDiagnostic::UnknownName(n.clone()));
                        Ports { inn: None, out: None }
                    },
                }
            },
            Pipeline::Operator(op) => {
                let info = OpInfo {
                    operator: Operator { name: op.name.clone(), text: op.text.clone() },
                    preds: Vec::new(),
                    succs: Vec::new(),
                };
                let ghost ops = self.operators@;
                let ghost ii = info;
                let id = self.operators.insert(info);
                proof {
                    lemma_map_push(ops, ii, |o: OpInfo| op_view(o));
                    assert(op_view(ii) == new_op(*op));
                    assert(id == OperatorId(ops.len() as usize));
                    assert forall|j: int| 0 <= j < self.names@.len() implies ports_ok(
                        #[trigger] self.names@[j].1,
                        self.operators@.len() as int,
                    ) by {
                        assert(ports_ok(self.names@[j].1, ops.len() as int));
                    }
                }
                Ports { inn: Some(id), out: Some(id) }
            },
        }
    }

    /// Adds statement `stmt`; a named statement also records its pipeline's ports under its
    /// name.
    pub fn add_statement(&mut self, stmt: &HfStatement)
        requires
            old(self).wf(),
            match *stmt {
                HfStatement::Named(_, p) => pipeline_ok(p),
                HfStatement::Pipeline(p) => pipeline_ok(p),
            },
        ensures
            final(self).wf(),
            final(self)@ == add_statement_spec(old(self)@, *stmt),
    {
        match stmt {
            HfStatement::Named(name, pipeline) => {
                let ports = self.add_pipeline(pipeline);
                let ghost mid = self@;
                let ghost names = self.names@;
                let entry = (name.clone(), ports);
                let ghost e = entry;
                self.names.push(entry);
                proof {
                    lemma_map_push(names, e, |e: (String, Ports)| (e.0@, e.1));
                    assert(self@ =~= (GraphView { names: mid.names.push((name@, ports)), ..mid }));
                }
                assert forall|j: int| 0 <= j < self.names@.len() implies ports_ok(
                    #[trigger] self.names@[j].1,
                    self.operators@.len() as int,
                ) by {
                    if j < names.len() {
                        assert(self.names@[j] == names[j]);
                    }
                }
            },
            HfStatement::Pipeline(pipeline) => {
                self.add_pipeline(pipeline);
            },
        }
    }

    /// The graph of program `input`.
    pub fn from_hfcode(input: &HfCode) -> (r: Result<Graph, ()>)
        requires
            statements_ok(input.statements@),
        ensures
            r is Ok,
            r->Ok_0.wf(),
            r->Ok_0@ == add_statements(input.statements@, input.statements@.len()),
    {
        let mut graph = Graph::new();
        let mut i: usize = 0;
        while i < input.statements.len()
            invariant
                i <= input.statements@.len(),
                statements_ok(input.statements@),
                graph.wf(),
                graph@ == add_statements(input.statements@, i as nat),
            decreases input.statements@.len() - i,
        {
            assert(match input.statements@[i as int] {
                HfStatement::Named(_, p) => pipeline_ok(p),
                HfStatement::Pipeline(p) => pipeline_ok(p),
            });
            graph.add_statement(&input.statements[i]);
            i = i + 1;
        }
        Ok(graph)
    }

    /// The diagnostics recorded so far.
    pub fn diagnostics(&self) -> (r: &Vec<GraphDiagnostic>)
        ensures
            diags_view(r@) == self@.diags,
    {
        &self.diagnostics
    }

    /// Number of operators.
    pub fn num_operators(&self) -> (r: usize)
        ensures
            r == self@.ops.len(),
    {
        self.operators.len()
    }

    /// Checks each operator's name and input and output counts against the known operators;
    /// returns the problems found, operator by operator.
    pub fn validate_operators(&self) -> (r: Vec<GraphDiagnostic>)
        ensures
            diags_view(r@) == validate_spec(self@.ops),
    {
        let ghost ops = self@.ops;
        let ghost parts = ops.map_values(|o: OpView| op_diags(o));
        let mut out: Vec<GraphDiagnostic> = Vec::new();
        let n = self.operators.len();
        let mut i: usize = 0;
        while i < n
            invariant
                n == ops.len(),
                ops == self@.ops,
                parts == ops.map_values(|o: OpView| op_diags(o)),
                i <= n,
                diags_view(out@) == concat_all(parts.take(i as int)),
            decreases n - i,
        {
            let op = self.op(OperatorId(i));
            assert(op_view(*op) == ops[i as int]);
            let ghost start = out@;
            match arity_of(&op.operator.name) {
                None => {
                    let d = GraphDiagnostic::UnknownOperator(op.operator.name.clone());
                    let ghost dd = d;
                    out.push(d);
                    proof {
                        lemma_map_push(start, dd, |d: GraphDiagnostic| diag_view(d));
                        assert(op_diags(ops[i as int]) =~= seq![diag_view(dd)]);
                        assert(diags_view(out@) =~= diags_view(start) + op_diags(ops[i as int]));
                    }
                },
                Some(bounds) => {
                    let (inn, outb) = bounds;
                    let ghost mid = out@;
                    if !within(op.preds.len(), inn) {
                        let d = GraphDiagnostic::InputCount {
                            op: op.operator.name.clone(),
                            count: op.preds.len(),
                            min: inn.0,
                            max: inn.1,
                        };
                        let ghost dd = d;
                        out.push(d);
                        proof {
                            lemma_map_push(start, dd, |d: GraphDiagnostic| diag_view(d));
                        }
                    }
                    let ghost mid2 = out@;
                    if !within(op.succs.len(), outb) {
                        let d = GraphDiagnostic::OutputCount {
                            op: op.operator.name.clone(),
                            count: op.succs.len(),
                            min: outb.0,
                            max: outb.1,
                        };
                        let ghost dd = d;
                        out.push(d);
                        proof {
                            lemma_map_push(mid2, dd, |d: GraphDiagnostic| diag_view(d));
                        }
                    }
                    proof {
                        assert(diags_view(out@) =~= diags_view(start) + op_diags(ops[i as int]));
                    }
                },
            }
            proof {
                assert(parts.take(i + 1) == parts.take(i as int).push(parts[i as int]));
                lemma_concat_all_push(parts.take(i as int), parts[i as int]);
            }
            i = i + 1;
        }
        assert(parts.take(n as int) == parts);
        out
    }

    /// The Mermaid flowchart of the graph; see [`mermaid`].
    pub fn mermaid_string(&self) -> (r: String)
        ensures
            r@ == mermaid(self@.ops),
    {
        let ghost ops = self@.ops;
        let ghost lines = Seq::new(ops.len(), |i: int| node_line(i as nat, ops[i]));
        let ghost edges = Seq::new(ops.len(), |i: int| edge_lines(i as nat, ops[i]));
        let mut s = String::new();
        push_str(&mut s, "flowchart TB\n");
        let ghost head = s@;
        let n = self.operators.len();
        let mut i: usize = 0;
        while i < n
            invariant
                n == ops.len(),
                ops == self@.ops,
                lines == Seq::new(ops.len(), |i: int| node_line(i as nat, ops[i])),
                head == "flowchart TB\n"@,
                i <= n,
                s@ == head + concat_all(lines.take(i as int)),
            decreases n - i,
        {
            let op = self.op(OperatorId(i));
            assert(op_view(*op) == ops[i as int]);
            let ghost before = s@;
            push_str(&mut s, "    ");
            push_key_number(&mut s, i);
            push_str(&mut s, "[\"");
            push_escaped(&mut s, &op.operator.text);
            push_str(&mut s, "\"]\n");
            proof {
                assert(s@ =~= before + node_line(i as nat, ops[i as int]));
                assert(lines.take(i + 1) == lines.take(i as int).push(lines[i as int]));
                lemma_concat_all_push(lines.take(i as int), lines[i as int]);
            }
            i = i + 1;
        }
        assert(lines.take(n as int) == lines);
        push_str(&mut s, "\n");
        let ghost body = s@;
        let mut i: usize = 0;
        while i < n
            invariant
                n == ops.len(),
                ops == self@.ops,
                edges == Seq::new(ops.len(), |i: int| edge_lines(i as nat, ops[i])),
                i <= n,
                s@ == body + concat_all(edges.take(i as int)),
            decreases n - i,
        {
            let op = self.op(OperatorId(i));
            assert(op_view(*op) == ops[i as int]);
            let ghost succs = ops[i as int].succs;
            let ghost parts = succs.map_values(|e: PortEdge| edge_line(i as nat, e.op.0 as nat));
            let ghost start = s@;
            let m = op.succs.len();
            let mut k: usize = 0;
            while k < m
                invariant
                    m == succs.len(),
                    succs == op.succs@,
                    parts == succs.map_values(|e: PortEdge| edge_line(i as nat, e.op.0 as nat)),
                    k <= m,
                    s@ == start + concat_all(parts.take(k as int)),
                decreases m - k,
            {
                let e = op.succs[k];
                let ghost before = s@;
                push_str(&mut s, "    ");
                push_key_number(&mut s, i);
                push_str(&mut s, "-->");
                push_key_number(&mut s, e.op.0);
                push_str(&mut s, "\n");
                proof {
                    assert(s@ =~= before + edge_line(i as nat, e.op.0 as nat));
                    assert(parts.take(k + 1) == parts.take(k as int).push(parts[k as int]));
                    lemma_concat_all_push(parts.take(k as int), parts[k as int]);
                }
                k = k + 1;
            }
            proof {
                assert(parts.take(m as int) == parts);
                assert(edges.take(i + 1) == edges.take(i as int).push(edges[i as int]));
                lemma_concat_all_push(edges.take(i as int), edges[i as int]);
            }
            i = i + 1;
        }
        assert(edges.take(n as int) == edges);
        assert(s@ =~= mermaid(ops));
        s
    }
}

impl Graph {
    /// Whether operator `y` can take color `c`.
    fn can_take(&self, y: usize, c: Color) -> (r: bool)
        requires
            y < self@.ops.len(),
        ensures
            r == takes_color(self@.ops, y as int, c),
    {
        let op = self.op(OperatorId(y));
        assert(op_view(*op) == self@.ops[y as int]);
        match op_color(op) {
            None => true,
            Some(d) => d == c,
        }
    }

    /// Marks the operators that color `c` reaches when spread from `start` along inputs
    /// (`preds`) or along outputs. Connections to operators the graph does not hold are not
    /// followed.
    fn spread_marks(&self, start: usize, c: Color, preds: bool) -> (r: Vec<bool>)
        requires
            start < self@.ops.len(),
        ensures
            r@.len() == self@.ops.len(),
            forall|v: int| 0 <= v < r@.len() ==> r@[v] == spreads_to(self@.ops, c, preds, start as int, v),
    {
        let ghost ops = self@.ops;
        let n = self.operators.len();
        let mut marks: Vec<bool> = Vec::new();
        let mut i: usize = 0;
        while i < n
            invariant
                i <= n,
                marks@ == Seq::new(i as nat, |_v: int| false),
            decreases n - i,
        {
            marks.push(false);
            assert(marks@ =~= Seq::new((i + 1) as nat, |_v: int| false));
            i = i + 1;
        }
        if !self.can_take(start, c) {
            proof {
                assert forall|v: int| 0 <= v < marks@.len() implies marks@[v] == spreads_to(
                    ops,
                    c,
                    preds,
                    start as int,
                    v,
                ) by {
                    if spreads_to(ops, c, preds, start as int, v) {
                        let p = choose|p: Seq<int>|
                            #[trigger] color_path(ops, c, preds, p) && p[0] == start && p.last() == v;
                        assert(takes_color(ops, p[0], c));
                    }
                }
            }
            return marks;
        }
        marks.set(start, true);
        proof {
            let p0 = seq![start as int];
            assert(color_path(ops, c, preds, p0));
            assert(spreads_to(ops, c, preds, start as int, start as int));
            vstd::set_lib::lemma_int_range(0, n as int);
        }
        let ghost mut vis: Set<int> = Set::new(|v: int| 0 <= v < n && marks@[v]);
        loop
            invariant
                ops == self@.ops,
                n == ops.len(),
                marks@.len() == n,
                start < n,
                marks@[start as int],
                forall|v: int| 0 <= v < n && #[trigger] marks@[v] ==> spreads_to(ops, c, preds, start as int, v),
                vis == Set::new(|v: int| 0 <= v < n && marks@[v]),
                vstd::set_lib::set_int_range(0, n as int).finite(),
                vstd::set_lib::set_int_range(0, n as int).len() == n,
            ensures
                marks@.len() == n,
                marks@[start as int],
                forall|v: int| 0 <= v < n && #[trigger] marks@[v] ==> spreads_to(ops, c, preds, start as int, v),
                forall|x: int, z: int|
                    0 <= x < n && 0 <= z < n && #[trigger] marks@[x] && connected(ops, x, preds, z)
                        && takes_color(ops, z, c) ==> #[trigger] marks@[z],
            decreases n - vis.len(),
        {
            let ghost vis0 = vis;
            proof {
                assert(vis.subset_of(vstd::set_lib::set_int_range(0, n as int)));
                vstd::set_lib::lemma_len_subset(vis, vstd::set_lib::set_int_range(0, n as int));
            }
            let mut changed = false;
            let mut x: usize = 0;
            while x < n
                invariant
                    ops == self@.ops,
                    n == ops.len(),
                    x <= n,
                    marks@.len() == n,
                    start < n,
                    marks@[start as int],
                    forall|v: int| 0 <= v < n && #[trigger] marks@[v] ==> spreads_to(ops, c, preds, start as int, v),
                    vis == Set::new(|v: int| 0 <= v < n && marks@[v]),
                    vis0.finite(),
                    vis0.len() <= n,
                    vis.subset_of(vstd::set_lib::set_int_range(0, n as int)),
                    vstd::set_lib::set_int_range(0, n as int).finite(),
                    vstd::set_lib::set_int_range(0, n as int).len() == n,
                    vis0.subset_of(vis),
                    changed ==> vis.len() > vis0.len(),
                    !changed ==> vis == vis0,
                    !changed ==> forall|x2: int, z: int|
                        0 <= x2 < x && 0 <= z < n && #[trigger] marks@[x2] && connected(ops, x2, preds, z)
                            && takes_color(ops, z, c) ==> #[trigger] marks@[z],
                decreases n - x,
            {
                if marks[x] {
                    let op = self.op(OperatorId(x));
                    assert(op_view(*op) == ops[x as int]);
                    let edges = if preds {
                        &op.preds
                    } else {
                        &op.succs
                    };
                    assert(edges@ == next_edges(ops, x as int, preds));
                    let m = edges.len();
                    let mut j: usize = 0;
                    while j < m
                        invariant
                            ops == self@.ops,
                            n == ops.len(),
                            x < n,
                            j <= m,
                            m == edges@.len(),
                            edges@ == next_edges(ops, x as int, preds),
                            marks@.len() == n,
                            start < n,
                            marks@[start as int],
                            marks@[x as int],
                            forall|v: int| 0 <= v < n && #[trigger] marks@[v] ==> spreads_to(ops, c, preds, start as int, v),
                            vis == Set::new(|v: int| 0 <= v < n && marks@[v]),
                            vis0.finite(),
                            vis0.len() <= n,
                            vis.subset_of(vstd::set_lib::set_int_range(0, n as int)),
                            vstd::set_lib::set_int_range(0, n as int).finite(),
                            vstd::set_lib::set_int_range(0, n as int).len() == n,
                            vis0.subset_of(vis),
                            changed ==> vis.len() > vis0.len(),
                            !changed ==> vis == vis0,
                            !changed ==> forall|x2: int, z: int|
                                0 <= x2 < x && 0 <= z < n && #[trigger] marks@[x2] && connected(ops, x2, preds, z)
                                    && takes_color(ops, z, c) ==> #[trigger] marks@[z],
                            !changed ==> forall|j2: int|
                                0 <= j2 < j && #[trigger] edges@[j2].op.0 < n && takes_color(
                                    ops,
                                    edges@[j2].op.0 as int,
                                    c,
                                ) ==> marks@[edges@[j2].op.0 as int],
                        decreases m - j,
                    {
                        let z = edges[j].op.0;
                        if z < n && self.can_take(z, c) && !marks[z] {
                            proof {
                                let p = choose|p: Seq<int>|
                                    #[trigger] color_path(ops, c, preds, p) && p[0] == start && p.last() == x;
                                let p2 = p.push(z as int);
                                assert(next_edges(ops, x as int, preds)[j as int].op.0 == z);
                                assert(connected(ops, x as int, preds, z as int));
                                assert(p2[p.len() - 1] == x);
                                assert forall|k: int| 0 <= k < p2.len() - 1 implies connected(
                                    ops,
                                    #[trigger] p2[k],
                                    preds,
                                    p2[k + 1],
                                ) by {
                                    if k < p.len() - 1 {
                                        assert(p2[k] == p[k] && p2[k + 1] == p[k + 1]);
                                    }
                                }
                                assert(color_path(ops, c, preds, p2));
                                assert(spreads_to(ops, c, preds, start as int, z as int));
                            }
                            let ghost before = vis;
                            marks.set(z, true);
                            proof {
                                vis = Set::new(|v: int| 0 <= v < n && marks@[v]);
                                assert(vis =~= before.insert(z as int));
                                vstd::set_lib::lemma_len_subset(before, vstd::set_lib::set_int_range(0, n as int));
                                vstd::set_lib::lemma_len_subset(vis0, before);
                            }
                            changed = true;
                        }
                        j = j + 1;
                    }
                    proof {
                        if !changed {
                            assert forall|z: int|
                                0 <= z < n && connected(ops, x as int, preds, z) && takes_color(ops, z, c)
                                    implies marks@[z] by {
                                let j2 = choose|j2: int|
                                    0 <= j2 < next_edges(ops, x as int, preds).len() && #[trigger] next_edges(
                                        ops,
                                        x as int,
                                        preds,
                                    )[j2].op.0 == z;
                                assert(edges@[j2].op.0 == z);
                            }
                        }
                    }
                }
                x = x + 1;
            }
            if !changed {
                break;
            }
            proof {
                vstd::set_lib::lemma_len_subset(vis, vstd::set_lib::set_int_range(0, n as int));
            }
        }
        proof {
            assert forall|v: int| 0 <= v < marks@.len() implies marks@[v] == spreads_to(
                ops,
                c,
                preds,
                start as int,
                v,
            ) by {
                if spreads_to(ops, c, preds, start as int, v) {
                    lemma_closed_holds_spread(ops, c, preds, start as int, marks@, v);
                }
            }
        }
        marks
    }

    /// Sets every operator that color `c` reaches from `start` to `c`.
    fn paint(&self, colors: &mut Vec<Option<Color>>, start: usize, c: Color, preds: bool)
        requires
            start < self@.ops.len(),
            old(colors)@.len() == self@.ops.len(),
        ensures
            final(colors)@ == spread(self@.ops, old(colors)@, c, preds, start as int),
    {
        let ghost before = colors@;
        let marks = self.spread_marks(start, c, preds);
        let n = marks.len();
        let mut v: usize = 0;
        while v < n
            invariant
                n == marks@.len(),
                n == before.len(),
                v <= n,
                colors@ == Seq::new(
                    n as nat,
                    |u: int|
                        if u < v && marks@[u] {
                            Some(c)
                        } else {
                            before[u]
                        },
                ),
            decreases n - v,
        {
            if marks[v] {
                colors.set(v, Some(c));
            }
            proof {
                assert(colors@ =~= Seq::new(
                    n as nat,
                    |u: int|
                        if u < v + 1 && marks@[u] {
                            Some(c)
                        } else {
                            before[u]
                        },
                ));
            }
            v = v + 1;
        }
        assert(colors@ =~= spread(self@.ops, before, c, preds, start as int));
    }

    /// Colors the operators by how they move data: visits them in order, and an operator not
    /// yet colored whose input and output counts determine a color takes it and spreads it
    /// (see [`color_step`]). Returns the color of each operator, if it got one.
    pub fn identify_subgraphs(&self) -> (r: Vec<Option<Color>>)
        ensures
            r@ == colors_upto(self@.ops, self@.ops.len()),
            r@.len() == self@.ops.len(),
            forall|v: int|
                0 <= v < r@.len() && (#[trigger] r@[v]) is Some ==> takes_color(self@.ops, v, r@[v]->0),
            forall|v: int|
                0 <= v < r@.len() && color_of(self@.ops[v].preds.len(), self@.ops[v].succs.len()) is Some
                    ==> #[trigger] r@[v] == color_of(self@.ops[v].preds.len(), self@.ops[v].succs.len()),
    {
        let ghost ops = self@.ops;
        let n = self.operators.len();
        let mut colors: Vec<Option<Color>> = Vec::new();
        let mut i: usize = 0;
        while i < n
            invariant
                i <= n,
                colors@ == Seq::new(i as nat, |_v: int| None::<Color>),
            decreases n - i,
        {
            colors.push(None);
            assert(colors@ =~= Seq::new((i + 1) as nat, |_v: int| None::<Color>));
            i = i + 1;
        }
        assert(colors@ =~= colors_upto(ops, 0));
        let mut k: usize = 0;
        while k < n
            invariant
                ops == self@.ops,
                n == ops.len(),
                k <= n,
                colors@ == colors_upto(ops, k as nat),
                colors@.len() == n,
            decreases n - k,
        {
            let op = self.op(OperatorId(k));
            assert(op_view(*op) == ops[k as int]);
            match op_color(op) {
                None => {},
                Some(c) => {
                    if colors[k].is_none() {
                        colors.set(k, Some(c));
                        match c {
                            Color::Comp => {
                                self.paint(&mut colors, k, Color::Pull, true);
                                self.paint(&mut colors, k, Color::Push, false);
                            },
                            _ => {
                                self.paint(&mut colors, k, c, true);
                                self.paint(&mut colors, k, c, false);
                            },
                        }
                    }
                },
            }
            k = k + 1;
        }
        proof {
            lemma_coloring_respects_own_colors(self@.ops, self@.ops.len());
        }
        colors
    }
}

} // verus!
