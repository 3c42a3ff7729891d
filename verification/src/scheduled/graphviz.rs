//! The statements of a Graphviz drawing of a dataflow graph: one cluster per subgraph with a
//! node per port, and per handoff a box node with edges from its senders' ports and to its
//! receivers' ports.
use vstd::prelude::*;

use crate::scheduled::graph::{structure_wf, HandoffData, HandoffId, Hydroflow, SubgraphData, SubgraphId};
use crate::scheduled::handoff::Handoff;
use crate::text::{concat_all, debug_quote, debug_quoted, decimal, push_decimal, push_str};

verus! {

/// A `key = value` attribute.
pub struct DotAttr {
    /// The attribute's name.
    pub key: String,
    /// The attribute's value, as written.
    pub value: String,
}

/// A node and its attributes.
pub struct DotNode {
    /// The node's id.
    pub id: String,
    /// The node's attributes.
    pub attrs: Vec<DotAttr>,
}

/// A directed edge between two node ids.
pub struct DotEdge {
    /// The tail's node id.
    pub from: String,
    /// The head's node id.
    pub to: String,
}

/// A statement inside a cluster.
pub enum DotClusterItem {
    /// A node of the cluster.
    Node(DotNode),
    /// An attribute of the cluster itself.
    Attr(DotAttr),
}

/// A cluster of nodes.
pub struct DotCluster {
    /// The cluster's id.
    pub id: String,
    /// Its nodes and attributes.
    pub items: Vec<DotClusterItem>,
}

/// A statement of the drawing.
pub enum DotStmt {
    /// A cluster.
    Cluster(DotCluster),
    /// A node.
    Node(DotNode),
    /// An edge.
    Edge(DotEdge),
}

/// The text of a cluster statement.
pub enum DotItemText {
    /// A node: its id and its attributes.
    Node(Seq<char>, Seq<(Seq<char>, Seq<char>)>),
    /// An attribute.
    Attr(Seq<char>, Seq<char>),
}

/// The text of a statement.
pub enum DotStmtText {
    /// A cluster: its id and its statements.
    Cluster(Seq<char>, Seq<DotItemText>),
    /// A node: its id and its attributes.
    Node(Seq<char>, Seq<(Seq<char>, Seq<char>)>),
    /// An edge: tail and head ids.
    Edge(Seq<char>, Seq<char>),
}

/// The text of an attribute.
pub open spec fn attr_text(a: DotAttr) -> (Seq<char>, Seq<char>) {
    (a.key@, a.value@)
}

/// The texts of a node's attributes.
pub open spec fn attrs_text(attrs: Seq<DotAttr>) -> Seq<(Seq<char>, Seq<char>)> {
    attrs.map_values(|a: DotAttr| attr_text(a))
}

/// The text of a cluster statement.
pub open spec fn item_text(i: DotClusterItem) -> DotItemText {
    match i {
        DotClusterItem::Node(n) => DotItemText::Node(n.id@, attrs_text(n.attrs@)),
        DotClusterItem::Attr(a) => DotItemText::Attr(a.key@, a.value@),
    }
}

/// The text of a statement.
pub open spec fn stmt_text(s: DotStmt) -> DotStmtText {
    match s {
        DotStmt::Cluster(c) => DotStmtText::Cluster(c.id@, c.items@.map_values(|i: DotClusterItem| item_text(i))),
        DotStmt::Node(n) => DotStmtText::Node(n.id@, attrs_text(n.attrs@)),
        DotStmt::Edge(e) => DotStmtText::Edge(e.from@, e.to@),
    }
}

/// The texts of statements.
pub open spec fn stmts_text(s: Seq<DotStmt>) -> Seq<DotStmtText> {
    s.map_values(|x: DotStmt| stmt_text(x))
}

/// Id of the node for subgraph `sg`'s port on handoff `h`, in direction `dir`.
pub open spec fn port_node_id(sg: nat, h: nat, dir: Seq<char>) -> Seq<char> {
    "sg_"@ + decimal(sg) + "_hoff_"@ + decimal(h) + "_"@ + dir
}

/// Id of the node for handoff `h`.
pub open spec fn hoff_node_id(h: nat) -> Seq<char> {
    "hoff_"@ + decimal(h)
}

/// The port node of subgraph `sg` on handoff `h` in direction `dir`.
pub open spec fn port_item(sg: nat, h: nat, dir: Seq<char>) -> DotItemText {
    DotItemText::Node(
        port_node_id(sg, h, dir),
        seq![("label"@, debug_quoted("H["@ + decimal(h) + "] "@ + dir))],
    )
}

/// The cluster of subgraph `sg`: a node per input port, then per output port, then its label
/// and style.
pub open spec fn subgraph_cluster(sg: nat, d: SubgraphData) -> DotStmtText {
    DotStmtText::Cluster(
        "cluster_sg_"@ + decimal(sg),
        d.preds@.map_values(|h: HandoffId| port_item(sg, h.0 as nat, "recv"@)) + d.succs@.map_values(
            |h: HandoffId| port_item(sg, h.0 as nat, "send"@),
        ) + seq![
            DotItemText::Attr("label"@, debug_quoted("SG["@ + decimal(sg) + "]: "@ + d.name@)),
            DotItemText::Attr("style"@, "rounded"@),
        ],
    )
}

/// The statements of handoff `h`: an edge from each sender's port, an edge to each
/// receiver's port, then the handoff's box node.
pub open spec fn handoff_stmts<H: Handoff>(h: nat, d: HandoffData<H>) -> Seq<DotStmtText> {
    d.preds@.map_values(|sg: SubgraphId| DotStmtText::Edge(port_node_id(sg.0 as nat, h, "send"@), hoff_node_id(h)))
        + d.succs@.map_values(|sg: SubgraphId| DotStmtText::Edge(hoff_node_id(h), port_node_id(sg.0 as nat, h, "recv"@)))
        + seq![
        DotStmtText::Node(
            hoff_node_id(h),
            seq![
                ("label"@, debug_quoted("H["@ + decimal(h) + "]: "@ + d.name@)),
                ("shape"@, "box"@),
            ],
        ),
    ]
}

/// The drawing: the subgraphs' clusters in order, then each handoff's statements in order.
pub open spec fn graphviz_stmts<H: Handoff>(sgs: Seq<SubgraphData>, hs: Seq<HandoffData<H>>) -> Seq<DotStmtText> {
    Seq::new(sgs.len(), |i: int| subgraph_cluster(i as nat, sgs[i])) + concat_all(
        Seq::new(hs.len(), |h: int| handoff_stmts(h as nat, hs[h])),
    )
}

/// Whether statement `s` is a node with id `id`, or a cluster holding such a node.
pub open spec fn holds_node(s: DotStmtText, id: Seq<char>) -> bool {
    match s {
        DotStmtText::Node(n, _) => n == id,
        DotStmtText::Cluster(_, items) => exists|j: int|
            0 <= j < items.len() && (#[trigger] items[j] matches DotItemText::Node(n, _) && n == id),
        DotStmtText::Edge(_, _) => false,
    }
}

/// Whether some statement of `stmts` is, or holds, a node with id `id`.
pub open spec fn names_node(stmts: Seq<DotStmtText>, id: Seq<char>) -> bool {
    exists|i: int| 0 <= i < stmts.len() && #[trigger] holds_node(stmts[i], id)
}

/// Every statement of a part appears somewhere in the concatenation of the parts.
proof fn lemma_concat_has_part<A>(parts: Seq<Seq<A>>, h: int, j: int)
    requires
        0 <= h < parts.len(),
        0 <= j < parts[h].len(),
    ensures
        exists|i: int| 0 <= i < concat_all(parts).len() && concat_all(parts)[i] == parts[h][j],
    decreases parts.len(),
{
    let init = parts.drop_last();
    if h < parts.len() - 1 {
        lemma_concat_has_part(init, h, j);
        let i = choose|i: int| 0 <= i < concat_all(init).len() && concat_all(init)[i] == init[h][j];
        assert(concat_all(parts)[i] == parts[h][j]);
    } else {
        let i = concat_all(init).len() + j;
        assert(concat_all(parts)[i] == parts[h][j]);
    }
}

/// Every statement of the concatenation comes from one of the parts.
proof fn lemma_concat_from_part<A>(parts: Seq<Seq<A>>, i: int)
    requires
        0 <= i < concat_all(parts).len(),
    ensures
        exists|h: int, j: int|
            0 <= h < parts.len() && 0 <= j < parts[h].len() && concat_all(parts)[i] == parts[h][j],
    decreases parts.len(),
{
    let init = parts.drop_last();
    if i < concat_all(init).len() {
        lemma_concat_from_part(init, i);
        let (h, j) = choose|h: int, j: int|
            0 <= h < init.len() && 0 <= j < init[h].len() && concat_all(init)[i] == init[h][j];
        assert(concat_all(parts)[i] == parts[h][j]);
    } else {
        let h = parts.len() - 1;
        let j = i - concat_all(init).len();
        assert(concat_all(parts)[i] == parts[h][j]);
    }
}

/// In the drawing of a consistently wired graph every edge starts and ends at a node that
/// the drawing holds: a subgraph's output port towards a handoff is a node of that
/// subgraph's cluster, so is its input port from a handoff, and every handoff has its node.
pub proof fn lemma_graphviz_edges_end_at_nodes<H: Handoff>(sgs: Seq<SubgraphData>, hs: Seq<HandoffData<H>>)
    requires
        structure_wf(sgs, hs),
        hs.len() <= usize::MAX,
    ensures
        forall|e: int|
            0 <= e < graphviz_stmts(sgs, hs).len() ==> (#[trigger] graphviz_stmts(sgs, hs)[e] matches DotStmtText::Edge(
                f,
                t,
            ) ==> names_node(graphviz_stmts(sgs, hs), f) && names_node(graphviz_stmts(sgs, hs), t)),
{
    let stmts = graphviz_stmts(sgs, hs);
    let clusters = Seq::new(sgs.len(), |i: int| subgraph_cluster(i as nat, sgs[i]));
    let parts = Seq::new(hs.len(), |h: int| handoff_stmts(h as nat, hs[h]));
    assert(stmts == clusters + concat_all(parts));
    // Each handoff's node is in the drawing.
    assert forall|h: int| 0 <= h < hs.len() implies names_node(stmts, #[trigger] hoff_node_id(h as nat)) by {
        let last = parts[h].len() - 1;
        lemma_concat_has_part(parts, h, last);
        let i = choose|i: int| 0 <= i < concat_all(parts).len() && concat_all(parts)[i] == parts[h][last];
        assert(stmts[clusters.len() + i] == parts[h][last]);
        assert(holds_node(stmts[clusters.len() + i], hoff_node_id(h as nat)));
    }
    assert forall|e: int|
        0 <= e < stmts.len() implies (#[trigger] stmts[e] matches DotStmtText::Edge(f, t) ==> names_node(
        stmts,
        f,
    ) && names_node(stmts, t)) by {
        if e >= clusters.len() {
            let i = e - clusters.len();
            lemma_concat_from_part(parts, i);
            let (h, j) = choose|h: int, j: int|
                0 <= h < parts.len() && 0 <= j < parts[h].len() && concat_all(parts)[i] == parts[h][j];
            assert(stmts[e] == parts[h][j]);
            let d = hs[h];
            let np = d.preds@.len() as int;
            let ns = d.succs@.len() as int;
            let hu = h as usize;
            if j < np {
                let sg = d.preds@[j];
                assert(sg.0 < sgs.len());
                assert(hs[hu as int].preds@.contains(SubgraphId(sg.0)));
                assert(sgs[sg.0 as int].succs@.contains(HandoffId(hu)));
                let k = choose|k: int| 0 <= k < sgs[sg.0 as int].succs@.len() && sgs[sg.0 as int].succs@[k] == HandoffId(hu);
                let c = sgs[sg.0 as int];
                let items = c.preds@.map_values(|x: HandoffId| port_item(sg.0 as nat, x.0 as nat, "recv"@)) + c.succs@.map_values(
                    |x: HandoffId| port_item(sg.0 as nat, x.0 as nat, "send"@),
                ) + seq![
                    DotItemText::Attr("label"@, debug_quoted("SG["@ + decimal(sg.0 as nat) + "]: "@ + c.name@)),
                    DotItemText::Attr("style"@, "rounded"@),
                ];
                assert(stmts[sg.0 as int] == DotStmtText::Cluster("cluster_sg_"@ + decimal(sg.0 as nat), items));
                assert(items[c.preds@.len() + k] == port_item(sg.0 as nat, h as nat, "send"@));
                assert(holds_node(stmts[sg.0 as int], port_node_id(sg.0 as nat, h as nat, "send"@)));
                assert(names_node(stmts, hoff_node_id(h as nat)));
            } else if j < np + ns {
                let sg = d.succs@[j - np];
                assert(sg.0 < sgs.len());
                assert(hs[hu as int].succs@.contains(SubgraphId(sg.0)));
                assert(sgs[sg.0 as int].preds@.contains(HandoffId(hu)));
                let k = choose|k: int| 0 <= k < sgs[sg.0 as int].preds@.len() && sgs[sg.0 as int].preds@[k] == HandoffId(hu);
                let c = sgs[sg.0 as int];
                let items = c.preds@.map_values(|x: HandoffId| port_item(sg.0 as nat, x.0 as nat, "recv"@)) + c.succs@.map_values(
                    |x: HandoffId| port_item(sg.0 as nat, x.0 as nat, "send"@),
                ) + seq![
                    DotItemText::Attr("label"@, debug_quoted("SG["@ + decimal(sg.0 as nat) + "]: "@ + c.name@)),
                    DotItemText::Attr("style"@, "rounded"@),
                ];
                assert(stmts[sg.0 as int] == DotStmtText::Cluster("cluster_sg_"@ + decimal(sg.0 as nat), items));
                assert(items[k] == port_item(sg.0 as nat, h as nat, "recv"@));
                assert(holds_node(stmts[sg.0 as int], port_node_id(sg.0 as nat, h as nat, "recv"@)));
                assert(names_node(stmts, hoff_node_id(h as nat)));
            }
        }
    }
}

proof fn lemma_map_push<A, B>(s: Seq<A>, x: A, f: spec_fn(A) -> B)
    ensures
        s.push(x).map_values(f) == s.map_values(f).push(f(x)),
{
    assert(s.push(x).map_values(f) =~= s.map_values(f).push(f(x)));
}

fn port_node_id_string(sg: usize, h: usize, dir: &str) -> (r: String)
    ensures
        r@ == port_node_id(sg as nat, h as nat, dir@),
{
    let mut s = String::new();
    push_str(&mut s, "sg_");
    push_decimal(&mut s, sg as u128);
    push_str(&mut s, "_hoff_");
    push_decimal(&mut s, h as u128);
    push_str(&mut s, "_");
    push_str(&mut s, dir);
    assert(s@ =~= port_node_id(sg as nat, h as nat, dir@));
    s
}

fn hoff_node_id_string(h: usize) -> (r: String)
    ensures
        r@ == hoff_node_id(h as nat),
{
    let mut s = String::new();
    push_str(&mut s, "hoff_");
    push_decimal(&mut s, h as u128);
    assert(s@ =~= hoff_node_id(h as nat));
    s
}

fn attr(key: &str, value: String) -> (r: DotAttr)
    ensures
        r.key@ == key@,
        r.value == value,
{
    DotAttr { key: key.to_owned(), value }
}

/// `format!("{:?}", format!("{prefix}{n}{middle}{tail}"))`.
fn quoted_label(prefix: &str, n: usize, middle: &str, tail: &str) -> (r: String)
    ensures
        r@ == debug_quoted(prefix@ + decimal(n as nat) + middle@ + tail@),
{
    let mut s = String::new();
    push_str(&mut s, prefix);
    push_decimal(&mut s, n as u128);
    push_str(&mut s, middle);
    push_str(&mut s, tail);
    assert(s@ =~= prefix@ + decimal(n as nat) + middle@ + tail@);
    debug_quote(s.as_str())
}

fn port_item_exec(sg: usize, h: usize, dir: &str) -> (r: DotClusterItem)
    ensures
        item_text(r) == port_item(sg as nat, h as nat, dir@),
{
    let mut attrs: Vec<DotAttr> = Vec::new();
    attrs.push(attr("label", quoted_label("H[", h, "] ", dir)));
    let r = DotClusterItem::Node(DotNode { id: port_node_id_string(sg, h, dir), attrs });
    assert(attrs_text(attrs@) =~= seq![("label"@, debug_quoted("H["@ + decimal(h as nat) + "] "@ + dir@))]);
    r
}

fn subgraph_cluster_exec(sg: usize, d: &SubgraphData) -> (r: DotStmt)
    ensures
        stmt_text(r) == subgraph_cluster(sg as nat, *d),
{
    let ghost recv = d.preds@.map_values(|h: HandoffId| port_item(sg as nat, h.0 as nat, "recv"@));
    let ghost send = d.succs@.map_values(|h: HandoffId| port_item(sg as nat, h.0 as nat, "send"@));
    let mut items: Vec<DotClusterItem> = Vec::new();
    let mut i: usize = 0;
    while i < d.preds.len()
        invariant
            i <= d.preds@.len(),
            items@.map_values(|x: DotClusterItem| item_text(x)) == recv.take(i as int),
            recv == d.preds@.map_values(|h: HandoffId| port_item(sg as nat, h.0 as nat, "recv"@)),
        decreases d.preds@.len() - i,
    {
        let item = port_item_exec(sg, d.preds[i].0, "recv");
        let ghost before = items@;
        let ghost it = item;
        items.push(item);
        proof {
            lemma_map_push(before, it, |x: DotClusterItem| item_text(x));
            assert(recv.take(i + 1) =~= recv.take(i as int).push(recv[i as int]));
        }
        i = i + 1;
    }
    let mut j: usize = 0;
    while j < d.succs.len()
        invariant
            j <= d.succs@.len(),
            items@.map_values(|x: DotClusterItem| item_text(x)) == recv + send.take(j as int),
            recv.len() == d.preds@.len(),
            send == d.succs@.map_values(|h: HandoffId| port_item(sg as nat, h.0 as nat, "send"@)),
        decreases d.succs@.len() - j,
    {
        let item = port_item_exec(sg, d.succs[j].0, "send");
        let ghost before = items@;
        let ghost it = item;
        items.push(item);
        proof {
            lemma_map_push(before, it, |x: DotClusterItem| item_text(x));
            assert(recv + send.take(j + 1) =~= (recv + send.take(j as int)).push(send[j as int]));
        }
        j = j + 1;
    }
    let label = DotClusterItem::Attr(attr("label", quoted_label("SG[", sg, "]: ", d.name.as_str())));
    let ghost before = items@;
    let ghost it = label;
    items.push(label);
    proof {
        lemma_map_push(before, it, |x: DotClusterItem| item_text(x));
    }
    let style = DotClusterItem::Attr(attr("style", "rounded".to_owned()));
    let ghost before2 = items@;
    let ghost it2 = style;
    items.push(style);
    proof {
        lemma_map_push(before2, it2, |x: DotClusterItem| item_text(x));
    }
    let mut id = String::new();
    push_str(&mut id, "cluster_sg_");
    push_decimal(&mut id, sg as u128);
    let r = DotStmt::Cluster(DotCluster { id, items });
    proof {
        assert(recv.take(d.preds@.len() as int) == recv);
        assert(send.take(d.succs@.len() as int) == send);
        assert(id@ =~= "cluster_sg_"@ + decimal(sg as nat));
        assert(items@.map_values(|x: DotClusterItem| item_text(x)) =~= recv + send + seq![
            DotItemText::Attr("label"@, debug_quoted("SG["@ + decimal(sg as nat) + "]: "@ + d.name@)),
            DotItemText::Attr("style"@, "rounded"@),
        ]);
    }
    r
}

fn handoff_stmts_exec<H: Handoff>(h: usize, d: &HandoffData<H>, out: &mut Vec<DotStmt>)
    ensures
        stmts_text(final(out)@) == stmts_text(old(out)@) + handoff_stmts(h as nat, *d),
{
    let ghost start = stmts_text(out@);
    let ghost ins = d.preds@.map_values(|sg: SubgraphId| DotStmtText::Edge(port_node_id(sg.0 as nat, h as nat, "send"@), hoff_node_id(h as nat)));
    let ghost outs = d.succs@.map_values(|sg: SubgraphId| DotStmtText::Edge(hoff_node_id(h as nat), port_node_id(sg.0 as nat, h as nat, "recv"@)));
    let mut i: usize = 0;
    while i < d.preds.len()
        invariant
            i <= d.preds@.len(),
            stmts_text(out@) == start + ins.take(i as int),
            ins == d.preds@.map_values(|sg: SubgraphId| DotStmtText::Edge(port_node_id(sg.0 as nat, h as nat, "send"@), hoff_node_id(h as nat))),
        decreases d.preds@.len() - i,
    {
        let e = DotStmt::Edge(DotEdge {
            from: port_node_id_string(d.preds[i].0, h, "send"),
            to: hoff_node_id_string(h),
        });
        let ghost before = out@;
        let ghost it = e;
        out.push(e);
        proof {
            lemma_map_push(before, it, |x: DotStmt| stmt_text(x));
            assert(start + ins.take(i + 1) =~= (start + ins.take(i as int)).push(ins[i as int]));
        }
        i = i + 1;
    }
    let mut j: usize = 0;
    while j < d.succs.len()
        invariant
            j <= d.succs@.len(),
            stmts_text(out@) == start + ins + outs.take(j as int),
            ins.len() == d.preds@.len(),
            outs == d.succs@.map_values(|sg: SubgraphId| DotStmtText::Edge(hoff_node_id(h as nat), port_node_id(sg.0 as nat, h as nat, "recv"@))),
        decreases d.succs@.len() - j,
    {
        let e = DotStmt::Edge(DotEdge {
            from: hoff_node_id_string(h),
            to: port_node_id_string(d.succs[j].0, h, "recv"),
        });
        let ghost before = out@;
        let ghost it = e;
        out.push(e);
        proof {
            lemma_map_push(before, it, |x: DotStmt| stmt_text(x));
            assert(start + ins + outs.take(j + 1) =~= (start + ins + outs.take(j as int)).push(outs[j as int]));
        }
        j = j + 1;
    }
    let mut attrs: Vec<DotAttr> = Vec::new();
    attrs.push(attr("label", quoted_label("H[", h, "]: ", d.name.as_str())));
    attrs.push(attr("shape", "box".to_owned()));
    let node = DotStmt::Node(DotNode { id: hoff_node_id_string(h), attrs });
    proof {
        assert(attrs_text(attrs@) =~= seq![
            ("label"@, debug_quoted("H["@ + decimal(h as nat) + "]: "@ + d.name@)),
            ("shape"@, "box"@),
        ]);
    }
    let ghost before = out@;
    let ghost it = node;
    out.push(node);
    proof {
        lemma_map_push(before, it, |x: DotStmt| stmt_text(x));
        assert(ins.take(d.preds@.len() as int) == ins);
        assert(outs.take(d.succs@.len() as int) == outs);
        assert(stmts_text(out@) =~= start + handoff_stmts(h as nat, *d));
    }
}

impl<H: Handoff> Hydroflow<H> {
    /// The statements of a Graphviz drawing of this graph.
    pub fn graphviz(&self) -> (r: Vec<DotStmt>)
        ensures
            stmts_text(r@) == graphviz_stmts(self.subgraphs_view(), self.handoffs_view()),
            self.wf() ==> forall|e: int|
                0 <= e < stmts_text(r@).len() ==> (#[trigger] stmts_text(r@)[e] matches DotStmtText::Edge(
                    f,
                    t,
                ) ==> names_node(stmts_text(r@), f) && names_node(stmts_text(r@), t)),
    {
        let subgraphs = self.subgraphs();
        let handoffs = self.handoffs();
        let ghost sgs = subgraphs@;
        let ghost hs = handoffs@;
        let ghost clusters = Seq::new(sgs.len(), |i: int| subgraph_cluster(i as nat, sgs[i]));
        let ghost parts = Seq::new(hs.len(), |h: int| handoff_stmts(h as nat, hs[h]));
        let mut out: Vec<DotStmt> = Vec::new();
        let mut i: usize = 0;
        while i < subgraphs.len()
            invariant
                i <= sgs.len(),
                sgs == subgraphs@,
                clusters == Seq::new(sgs.len(), |i: int| subgraph_cluster(i as nat, sgs[i])),
                stmts_text(out@) == clusters.take(i as int),
            decreases sgs.len() - i,
        {
            let c = subgraph_cluster_exec(i, &subgraphs[i]);
            let ghost before = out@;
            let ghost it = c;
            out.push(c);
            proof {
                lemma_map_push(before, it, |x: DotStmt| stmt_text(x));
                assert(clusters.take(i + 1) =~= clusters.take(i as int).push(clusters[i as int]));
            }
            i = i + 1;
        }
        assert(clusters.take(sgs.len() as int) == clusters);
        let mut h: usize = 0;
        while h < handoffs.len()
            invariant
                h <= hs.len(),
                hs == handoffs@,
                parts == Seq::new(hs.len(), |h: int| handoff_stmts(h as nat, hs[h])),
                stmts_text(out@) == clusters + concat_all(parts.take(h as int)),
            decreases hs.len() - h,
        {
            handoff_stmts_exec(h, &handoffs[h], &mut out);
            proof {
                assert(parts.take(h + 1).drop_last() == parts.take(h as int));
                assert(parts.take(h + 1).last() == handoff_stmts(h as nat, hs[h as int]));
                assert(stmts_text(out@) =~= clusters + concat_all(parts.take(h + 1)));
            }
            h = h + 1;
        }
        assert(parts.take(hs.len() as int) == parts);
        proof {
            if self.wf() {
                lemma_graphviz_edges_end_at_nodes(sgs, hs);
            }
        }
        out
    }
}

} // verus!
