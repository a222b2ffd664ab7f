//! The logical program handed to the runtime: operator nodes, typed edges
//! and the operator configurations they carry.
use crate::schema::{ArroyoSchema, Field, timestamp_name};
use crate::text::{decimal, is_digit, lemma_decimal_digits, lemma_decimal_injective};
use vstd::prelude::*;

verus! {

/// How records travel along an edge.
#[derive(Clone, Copy, Debug, PartialEq, Eq, Structural)]
pub enum EdgeKind {
    /// A co-partitioned channel.
    Forward,
    /// Repartitioning by the upstream key columns.
    Shuffle,
    /// Every downstream partition gets every record.
    Broadcast,
}

/// Connector configuration produced by the connector layer; the planner
/// never interprets it.
#[derive(Clone, Debug, PartialEq, Eq)]
pub struct ConnectorOp {
    pub connector: String,
    pub config: String,
    pub description: String,
}

/// Configuration of a periodic watermark operator.
#[derive(Clone, Copy, Debug, PartialEq, Eq, Structural)]
pub struct PeriodicWatermark {
    pub period_micros: u64,
    pub max_lateness_micros: u64,
    pub idle_time_micros: Option<u64>,
}

/// Aggregation mode of a physical aggregate.
#[derive(Clone, Copy, Debug, PartialEq, Eq, Structural)]
pub enum AggregateMode {
    Partial,
    Final,
    FinalPartitioned,
    Single,
    SinglePartitioned,
}

/// The shape of a physical plan node, as far as the planner reads it.
#[derive(Debug, PartialEq, Eq)]
pub enum PhysicalNode {
    /// An aggregate over an optional child; `detail` holds its encoded
    /// grouping and aggregate expressions.
    Aggregate { mode: AggregateMode, input: Option<Box<PhysicalPlan>>, detail: Vec<u8> },
    /// A relation fed at run time under the given table name.
    MemoryTable { table_name: String },
    /// Any other node, already encoded.
    Encoded(Vec<u8>),
}

/// A physical plan node together with its output fields.
#[derive(Debug, PartialEq, Eq)]
pub struct PhysicalPlan {
    pub node: PhysicalNode,
    pub schema: Vec<Field>,
}

/// Configuration of a value-projection operator.
#[derive(Debug, PartialEq, Eq)]
pub struct ValuePlanOperator {
    pub name: String,
    pub physical_plan: Vec<u8>,
}

/// Configuration of a key-extraction operator.
#[derive(Debug, PartialEq, Eq)]
pub struct KeyPlanOperator {
    pub name: String,
    pub physical_plan: Vec<u8>,
    pub key_fields: Vec<u64>,
}

/// Configuration of a tumbling-window aggregate, split into a partial
/// aggregation per bin and a final aggregation over the partial results.
#[derive(Debug, PartialEq, Eq)]
pub struct TumblingWindowAggregateOperator {
    pub name: String,
    pub width_micros: u64,
    pub binning_function: Vec<u8>,
    pub window_field_name: String,
    pub window_index: u64,
    pub input_schema: ArroyoSchema,
    pub partial_schema: ArroyoSchema,
    pub partial_aggregation_plan: PhysicalPlan,
    pub final_aggregation_plan: PhysicalPlan,
}

/// Kind of a logical operator.
#[derive(Clone, Copy, Debug, PartialEq, Eq, Structural)]
pub enum OperatorName {
    ConnectorSource,
    Watermark,
    ArrowValue,
    ArrowKey,
    TumblingWindowAggregate,
    ConnectorSink,
}

/// The configuration an operator is built from.
#[derive(Debug, PartialEq, Eq)]
pub enum OperatorConfig {
    Connector(ConnectorOp),
    Watermark(PeriodicWatermark),
    Value(ValuePlanOperator),
    Key(KeyPlanOperator),
    TumblingWindow(TumblingWindowAggregateOperator),
}

/// A node of the logical program.
#[derive(Debug, PartialEq, Eq)]
pub struct LogicalNode {
    pub operator_id: String,
    pub description: String,
    pub operator_name: OperatorName,
    pub operator_config: OperatorConfig,
    pub parallelism: usize,
}

/// An edge of the logical program, between node positions.
#[derive(Debug, PartialEq, Eq)]
pub struct LogicalEdge {
    pub source: usize,
    pub target: usize,
    pub edge_type: EdgeKind,
    pub schema: ArroyoSchema,
    pub projection: Option<Vec<usize>>,
}

/// A dataflow program: nodes, edges between them, and bound connections.
#[derive(Debug, PartialEq, Eq)]
pub struct LogicalProgram {
    pub nodes: Vec<LogicalNode>,
    pub edges: Vec<LogicalEdge>,
    pub connection_ids: Vec<i64>,
}

/// The watermark every source is followed by: one second period, no
/// lateness, no idle timeout.
pub open spec fn default_watermark() -> PeriodicWatermark {
    PeriodicWatermark { period_micros: 1_000_000, max_lateness_micros: 0, idle_time_micros: None }
}

/// Each source node has an outgoing edge.
#[verifier::opaque]
pub open spec fn sources_have_edges(nodes: Seq<LogicalNode>, edges: Seq<LogicalEdge>) -> bool {
    forall|s: int|
        0 <= s < nodes.len() && (#[trigger] nodes[s]).operator_name == OperatorName::ConnectorSource
            ==> exists|e: int| 0 <= e < edges.len() && (#[trigger] edges[e]).source == s
}

/// Edges leaving a source node lead to a watermark node.
#[verifier::opaque]
pub open spec fn source_edges_reach_watermarks(nodes: Seq<LogicalNode>, edges: Seq<LogicalEdge>) -> bool {
    forall|e: int|
        0 <= e < edges.len() && 0 <= (#[trigger] edges[e]).source < nodes.len()
            && nodes[edges[e].source as int].operator_name == OperatorName::ConnectorSource ==> {
            &&& 0 <= edges[e].target < nodes.len()
            &&& nodes[edges[e].target as int].operator_name == OperatorName::Watermark
        }
}

/// No two edges leave the same source node.
#[verifier::opaque]
pub open spec fn source_edges_unique(nodes: Seq<LogicalNode>, edges: Seq<LogicalEdge>) -> bool {
    forall|e: int, f: int|
        0 <= e < edges.len() && 0 <= f < edges.len() && (#[trigger] edges[e]).source == (#[trigger] edges[f]).source
            && 0 <= edges[e].source < nodes.len()
            && nodes[edges[e].source as int].operator_name == OperatorName::ConnectorSource ==> e == f
}

/// Each source node has exactly one outgoing edge, and it leads to a
/// watermark node.
pub open spec fn sources_feed_watermarks_in(nodes: Seq<LogicalNode>, edges: Seq<LogicalEdge>) -> bool {
    &&& sources_have_edges(nodes, edges)
    &&& source_edges_reach_watermarks(nodes, edges)
    &&& source_edges_unique(nodes, edges)
}

pub open spec fn sources_feed_watermarks(p: LogicalProgram) -> bool {
    sources_feed_watermarks_in(p.nodes@, p.edges@)
}

/// Every edge's schema holds a `_timestamp` column at its timestamp index.
pub open spec fn edges_carry_timestamps_in(edges: Seq<LogicalEdge>) -> bool {
    forall|e: int| 0 <= e < edges.len() ==> (#[trigger] edges[e]).schema@.wf()
}

pub open spec fn edges_carry_timestamps(p: LogicalProgram) -> bool {
    edges_carry_timestamps_in(p.edges@)
}

/// A plan node is the placeholder relation named `partial`.
pub open spec fn is_partial_placeholder(p: PhysicalPlan) -> bool {
    match p.node {
        PhysicalNode::MemoryTable { table_name } => table_name@ == "partial"@,
        _ => false,
    }
}

/// The shape every tumbling-window configuration has: a partial schema that
/// ends in `_timestamp`, and a final aggregation in final mode over the
/// `partial` placeholder.
pub open spec fn tumbling_config_shape(c: TumblingWindowAggregateOperator) -> bool {
    &&& c.partial_schema@.fields.len() > 0
    &&& c.partial_schema@.fields.last().name == timestamp_name()
    &&& c.partial_schema@.wf()
    &&& match c.final_aggregation_plan.node {
        PhysicalNode::Aggregate { mode, input, detail } => {
            &&& mode == AggregateMode::Final
            &&& match input {
                Some(child) => is_partial_placeholder(*child),
                None => false,
            }
        },
        _ => false,
    }
}

/// Every tumbling-window node is configured with the decomposed shape.
pub open spec fn windows_decomposed_in(nodes: Seq<LogicalNode>) -> bool {
    forall|n: int|
        0 <= n < nodes.len() ==> match (#[trigger] nodes[n]).operator_config {
            OperatorConfig::TumblingWindow(c) => tumbling_config_shape(c),
            _ => true,
        }
}

pub open spec fn windows_decomposed(p: LogicalProgram) -> bool {
    windows_decomposed_in(p.nodes@)
}

/// No two nodes share an operator id.
pub open spec fn ids_distinct(p: LogicalProgram) -> bool {
    forall|a: int, b: int|
        0 <= a < p.nodes@.len() && 0 <= b < p.nodes@.len() && a != b ==> (#[trigger] p.nodes@[a]).operator_id@
            != (#[trigger] p.nodes@[b]).operator_id@
}

/// Edges join nodes of the program.
pub open spec fn edges_in_bounds(nodes: Seq<LogicalNode>, edges: Seq<LogicalEdge>) -> bool {
    forall|e: int|
        0 <= e < edges.len() ==> (#[trigger] edges[e]).source < nodes.len() && edges[e].target
            < nodes.len()
}

/// What the planner keeps true of the program it builds.
#[verifier::opaque]
pub open spec fn program_invariant(nodes: Seq<LogicalNode>, edges: Seq<LogicalEdge>) -> bool {
    &&& sources_feed_watermarks_in(nodes, edges)
    &&& edges_carry_timestamps_in(edges)
    &&& windows_decomposed_in(nodes)
    &&& ids_numbered(nodes)
    &&& edges_in_bounds(nodes, edges)
}

/// `id` ends in `_` followed by the decimal text of `i`.
pub open spec fn numbered(id: Seq<char>, i: nat) -> bool {
    let d = decimal(i);
    &&& id.len() > d.len()
    &&& id.subrange(id.len() - d.len() - 1, id.len() as int) == seq!['_'] + d
}

/// Every node's id ends in `_` and its position.
pub open spec fn ids_numbered(nodes: Seq<LogicalNode>) -> bool {
    forall|i: int| 0 <= i < nodes.len() ==> numbered((#[trigger] nodes[i]).operator_id@, i as nat)
}

/// Two ids that end in the numbers of different positions differ.
pub proof fn lemma_numbered_distinct(id: Seq<char>, a: nat, b: nat)
    requires
        numbered(id, a),
        numbered(id, b),
    ensures
        a == b,
{
    let da = decimal(a);
    let db = decimal(b);
    lemma_decimal_digits(a);
    lemma_decimal_digits(b);
    let n = id.len() as int;
    if da.len() < db.len() {
        let k = n - da.len() - 1;
        assert(id[k] == (seq!['_'] + da)[0]);
        assert(id[k] == (seq!['_'] + db)[k - (n - db.len() - 1)]);
        assert(is_digit(db[k - (n - db.len() - 1) - 1]));
    } else if db.len() < da.len() {
        let k = n - db.len() - 1;
        assert(id[k] == (seq!['_'] + db)[0]);
        assert(id[k] == (seq!['_'] + da)[k - (n - da.len() - 1)]);
        assert(is_digit(da[k - (n - da.len() - 1) - 1]));
    } else {
        assert(da =~= (seq!['_'] + da).drop_first());
        assert(db =~= (seq!['_'] + db).drop_first());
        lemma_decimal_injective(a, b);
    }
}

/// Numbered ids are pairwise distinct.
pub proof fn lemma_ids_distinct(p: LogicalProgram)
    requires
        ids_numbered(p.nodes@),
    ensures
        ids_distinct(p),
{
    assert forall|a: int, b: int|
        0 <= a < p.nodes@.len() && 0 <= b < p.nodes@.len() && a != b implies (#[trigger] p.nodes@[a]).operator_id@
            != (#[trigger] p.nodes@[b]).operator_id@ by {
        if p.nodes@[a].operator_id@ == p.nodes@[b].operator_id@ {
            assert(numbered(p.nodes@[a].operator_id@, a as nat));
            assert(numbered(p.nodes@[b].operator_id@, b as nat));
            lemma_numbered_distinct(p.nodes@[a].operator_id@, a as nat, b as nat);
        }
    }
}

} // verus!
