//! Planning of the rewriter's plan-extension graph into a logical
//! program of operator nodes and typed edges.
use crate::catalog::{lookup, ArroyoSchemaProvider, Table};
use crate::program::{
    default_watermark, ids_numbered, is_partial_placeholder, numbered, program_invariant,
    edges_in_bounds, source_edges_reach_watermarks, source_edges_unique, sources_feed_watermarks_in,
    sources_have_edges, tumbling_config_shape, sources_feed_watermarks, edges_carry_timestamps,
    windows_decomposed, ids_distinct, lemma_ids_distinct, windows_decomposed_in,
    AggregateMode, ConnectorOp, EdgeKind, LogicalEdge, LogicalNode, LogicalProgram, OperatorConfig,
    OperatorName,
    PeriodicWatermark, PhysicalNode, PhysicalPlan, TumblingWindowAggregateOperator, ValuePlanOperator,
    KeyPlanOperator,
};
use crate::schema::{
    copy_fields, fields_model, has_timestamp, is_timestamp_name, lemma_fields_model_push, timestamp_field,
    timestamp_field_model, timestamp_name, ArroyoSchema, Field, FieldModel, SchemaError,
};
use crate::text::{decimal, decimal_text, duration_debug, duration_text};
use vstd::prelude::*;
use vstd::set_lib::{lemma_int_range, lemma_len_subset, lemma_subset_equality, set_int_range};
use vstd::string::StringExecFns;

verus! {

/// A window specification on an aggregate; widths in nanoseconds.
#[derive(Clone, Copy, Debug, PartialEq, Eq, Structural)]
pub enum WindowType {
    Tumbling { width_nanos: u64 },
    Sliding { width_nanos: u64, slide_nanos: u64 },
    Instant,
    Session { gap_nanos: u64 },
}

/// The kind of a window, as reported when it is not supported.
#[derive(Clone, Copy, Debug, PartialEq, Eq, Structural)]
pub enum WindowKind {
    Tumbling,
    Sliding,
    Instant,
    Session,
}

/// Why planning failed.
#[derive(Debug, PartialEq, Eq)]
pub enum PlanError {
    /// The catalog has no table of that name.
    UnknownTable(String),
    /// The table exists but is not backed by a connector.
    NotASource(String),
    /// An aggregate does not read directly from a table scan.
    BadAggregateInput,
    /// Only tumbling windows are planned.
    UnsupportedWindow(WindowKind),
    /// The physical planner returned an aggregate of an unexpected shape.
    NotAFinalAggregate,
    /// The physical planner failed, with its message.
    PhysicalPlanningFailed(String),
    /// A schema lacks its `_timestamp` column.
    SchemaShape(SchemaError),
}

/// A scan of a catalog table.
#[derive(Debug, PartialEq, Eq)]
pub struct TableScan {
    pub table_name: String,
    pub projected_schema: Vec<Field>,
    pub projection: Option<Vec<usize>>,
}

/// A windowed aggregate, with what the physical planner produced for it:
/// the binning expression `date_bin(width, _timestamp)` over the input
/// schema, and the plan of the whole aggregate.
#[derive(Debug, PartialEq, Eq)]
pub struct AggregateCalculation {
    pub input_is_table_scan: bool,
    pub input_schema: Vec<Field>,
    pub binning_function: Result<Vec<u8>, String>,
    pub physical_plan: Result<PhysicalPlan, String>,
    pub window: WindowType,
    pub key_fields: Vec<usize>,
    pub window_field: Field,
    pub window_index: usize,
}

/// A node of the rewriter's graph. Calculations carry the outcome of
/// physical planning of their logical sub-plan, encoded.
#[derive(Debug, PartialEq, Eq)]
pub enum LogicalPlanExtension {
    TableScan(TableScan),
    ValueCalculation(Result<Vec<u8>, String>),
    KeyCalculation { physical_plan: Result<Vec<u8>, String>, key_columns: Vec<usize> },
    AggregateCalculation(AggregateCalculation),
    Sink { name: String, connector_op: ConnectorOp },
}

pub open spec fn window_kind(w: WindowType) -> WindowKind {
    match w {
        WindowType::Tumbling { .. } => WindowKind::Tumbling,
        WindowType::Sliding { .. } => WindowKind::Sliding,
        WindowType::Instant => WindowKind::Instant,
        WindowType::Session { .. } => WindowKind::Session,
    }
}

/// The error a tumbling-window aggregate yields, checked in this order:
/// its input, its window, the binning expression, the input's timestamp,
/// the physical plan, and the plan's shape.
pub open spec fn aggregate_error(a: AggregateCalculation) -> Option<PlanError> {
    if !a.input_is_table_scan {
        Some(PlanError::BadAggregateInput)
    } else if !(a.window is Tumbling) {
        Some(PlanError::UnsupportedWindow(window_kind(a.window)))
    } else if a.binning_function is Err {
        Some(PlanError::PhysicalPlanningFailed(a.binning_function->Err_0))
    } else if !ends_in_timestamp(fields_model(a.input_schema@)) {
        Some(PlanError::SchemaShape(SchemaError::MissingTimestamp))
    } else if a.physical_plan is Err {
        Some(PlanError::PhysicalPlanningFailed(a.physical_plan->Err_0))
    } else if !final_over_child(a.physical_plan->Ok_0) {
        Some(PlanError::NotAFinalAggregate)
    } else {
        None
    }
}

/// The last column is `_timestamp`.
pub open spec fn ends_in_timestamp(fs: Seq<FieldModel>) -> bool {
    fs.len() > 0 && fs.last().name == timestamp_name()
}

/// The plan is a final-mode aggregate with a child.
pub open spec fn final_over_child(p: PhysicalPlan) -> bool {
    match p.node {
        PhysicalNode::Aggregate { mode, input, .. } => mode == AggregateMode::Final && input is Some,
        _ => false,
    }
}

/// Name of a tumbling window operator of the given width.
pub open spec fn tumbling_name(width_nanos: nat) -> Seq<char> {
    "TumblingWindow<"@ + duration_debug(width_nanos) + ">"@
}

/// The configuration decomposed from a valid tumbling-window aggregate `a`.
pub open spec fn tumbling_config_of(a: AggregateCalculation, c: TumblingWindowAggregateOperator) -> bool {
    let width = a.window->Tumbling_width_nanos;
    let root = a.physical_plan->Ok_0;
    let child = *(root.node->Aggregate_input->Some_0);
    &&& c.name@ == tumbling_name(width as nat)
    &&& c.width_micros == width / 1000
    &&& c.binning_function == a.binning_function->Ok_0
    &&& c.window_field_name == a.window_field.name
    &&& c.window_index == a.window_index as u64
    &&& c.input_schema == (ArroyoSchema {
        fields: a.input_schema,
        timestamp_index: (a.input_schema.len() - 1) as usize,
        key_indices: a.key_fields,
    })
    &&& c.partial_schema@.fields == fields_model(child.schema@).push(timestamp_field_model())
    &&& c.partial_schema.timestamp_index == child.schema.len()
    &&& c.partial_schema.key_indices@ == a.key_fields@
    &&& c.partial_aggregation_plan == child
    &&& c.final_aggregation_plan.schema == root.schema
    &&& match c.final_aggregation_plan.node {
        PhysicalNode::Aggregate { mode, input, detail } => {
            &&& mode == AggregateMode::Final
            &&& detail == root.node->Aggregate_detail
            &&& input is Some
            &&& is_partial_placeholder(*input->Some_0)
            &&& fields_model(input->Some_0.schema@) == fields_model(child.schema@)
        },
        _ => false,
    }
}

pub fn copy_indices(v: &Vec<usize>) -> (r: Vec<usize>)
    ensures
        r@ == v@,
{
    let mut r: Vec<usize> = Vec::new();
    let mut i: usize = 0;
    while i < v.len()
        invariant
            i <= v.len(),
            r@ == v@.take(i as int),
        decreases v.len() - i,
    {
        r.push(v[i]);
        i = i + 1;
        assert(r@ =~= v@.take(i as int));
    }
    assert(v@.take(i as int) =~= v@);
    r
}

/// Splits a tumbling-window aggregate into a partial aggregation per bin
/// and a final aggregation over the `partial` placeholder relation.
pub fn tumbling_window_config(a: AggregateCalculation) -> (r: Result<
    TumblingWindowAggregateOperator,
    PlanError,
>)
    ensures
        match r {
            Ok(c) => aggregate_error(a) is None && tumbling_config_of(a, c) && tumbling_config_shape(c),
            Err(e) => aggregate_error(a) == Some(e),
        },
{
    let ghost a0 = a;
    let AggregateCalculation {
        input_is_table_scan,
        input_schema,
        binning_function,
        physical_plan,
        window,
        key_fields,
        window_field,
        window_index,
    } = a;
    if !input_is_table_scan {
        return Err(PlanError::BadAggregateInput);
    }
    let width = match window {
        WindowType::Tumbling { width_nanos } => width_nanos,
        WindowType::Sliding { .. } => {
            return Err(PlanError::UnsupportedWindow(WindowKind::Sliding));
        },
        WindowType::Instant => {
            return Err(PlanError::UnsupportedWindow(WindowKind::Instant));
        },
        WindowType::Session { .. } => {
            return Err(PlanError::UnsupportedWindow(WindowKind::Session));
        },
    };
    let binning = match binning_function {
        Ok(b) => b,
        Err(cause) => {
            return Err(PlanError::PhysicalPlanningFailed(cause));
        },
    };
    let n = input_schema.len();
    if n == 0 || !is_timestamp_name(&input_schema[n - 1].name) {
        return Err(PlanError::SchemaShape(SchemaError::MissingTimestamp));
    }
    let root = match physical_plan {
        Ok(p) => p,
        Err(cause) => {
            return Err(PlanError::PhysicalPlanningFailed(cause));
        },
    };
    let PhysicalPlan { node, schema: root_schema } = root;
    let (detail, child) = match node {
        PhysicalNode::Aggregate { mode, input, detail } => {
            if mode != AggregateMode::Final {
                return Err(PlanError::NotAFinalAggregate);
            }
            match input {
                Some(child) => (detail, child),
                None => {
                    return Err(PlanError::NotAFinalAggregate);
                },
            }
        },
        _ => {
            return Err(PlanError::NotAFinalAggregate);
        },
    };
    let child: PhysicalPlan = *child;
    let partial_len = child.schema.len();
    let placeholder = PhysicalPlan {
        node: PhysicalNode::MemoryTable { table_name: String::from_str("partial") },
        schema: copy_fields(&child.schema),
    };
    let final_plan = PhysicalPlan {
        node: PhysicalNode::Aggregate {
            mode: AggregateMode::Final,
            input: Some(Box::new(placeholder)),
            detail,
        },
        schema: root_schema,
    };
    let mut partial_fields = copy_fields(&child.schema);
    let ts = timestamp_field();
    proof {
        lemma_fields_model_push(partial_fields@, ts);
    }
    partial_fields.push(ts);
    let partial_keys = copy_indices(&key_fields);
    let partial_schema = ArroyoSchema::new(partial_fields, partial_len, partial_keys);
    let input_schema = ArroyoSchema::new(input_schema, n - 1, key_fields);
    let mut name = String::from_str("TumblingWindow<");
    let dur = duration_text(width);
    name.append(dur.as_str());
    name.append(">");
    Ok(
        TumblingWindowAggregateOperator {
            name,
            width_micros: width / 1000,
            binning_function: binning,
            window_field_name: window_field.name,
            window_index: window_index as u64,
            input_schema,
            partial_schema,
            partial_aggregation_plan: child,
            final_aggregation_plan: final_plan,
        },
    )
}

/// `prefix`, then `_`, then the decimal text of `count`.
pub open spec fn numbered_id(prefix: Seq<char>, count: nat) -> Seq<char> {
    prefix + seq!['_'] + decimal(count)
}

pub proof fn lemma_numbered_id(prefix: Seq<char>, count: nat)
    ensures
        numbered(numbered_id(prefix, count), count),
{
    let id = numbered_id(prefix, count);
    let d = decimal(count);
    assert(id.subrange(id.len() - d.len() - 1, id.len() as int) =~= seq!['_'] + d);
}

/// The operator id `<prefix>_<count>`.
fn operator_id(prefix: &str, count: usize) -> (r: String)
    ensures
        r@ == numbered_id(prefix@, count as nat),
{
    let mut id = String::from_str(prefix);
    proof {
        reveal_strlit("_");
    }
    id.append("_");
    let digits = decimal_text(count);
    id.append(digits.as_str());
    id
}

/// A node of the given kind, id prefix, position and description, run
/// with parallelism one.
pub open spec fn node_is(
    n: LogicalNode,
    kind: OperatorName,
    prefix: Seq<char>,
    b: int,
    description: Seq<char>,
) -> bool {
    &&& n.operator_name == kind
    &&& n.operator_id@ == numbered_id(prefix, b as nat)
    &&& n.description@ == description
    &&& n.parallelism == 1
}

/// The connector configuration of the table a scan names.
pub open spec fn scan_source(s: TableScan, tables: Seq<Table>) -> ConnectorOp {
    lookup(tables, s.table_name@)->Some_0->ConnectorTable_0.connector_op
}

/// The error planning one node of the rewriter's graph yields, if any.
pub open spec fn node_error(x: LogicalPlanExtension, tables: Seq<Table>) -> Option<PlanError> {
    match x {
        LogicalPlanExtension::TableScan(s) => match lookup(tables, s.table_name@) {
            None => Some(PlanError::UnknownTable(s.table_name)),
            Some(Table::ConnectorTable(_)) => if has_timestamp(fields_model(s.projected_schema@)) {
                None
            } else {
                Some(PlanError::SchemaShape(SchemaError::MissingTimestamp))
            },
            Some(_) => Some(PlanError::NotASource(s.table_name)),
        },
        LogicalPlanExtension::ValueCalculation(p) => match p {
            Ok(_) => None,
            Err(c) => Some(PlanError::PhysicalPlanningFailed(c)),
        },
        LogicalPlanExtension::KeyCalculation { physical_plan, .. } => match physical_plan {
            Ok(_) => None,
            Err(c) => Some(PlanError::PhysicalPlanningFailed(c)),
        },
        LogicalPlanExtension::AggregateCalculation(a) => aggregate_error(a),
        LogicalPlanExtension::Sink { .. } => None,
    }
}

/// How many operator nodes a node of the rewriter's graph becomes.
pub open spec fn node_width(x: LogicalPlanExtension) -> nat {
    match x {
        LogicalPlanExtension::TableScan(_) => 2,
        _ => 1,
    }
}

/// The key columns as they are recorded in a key operator.
pub open spec fn key_fields_u64(keys: Seq<usize>) -> Seq<u64> {
    keys.map_values(|k: usize| k as u64)
}

/// `nodes` holds, from position `b`, the operator nodes that `x` becomes.
#[verifier::opaque]
pub open spec fn emitted(nodes: Seq<LogicalNode>, b: int, x: LogicalPlanExtension, tables: Seq<Table>) -> bool {
    &&& 0 <= b
    &&& b + node_width(x) <= nodes.len()
    &&& match x {
        LogicalPlanExtension::TableScan(s) => {
            let op = scan_source(s, tables);
            &&& node_is(nodes[b], OperatorName::ConnectorSource, "source"@, b, op.description@)
            &&& nodes[b].operator_config == OperatorConfig::Connector(op)
            &&& node_is(nodes[b + 1], OperatorName::Watermark, "watermark"@, b + 1, "watermark"@)
            &&& nodes[b + 1].operator_config == OperatorConfig::Watermark(default_watermark())
        },
        LogicalPlanExtension::ValueCalculation(p) => {
            &&& node_is(nodes[b], OperatorName::ArrowValue, "value"@, b, "arrow_value<tmp>"@)
            &&& match nodes[b].operator_config {
                OperatorConfig::Value(v) => v.name@ == "tmp"@ && v.physical_plan == p->Ok_0,
                _ => false,
            }
        },
        LogicalPlanExtension::KeyCalculation { physical_plan, key_columns } => {
            &&& node_is(nodes[b], OperatorName::ArrowKey, "key"@, b, "ArrowKey<tmp>"@)
            &&& match nodes[b].operator_config {
                OperatorConfig::Key(k) => {
                    &&& k.name@ == "tmp"@
                    &&& k.physical_plan == physical_plan->Ok_0
                    &&& k.key_fields@ == key_fields_u64(key_columns@)
                },
                _ => false,
            }
        },
        LogicalPlanExtension::AggregateCalculation(a) => match nodes[b].operator_config {
            OperatorConfig::TumblingWindow(c) => {
                &&& tumbling_config_of(a, c)
                &&& node_is(
                    nodes[b],
                    OperatorName::TumblingWindowAggregate,
                    tumbling_name(a.window->Tumbling_width_nanos as nat),
                    b,
                    tumbling_name(a.window->Tumbling_width_nanos as nat),
                )
            },
            _ => false,
        },
        LogicalPlanExtension::Sink { name, connector_op } => {
            &&& node_is(nodes[b], OperatorName::ConnectorSink, "sink"@, b, connector_op.description@)
            &&& nodes[b].operator_config == OperatorConfig::Connector(connector_op)
        },
    }
}

/// The edge from a scan's source node at `b` to its watermark node.
pub open spec fn scan_edge(e: LogicalEdge, s: TableScan, b: int) -> bool {
    &&& e.source == b
    &&& e.target == b + 1
    &&& e.edge_type == EdgeKind::Forward
    &&& e.schema.fields == s.projected_schema
    &&& first_timestamp_of(e.schema)
    &&& e.schema.key_indices@.len() == 0
    &&& e.projection == s.projection
}

pub open spec fn first_timestamp_of(s: ArroyoSchema) -> bool {
    crate::schema::first_timestamp(s@.fields, s.timestamp_index as int)
}

fn keys_to_u64(keys: &Vec<usize>) -> (r: Vec<u64>)
    ensures
        r@ == key_fields_u64(keys@),
{
    let mut r: Vec<u64> = Vec::new();
    let mut i: usize = 0;
    while i < keys.len()
        invariant
            i <= keys.len(),
            r@ == key_fields_u64(keys@.take(i as int)),
        decreases keys.len() - i,
    {
        r.push(keys[i] as u64);
        i = i + 1;
        assert(r@ =~= key_fields_u64(keys@.take(i as int)));
    }
    assert(keys@.take(i as int) =~= keys@);
    r
}

/// Appending a numbered node that is neither a source nor a malformed
/// window keeps the program invariant, and leaves earlier nodes alone.
proof fn lemma_push_node(nodes: Seq<LogicalNode>, edges: Seq<LogicalEdge>, n: LogicalNode)
    requires
        program_invariant(nodes, edges),
        n.operator_name != OperatorName::ConnectorSource,
        numbered(n.operator_id@, nodes.len()),
        match n.operator_config {
            OperatorConfig::TumblingWindow(c) => tumbling_config_shape(c),
            _ => true,
        },
    ensures
        program_invariant(nodes.push(n), edges),
        nodes.push(n).subrange(0, nodes.len() as int) == nodes,
{
    reveal(program_invariant);
    let ns = nodes.push(n);
    assert(ns.subrange(0, nodes.len() as int) =~= nodes);
    assert(forall|i: int| 0 <= i < nodes.len() ==> ns[i] == nodes[i]);
    lemma_push_node_sources(nodes, edges, n);
    assert(windows_decomposed_in(ns)) by {
        assert forall|k: int| 0 <= k < ns.len() implies match (#[trigger] ns[k]).operator_config {
            OperatorConfig::TumblingWindow(c) => tumbling_config_shape(c),
            _ => true,
        } by {
            if k < nodes.len() {
                assert(ns[k] == nodes[k]);
            }
        }
    }
    assert(ids_numbered(ns)) by {
        assert forall|k: int| 0 <= k < ns.len() implies numbered((#[trigger] ns[k]).operator_id@, k as nat) by {
            if k < nodes.len() {
                assert(ns[k] == nodes[k]);
            }
        }
    }
}

proof fn lemma_push_node_sources(nodes: Seq<LogicalNode>, edges: Seq<LogicalEdge>, n: LogicalNode)
    requires
        sources_feed_watermarks_in(nodes, edges),
        edges_in_bounds(nodes, edges),
        n.operator_name != OperatorName::ConnectorSource,
    ensures
        sources_feed_watermarks_in(nodes.push(n), edges),
        edges_in_bounds(nodes.push(n), edges),
{
    let ns = nodes.push(n);
    assert(forall|i: int| 0 <= i < nodes.len() ==> ns[i] == nodes[i]);
    assert(sources_have_edges(ns, edges)) by {
        reveal(sources_have_edges);
        assert forall|sidx: int|
            0 <= sidx < ns.len() && (#[trigger] ns[sidx]).operator_name
                == OperatorName::ConnectorSource implies exists|e: int|
            0 <= e < edges.len() && (#[trigger] edges[e]).source == sidx by {
            assert(nodes[sidx].operator_name == OperatorName::ConnectorSource);
        }
    }
    assert(source_edges_reach_watermarks(ns, edges)) by {
        reveal(source_edges_reach_watermarks);
    }
    assert(source_edges_unique(ns, edges)) by {
        reveal(source_edges_unique);
    }
}

fn plan_value(physical_plan: Result<Vec<u8>, String>, nodes: &mut Vec<LogicalNode>, edges: &Vec<LogicalEdge>) -> (r: Result<usize, PlanError>)
    requires
        program_invariant(old(nodes)@, edges@),
        old(nodes)@.len() + 2 < usize::MAX,
    ensures
        match r {
            Ok(m) => {
                let x = LogicalPlanExtension::ValueCalculation(physical_plan);
                &&& physical_plan is Ok
                &&& final(nodes)@.len() == old(nodes)@.len() + 1
                &&& final(nodes)@.subrange(0, old(nodes)@.len() as int) == old(nodes)@
                &&& emitted(final(nodes)@, old(nodes)@.len() as int, x, Seq::empty())
                &&& m == old(nodes)@.len()
                &&& final(nodes)@[m as int].operator_name != OperatorName::ConnectorSource
                &&& program_invariant(final(nodes)@, edges@)
            },
            Err(e) => physical_plan is Err && e == PlanError::PhysicalPlanningFailed(physical_plan->Err_0),
        },
{
    reveal(emitted);
    let b = nodes.len();
    proof {
        reveal_strlit("tmp");
        reveal_strlit("arrow_value<tmp>");
    }
    let plan = match physical_plan {
        Ok(p) => p,
        Err(c) => {
            return Err(PlanError::PhysicalPlanningFailed(c));
        },
    };
    let node = LogicalNode {
        operator_id: operator_id("value", b),
        description: String::from_str("arrow_value<tmp>"),
        operator_name: OperatorName::ArrowValue,
        operator_config: OperatorConfig::Value(
            ValuePlanOperator { name: String::from_str("tmp"), physical_plan: plan },
        ),
        parallelism: 1,
    };
    proof {
        lemma_numbered_id("value"@, b as nat);
        lemma_push_node(nodes@, edges@, node);
    }
    nodes.push(node);
    Ok(b)
}

fn plan_key(
    physical_plan: Result<Vec<u8>, String>,
    key_columns: Vec<usize>,
    nodes: &mut Vec<LogicalNode>,
    edges: &Vec<LogicalEdge>,
) -> (r: Result<usize, PlanError>)
    requires
        program_invariant(old(nodes)@, edges@),
        old(nodes)@.len() + 2 < usize::MAX,
    ensures
        match r {
            Ok(m) => {
                let x = LogicalPlanExtension::KeyCalculation { physical_plan, key_columns };
                &&& physical_plan is Ok
                &&& final(nodes)@.len() == old(nodes)@.len() + 1
                &&& final(nodes)@.subrange(0, old(nodes)@.len() as int) == old(nodes)@
                &&& emitted(final(nodes)@, old(nodes)@.len() as int, x, Seq::empty())
                &&& m == old(nodes)@.len()
                &&& final(nodes)@[m as int].operator_name != OperatorName::ConnectorSource
                &&& program_invariant(final(nodes)@, edges@)
            },
            Err(e) => physical_plan is Err && e == PlanError::PhysicalPlanningFailed(physical_plan->Err_0),
        },
{
    reveal(emitted);
    let b = nodes.len();
    proof {
        reveal_strlit("tmp");
        reveal_strlit("ArrowKey<tmp>");
    }
    let plan = match physical_plan {
        Ok(p) => p,
        Err(c) => {
            return Err(PlanError::PhysicalPlanningFailed(c));
        },
    };
    let node = LogicalNode {
        operator_id: operator_id("key", b),
        description: String::from_str("ArrowKey<tmp>"),
        operator_name: OperatorName::ArrowKey,
        operator_config: OperatorConfig::Key(
            KeyPlanOperator {
                name: String::from_str("tmp"),
                physical_plan: plan,
                key_fields: keys_to_u64(&key_columns),
            },
        ),
        parallelism: 1,
    };
    proof {
        lemma_numbered_id("key"@, b as nat);
        lemma_push_node(nodes@, edges@, node);
    }
    nodes.push(node);
    Ok(b)
}

fn plan_aggregate(a: AggregateCalculation, nodes: &mut Vec<LogicalNode>, edges: &Vec<LogicalEdge>) -> (r: Result<usize, PlanError>)
    requires
        program_invariant(old(nodes)@, edges@),
        old(nodes)@.len() + 2 < usize::MAX,
    ensures
        match r {
            Ok(m) => {
                let x = LogicalPlanExtension::AggregateCalculation(a);
                &&& aggregate_error(a) is None
                &&& final(nodes)@.len() == old(nodes)@.len() + 1
                &&& final(nodes)@.subrange(0, old(nodes)@.len() as int) == old(nodes)@
                &&& emitted(final(nodes)@, old(nodes)@.len() as int, x, Seq::empty())
                &&& m == old(nodes)@.len()
                &&& final(nodes)@[m as int].operator_name != OperatorName::ConnectorSource
                &&& program_invariant(final(nodes)@, edges@)
            },
            Err(e) => aggregate_error(a) == Some(e),
        },
{
    reveal(emitted);
    let b = nodes.len();
    let ghost a0 = a;
    let config = match tumbling_window_config(a) {
        Ok(c) => c,
        Err(e) => {
            return Err(e);
        },
    };
    let mut id = config.name.clone();
    proof {
        reveal_strlit("_");
    }
    id.append("_");
    let digits = decimal_text(b);
    id.append(digits.as_str());
    let node = LogicalNode {
        operator_id: id,
        description: config.name.clone(),
        operator_name: OperatorName::TumblingWindowAggregate,
        operator_config: OperatorConfig::TumblingWindow(config),
        parallelism: 1,
    };
    proof {
        lemma_numbered_id(tumbling_name(a0.window->Tumbling_width_nanos as nat), b as nat);
        assert(node.operator_id@ == numbered_id(tumbling_name(a0.window->Tumbling_width_nanos as nat), b as nat));
        lemma_push_node(nodes@, edges@, node);
    }
    nodes.push(node);
    Ok(b)
}

fn plan_sink(name: String, connector_op: ConnectorOp, nodes: &mut Vec<LogicalNode>, edges: &Vec<LogicalEdge>) -> (r: usize)
    requires
        program_invariant(old(nodes)@, edges@),
        old(nodes)@.len() + 2 < usize::MAX,
    ensures
        ({
            let x = LogicalPlanExtension::Sink { name, connector_op };
            &&& final(nodes)@.len() == old(nodes)@.len() + 1
            &&& final(nodes)@.subrange(0, old(nodes)@.len() as int) == old(nodes)@
            &&& emitted(final(nodes)@, old(nodes)@.len() as int, x, Seq::empty())
            &&& r == old(nodes)@.len()
            &&& final(nodes)@[r as int].operator_name != OperatorName::ConnectorSource
            &&& program_invariant(final(nodes)@, edges@)
        }),
{
    reveal(emitted);
    let b = nodes.len();
    let node = LogicalNode {
        operator_id: operator_id("sink", b),
        description: connector_op.description.clone(),
        operator_name: OperatorName::ConnectorSink,
        operator_config: OperatorConfig::Connector(connector_op),
        parallelism: 1,
    };
    proof {
        lemma_numbered_id("sink"@, b as nat);
        lemma_push_node(nodes@, edges@, node);
    }
    nodes.push(node);
    b
}

/// Appending a scan's source and watermark nodes with the edge between them
/// keeps the program invariant.
proof fn lemma_push_scan(
    nodes: Seq<LogicalNode>,
    edges: Seq<LogicalEdge>,
    src: LogicalNode,
    wm: LogicalNode,
    edge: LogicalEdge,
)
    requires
        program_invariant(nodes, edges),
        src.operator_name == OperatorName::ConnectorSource,
        src.operator_config is Connector,
        wm.operator_name == OperatorName::Watermark,
        wm.operator_config is Watermark,
        numbered(src.operator_id@, nodes.len()),
        numbered(wm.operator_id@, nodes.len() + 1),
        edge.source == nodes.len(),
        edge.target == nodes.len() + 1,
        edge.schema@.wf(),
    ensures
        program_invariant(nodes.push(src).push(wm), edges.push(edge)),
        nodes.push(src).push(wm).subrange(0, nodes.len() as int) == nodes,
{
    reveal(program_invariant);
    let ns = nodes.push(src).push(wm);
    let es = edges.push(edge);
    let b = nodes.len() as int;
    assert(ns.subrange(0, b) =~= nodes);
    assert(forall|i: int| 0 <= i < b ==> ns[i] == nodes[i]);
    assert(forall|e: int| 0 <= e < edges.len() ==> es[e] == edges[e]);
    assert(ns[b] == src);
    assert(ns[b + 1] == wm);
    assert(sources_have_edges(ns, es)) by {
        reveal(sources_have_edges);
        assert forall|sidx: int|
            0 <= sidx < ns.len() && (#[trigger] ns[sidx]).operator_name
                == OperatorName::ConnectorSource implies exists|e: int|
            0 <= e < es.len() && (#[trigger] es[e]).source == sidx by {
            if sidx == b {
                assert(es[edges.len() as int].source == sidx);
            } else {
                assert(nodes[sidx].operator_name == OperatorName::ConnectorSource);
                let e = choose|e: int| 0 <= e < edges.len() && (#[trigger] edges[e]).source == sidx;
                assert(es[e].source == sidx);
            }
        }
    }
    assert(source_edges_reach_watermarks(ns, es)) by {
        reveal(source_edges_reach_watermarks);
    }
    assert(source_edges_unique(ns, es)) by {
        reveal(source_edges_unique);
    }
    assert(windows_decomposed_in(ns)) by {
        assert forall|k: int| 0 <= k < ns.len() implies match (#[trigger] ns[k]).operator_config {
            OperatorConfig::TumblingWindow(c) => tumbling_config_shape(c),
            _ => true,
        } by {
            if k < b {
                assert(ns[k] == nodes[k]);
            }
        }
    }
    assert(ids_numbered(ns)) by {
        assert forall|k: int| 0 <= k < ns.len() implies numbered((#[trigger] ns[k]).operator_id@, k as nat) by {
            if k < b {
                assert(ns[k] == nodes[k]);
            }
        }
    }
}

fn plan_scan(
    scan: TableScan,
    provider: &ArroyoSchemaProvider,
    nodes: &mut Vec<LogicalNode>,
    edges: &mut Vec<LogicalEdge>,
) -> (r: Result<usize, PlanError>)
    requires
        program_invariant(old(nodes)@, old(edges)@),
        old(nodes)@.len() + 2 < usize::MAX,
    ensures
        match r {
            Ok(m) => {
                let x = LogicalPlanExtension::TableScan(scan);
                &&& node_error(x, provider.tables@) is None
                &&& final(nodes)@.len() == old(nodes)@.len() + 2
                &&& final(nodes)@.subrange(0, old(nodes)@.len() as int) == old(nodes)@
                &&& emitted(final(nodes)@, old(nodes)@.len() as int, x, provider.tables@)
                &&& m == old(nodes)@.len() + 1
                &&& final(nodes)@[m as int].operator_name != OperatorName::ConnectorSource
                &&& program_invariant(final(nodes)@, final(edges)@)
                &&& final(edges)@.len() == old(edges)@.len() + 1
                &&& final(edges)@.drop_last() == old(edges)@
                &&& scan_edge(final(edges)@.last(), scan, old(nodes)@.len() as int)
            },
            Err(e) => node_error(LogicalPlanExtension::TableScan(scan), provider.tables@) == Some(e),
        },
{
    reveal(emitted);
    let b = nodes.len();
    let ghost scan0 = scan;
    let op = match provider.get_table(&scan.table_name) {
        None => {
            return Err(PlanError::UnknownTable(scan.table_name));
        },
        Some(Table::ConnectorTable(t)) => t.connector_op.duplicate(),
        Some(_) => {
            return Err(PlanError::NotASource(scan.table_name));
        },
    };
    let TableScan { table_name, projected_schema, projection } = scan;
    let schema = match ArroyoSchema::from_schema_keys(projected_schema, Vec::new()) {
        Ok(s) => s,
        Err(e) => {
            return Err(PlanError::SchemaShape(e));
        },
    };
    let source = LogicalNode {
        operator_id: operator_id("source", b),
        description: op.description.clone(),
        operator_name: OperatorName::ConnectorSource,
        operator_config: OperatorConfig::Connector(op),
        parallelism: 1,
    };
    let watermark = LogicalNode {
        operator_id: operator_id("watermark", b + 1),
        description: String::from_str("watermark"),
        operator_name: OperatorName::Watermark,
        operator_config: OperatorConfig::Watermark(
            PeriodicWatermark { period_micros: 1_000_000, max_lateness_micros: 0, idle_time_micros: None },
        ),
        parallelism: 1,
    };
    let edge = LogicalEdge { source: b, target: b + 1, edge_type: EdgeKind::Forward, schema, projection };
    proof {
        lemma_numbered_id("source"@, b as nat);
        lemma_numbered_id("watermark"@, (b + 1) as nat);
        lemma_push_scan(nodes@, edges@, source, watermark, edge);
        assert(edges@.push(edge).drop_last() =~= edges@);
    }
    nodes.push(source);
    nodes.push(watermark);
    edges.push(edge);
    Ok(b + 1)
}

/// Every key calculation that feeds an aggregate declares the aggregate's
/// key fields.
pub open spec fn keys_agree(g: PlanGraph) -> bool {
    forall|e: int|
        0 <= e < g.edges@.len() ==> match (
            g.nodes@[(#[trigger] g.edges@[e]).source as int],
            g.nodes@[g.edges@[e].target as int],
        ) {
            (
                LogicalPlanExtension::KeyCalculation { key_columns, .. },
                LogicalPlanExtension::AggregateCalculation(a),
            ) => key_columns@ == a.key_fields@,
            _ => true,
        }
}

/// Every edge from a key node into a tumbling-window node joins nodes that
/// declare the same key columns.
pub open spec fn key_links_agree(p: LogicalProgram) -> bool {
    forall|i: int|
        0 <= i < p.edges@.len() ==> {
            let s = (#[trigger] p.edges@[i]).source as int;
            let t = p.edges@[i].target as int;
            (0 <= s < p.nodes@.len() && 0 <= t < p.nodes@.len()) ==> match (
                p.nodes@[s].operator_config,
                p.nodes@[t].operator_config,
            ) {
                (OperatorConfig::Key(k), OperatorConfig::TumblingWindow(c)) => k.key_fields@
                    == key_fields_u64(c.input_schema.key_indices@),
                _ => true,
            }
        }
}

/// Each origin names a planned node, and an edge of the graph into it or
/// the node's own scan edge.
proof fn lemma_origins(g: PlanGraph, order: Seq<usize>, j: int)
    requires
        0 <= j <= order.len(),
        g.wf(),
        valid_order(g, order),
    ensures
        forall|i: int|
            0 <= i < origins(g, order, j).len() ==> {
                let o = #[trigger] origins(g, order, j)[i];
                &&& 0 <= o.0 < j
                &&& match o.1 {
                    Some(e) => 0 <= e < g.edges@.len() && g.edges@[e].target == order[o.0],
                    None => g.nodes@[order[o.0] as int] is TableScan,
                }
            },
    decreases j,
{
    if j > 0 {
        lemma_origins(g, order, j - 1);
        lemma_in_edges_upto(g.edges@, order[j - 1] as int, g.edges@.len() as int);
        let o0 = origins(g, order, j - 1);
        let st = step_origins(g, order, j - 1);
        let up = in_edges_upto(g.edges@, order[j - 1] as int, g.edges@.len() as int);
        let h: int = if g.nodes@[order[j - 1] as int] is TableScan { 1 } else { 0 };
        assert forall|i: int| 0 <= i < origins(g, order, j).len() implies {
            let o = #[trigger] origins(g, order, j)[i];
            &&& 0 <= o.0 < j
            &&& match o.1 {
                Some(e) => 0 <= e < g.edges@.len() && g.edges@[e].target == order[o.0],
                None => g.nodes@[order[o.0] as int] is TableScan,
            }
        } by {
            if i < o0.len() {
                assert(origins(g, order, j)[i] == o0[i]);
            } else if i < o0.len() + h {
                assert(origins(g, order, j)[i] == st[0]);
            } else {
                let q = i - o0.len() - h;
                assert(origins(g, order, j)[i] == st[h + q]);
                assert(st[h + q] == (j - 1, Some(up[q])));
            }
        }
    }
}

/// The operator node the edges of a planned node attach to has the kind
/// that node's own kind gives.
proof fn lemma_attach_config(
    nodes: Seq<LogicalNode>,
    b: int,
    x: LogicalPlanExtension,
    tables: Seq<Table>,
)
    requires
        emitted(nodes, b, x, tables),
    ensures
        ({
            let c = nodes[b + node_width(x) - 1].operator_config;
            &&& (c is Key ==> x is KeyCalculation && c->Key_0.key_fields@ == key_fields_u64(
                x->key_columns@,
            ))
            &&& (c is TumblingWindow ==> x is AggregateCalculation && c->TumblingWindow_0.input_schema.key_indices
                == x->AggregateCalculation_0.key_fields)
        }),
{
    reveal(emitted);
}

/// Planning keeps key calculations and the aggregates they feed in
/// agreement: when every key calculation feeding an aggregate declares its
/// key fields, every key node feeding a tumbling-window node does too.
pub proof fn lemma_keys_feed_windows(
    g: PlanGraph,
    tables: Seq<Table>,
    order: Seq<usize>,
    p: LogicalProgram,
)
    requires
        g.wf(),
        valid_order(g, order),
        keys_agree(g),
        p.nodes@.len() == base(g, order, order.len() as int),
        forall|j: int|
            0 <= j < order.len() ==> emitted(p.nodes@, base(g, order, j), #[trigger] g.nodes@[order[j] as int], tables),
        p.edges@.len() == origins(g, order, order.len() as int).len(),
        forall|i: int|
            0 <= i < p.edges@.len() ==> edge_from(#[trigger] p.edges@[i], g, order, origins(g, order, order.len() as int)[i]),
    ensures
        key_links_agree(p),
{
    let n = order.len() as int;
    lemma_origins(g, order, n);
    assert forall|i: int| 0 <= i < p.edges@.len() implies {
        let s = (#[trigger] p.edges@[i]).source as int;
        let t = p.edges@[i].target as int;
        (0 <= s < p.nodes@.len() && 0 <= t < p.nodes@.len()) ==> match (
            p.nodes@[s].operator_config,
            p.nodes@[t].operator_config,
        ) {
            (OperatorConfig::Key(k), OperatorConfig::TumblingWindow(c)) => k.key_fields@
                == key_fields_u64(c.input_schema.key_indices@),
            _ => true,
        }
    } by {
        let o = origins(g, order, n)[i];
        let edge = p.edges@[i];
        assert(edge_from(edge, g, order, o));
        reveal(edge_from);
        match o.1 {
            None => {
                let x = g.nodes@[order[o.0] as int];
                reveal(emitted);
                assert(emitted(p.nodes@, base(g, order, o.0), x, tables));
            },
            Some(e) => {
                let k = choose|k: int|
                    0 <= k < o.0 && order[k] == g.edges@[e].source && #[trigger] carries(
                        edge,
                        g.edges@[e],
                        attach_pos(g, order, k),
                        attach_pos(g, order, o.0),
                    );
                let xs = g.nodes@[order[k] as int];
                let xt = g.nodes@[order[o.0] as int];
                assert(emitted(p.nodes@, base(g, order, k), xs, tables));
                assert(emitted(p.nodes@, base(g, order, o.0), xt, tables));
                lemma_attach_config(p.nodes@, base(g, order, k), xs, tables);
                lemma_attach_config(p.nodes@, base(g, order, o.0), xt, tables);
                assert(g.edges@[e].source == order[k]);
            },
        }
    }
}

/// `p` is what planning the nodes of `g` in `order` against `tables`
/// yields: the operator nodes of each planned node in turn, and an edge for
/// each origin.
pub open spec fn planned(g: PlanGraph, tables: Seq<Table>, order: Seq<usize>, p: LogicalProgram) -> bool {
    &&& p.nodes@.len() == base(g, order, order.len() as int)
    &&& forall|j: int|
        0 <= j < order.len() ==> emitted(p.nodes@, base(g, order, j), #[trigger] g.nodes@[order[j] as int], tables)
    &&& p.edges@.len() == origins(g, order, order.len() as int).len()
    &&& forall|i: int|
        0 <= i < p.edges@.len() ==> edge_from(#[trigger] p.edges@[i], g, order, origins(g, order, order.len() as int)[i])
}

/// Two nodes agree in id, kind, description and parallelism.
pub open spec fn same_header(a: LogicalNode, b: LogicalNode) -> bool {
    &&& a.operator_id@ == b.operator_id@
    &&& a.operator_name == b.operator_name
    &&& a.description@ == b.description@
    &&& a.parallelism == b.parallelism
}

/// Each position below `base(n)` lies in the operator nodes of one planned
/// node.
proof fn lemma_cover(g: PlanGraph, order: Seq<usize>, n: int, i: int)
    requires
        0 <= n <= order.len(),
        0 <= i < base(g, order, n),
    ensures
        exists|j: int|
            0 <= j < n && base(g, order, j) <= i < base(g, order, j) + node_width(
                #[trigger] g.nodes@[order[j] as int],
            ),
    decreases n,
{
    if i < base(g, order, n - 1) {
        lemma_cover(g, order, n - 1, i);
        let j = choose|j: int|
            0 <= j < n - 1 && base(g, order, j) <= i < base(g, order, j) + node_width(
                #[trigger] g.nodes@[order[j] as int],
            );
        assert(0 <= j < n);
    } else {
        assert(base(g, order, n - 1) <= i < base(g, order, n - 1) + node_width(g.nodes@[order[n - 1] as int]));
    }
}

proof fn lemma_emitted_same(
    n1: Seq<LogicalNode>,
    n2: Seq<LogicalNode>,
    b: int,
    x: LogicalPlanExtension,
    tables: Seq<Table>,
    i: int,
)
    requires
        emitted(n1, b, x, tables),
        emitted(n2, b, x, tables),
        b <= i < b + node_width(x),
    ensures
        same_header(n1[i], n2[i]),
{
    reveal(emitted);
}

proof fn lemma_same_nodes(g: PlanGraph, tables: Seq<Table>, order: Seq<usize>, p1: LogicalProgram, p2: LogicalProgram)
    requires
        planned(g, tables, order, p1),
        planned(g, tables, order, p2),
    ensures
        forall|i: int| 0 <= i < p1.nodes@.len() ==> same_header(#[trigger] p1.nodes@[i], p2.nodes@[i]),
{
    let n = order.len() as int;
    assert forall|i: int| 0 <= i < p1.nodes@.len() implies same_header(#[trigger] p1.nodes@[i], p2.nodes@[i]) by {
        lemma_cover(g, order, n, i);
        let j = choose|j: int|
            0 <= j < n && base(g, order, j) <= i < base(g, order, j) + node_width(
                #[trigger] g.nodes@[order[j] as int],
            );
        let x = g.nodes@[order[j] as int];
        assert(emitted(p1.nodes@, base(g, order, j), x, tables));
        assert(emitted(p2.nodes@, base(g, order, j), x, tables));
        lemma_emitted_same(p1.nodes@, p2.nodes@, base(g, order, j), x, tables, i);
    }
}

proof fn lemma_same_edge(g: PlanGraph, order: Seq<usize>, o: (int, Option<int>), a: LogicalEdge, b: LogicalEdge)
    requires
        valid_order(g, order),
        0 <= o.0 < order.len(),
        edge_from(a, g, order, o),
        edge_from(b, g, order, o),
    ensures
        a.source == b.source,
        a.target == b.target,
        a.edge_type == b.edge_type,
{
    reveal(edge_from);
    match o.1 {
        None => {},
        Some(e) => {
            let k1 = choose|k: int|
                0 <= k < o.0 && order[k] == g.edges@[e].source && #[trigger] carries(
                    a,
                    g.edges@[e],
                    attach_pos(g, order, k),
                    attach_pos(g, order, o.0),
                );
            let k2 = choose|k: int|
                0 <= k < o.0 && order[k] == g.edges@[e].source && #[trigger] carries(
                    b,
                    g.edges@[e],
                    attach_pos(g, order, k),
                    attach_pos(g, order, o.0),
                );
            if k1 < k2 {
                assert(order[k1] != order[k2]);
            } else if k2 < k1 {
                assert(order[k2] != order[k1]);
            }
        },
    }
}

/// Planning is deterministic: two programs planned from the same graph,
/// catalog and order have the same nodes, with the same ids, kinds and
/// descriptions, and the same edges between the same positions.
pub proof fn lemma_planning_deterministic(
    g: PlanGraph,
    tables: Seq<Table>,
    order: Seq<usize>,
    p1: LogicalProgram,
    p2: LogicalProgram,
)
    requires
        g.wf(),
        valid_order(g, order),
        planned(g, tables, order, p1),
        planned(g, tables, order, p2),
    ensures
        p1.nodes@.len() == p2.nodes@.len(),
        forall|i: int| 0 <= i < p1.nodes@.len() ==> same_header(#[trigger] p1.nodes@[i], p2.nodes@[i]),
        p1.edges@.len() == p2.edges@.len(),
        forall|i: int|
            0 <= i < p1.edges@.len() ==> {
                &&& (#[trigger] p1.edges@[i]).source == p2.edges@[i].source
                &&& p1.edges@[i].target == p2.edges@[i].target
                &&& p1.edges@[i].edge_type == p2.edges@[i].edge_type
            },
{
    let n = order.len() as int;
    lemma_same_nodes(g, tables, order, p1, p2);
    lemma_origins(g, order, n);
    assert forall|i: int| 0 <= i < p1.edges@.len() implies {
        &&& (#[trigger] p1.edges@[i]).source == p2.edges@[i].source
        &&& p1.edges@[i].target == p2.edges@[i].target
        &&& p1.edges@[i].edge_type == p2.edges@[i].edge_type
    } by {
        let o = origins(g, order, n)[i];
        assert(0 <= o.0 < n);
        lemma_same_edge(g, order, o, p1.edges@[i], p2.edges@[i]);
    }
}

/// An edge of the rewriter's graph, between node positions.
#[derive(Debug, PartialEq, Eq)]
pub struct PlanEdge {
    pub source: usize,
    pub target: usize,
    pub edge_type: EdgeKind,
    pub schema: ArroyoSchema,
    pub projection: Option<Vec<usize>>,
}

/// The rewriter's output: plan extensions and the edges between them.
#[derive(Debug, PartialEq, Eq)]
pub struct PlanGraph {
    pub nodes: Vec<LogicalPlanExtension>,
    pub edges: Vec<PlanEdge>,
}

impl PlanGraph {
    /// Edges join nodes of the graph, and the output fits in memory.
    pub open spec fn wf(&self) -> bool {
        &&& self.nodes@.len() < u32::MAX
        &&& self.edges@.len() < u32::MAX
        &&& 2 * self.nodes@.len() + 4 < usize::MAX
        &&& forall|e: int|
            0 <= e < self.edges@.len() ==> (#[trigger] self.edges@[e]).source < self.nodes@.len()
                && self.edges@[e].target < self.nodes@.len()
    }
}

/// `order` lists distinct nodes of `g`, each after every node with an
/// edge into it.
pub open spec fn valid_order(g: PlanGraph, order: Seq<usize>) -> bool {
    &&& order.len() <= g.nodes@.len()
    &&& forall|i: int| 0 <= i < order.len() ==> (#[trigger] order[i]) < g.nodes@.len()
    &&& forall|i: int, j: int| 0 <= i < j < order.len() ==> (#[trigger] order[i]) != (#[trigger] order[j])
    &&& forall|j: int, e: int|
        0 <= j < order.len() && 0 <= e < g.edges@.len() && (#[trigger] g.edges@[e]).target == (#[trigger] order[j])
            ==> order.take(j).contains(g.edges@[e].source)
}

/// Some edge into `t` has a schema without its timestamp column.
pub open spec fn in_edge_bad(g: PlanGraph, t: int) -> bool {
    exists|e: int| 0 <= e < g.edges@.len() && (#[trigger] g.edges@[e]).target == t && !g.edges@[e].schema@.wf()
}

/// The error planning node `t` yields: its own, else that of a malformed
/// edge into it.
pub open spec fn step_error(g: PlanGraph, tables: Seq<Table>, t: int) -> Option<PlanError> {
    match node_error(g.nodes@[t], tables) {
        Some(e) => Some(e),
        None => if in_edge_bad(g, t) {
            Some(PlanError::SchemaShape(SchemaError::MissingTimestamp))
        } else {
            None
        },
    }
}

/// The first error met when planning the nodes of `order` in turn.
pub open spec fn first_error(g: PlanGraph, tables: Seq<Table>, order: Seq<usize>) -> Option<PlanError>
    decreases order.len(),
{
    if order.len() == 0 {
        None
    } else {
        match first_error(g, tables, order.drop_last()) {
            Some(e) => Some(e),
            None => step_error(g, tables, order.last() as int),
        }
    }
}

/// Position in the program of the first operator node of `order[j]`.
pub open spec fn base(g: PlanGraph, order: Seq<usize>, j: int) -> int
    decreases j,
{
    if j <= 0 {
        0
    } else {
        base(g, order, j - 1) + node_width(g.nodes@[order[j - 1] as int])
    }
}

proof fn lemma_base_bound(g: PlanGraph, order: Seq<usize>, j: int)
    requires
        0 <= j,
    ensures
        0 <= base(g, order, j) <= 2 * j,
    decreases j,
{
    if j > 0 {
        lemma_base_bound(g, order, j - 1);
    }
}

/// Whether a schema holds `_timestamp` at its timestamp index.
pub fn schema_is_wf(s: &ArroyoSchema) -> (r: bool)
    ensures
        r == s@.wf(),
{
    s.timestamp_index < s.fields.len() && is_timestamp_name(&s.fields[s.timestamp_index].name)
}

/// The nodes a non-scan extension becomes do not depend on the catalog.
proof fn lemma_emitted_tables(nodes: Seq<LogicalNode>, b: int, x: LogicalPlanExtension, t1: Seq<Table>, t2: Seq<Table>)
    requires
        !(x is TableScan),
        emitted(nodes, b, x, t1),
    ensures
        emitted(nodes, b, x, t2),
{
    reveal(emitted);
}

/// Appending nodes keeps what earlier positions hold.
proof fn lemma_emitted_prefix(
    nodes: Seq<LogicalNode>,
    longer: Seq<LogicalNode>,
    b: int,
    x: LogicalPlanExtension,
    tables: Seq<Table>,
)
    requires
        emitted(nodes, b, x, tables),
        nodes.len() <= longer.len(),
        longer.subrange(0, nodes.len() as int) == nodes,
    ensures
        emitted(longer, b, x, tables),
{
    reveal(emitted);
    assert(longer[b] == longer.subrange(0, nodes.len() as int)[b]);
    if node_width(x) == 2 {
        assert(longer[b + 1] == longer.subrange(0, nodes.len() as int)[b + 1]);
    }
}

/// Appends the operator nodes that one node of the rewriter's graph becomes
/// (and, for a scan, the edge from its source to its watermark); returns
/// the position of the node that the graph's edges attach to.
fn plan_node(
    x: LogicalPlanExtension,
    provider: &ArroyoSchemaProvider,
    nodes: &mut Vec<LogicalNode>,
    edges: &mut Vec<LogicalEdge>,
) -> (r: Result<usize, PlanError>)
    requires
        program_invariant(old(nodes)@, old(edges)@),
        old(nodes)@.len() + 2 < usize::MAX,
    ensures
        match r {
            Ok(m) => {
                &&& node_error(x, provider.tables@) is None
                &&& final(nodes)@.len() == old(nodes)@.len() + node_width(x)
                &&& final(nodes)@.subrange(0, old(nodes)@.len() as int) == old(nodes)@
                &&& emitted(final(nodes)@, old(nodes)@.len() as int, x, provider.tables@)
                &&& m == final(nodes)@.len() - 1
                &&& final(nodes)@[m as int].operator_name != OperatorName::ConnectorSource
                &&& program_invariant(final(nodes)@, final(edges)@)
                &&& match x {
                    LogicalPlanExtension::TableScan(s) => {
                        &&& final(edges)@.len() == old(edges)@.len() + 1
                        &&& final(edges)@.subrange(0, old(edges)@.len() as int) == old(edges)@
                        &&& scan_edge(final(edges)@.last(), s, old(nodes)@.len() as int)
                    },
                    _ => final(edges)@ == old(edges)@,
                }
            },
            Err(e) => node_error(x, provider.tables@) == Some(e),
        },
{
    let ghost x0 = x;
    let ghost e0 = edges@;
    match x {
        LogicalPlanExtension::TableScan(scan) => {
            let r = plan_scan(scan, provider, nodes, edges);
            proof {
                if r is Ok {
                    assert(edges@.subrange(0, e0.len() as int) =~= edges@.drop_last());
                }
            }
            r
        },
        LogicalPlanExtension::ValueCalculation(physical_plan) => {
            let r = plan_value(physical_plan, nodes, edges);
            proof {
                assert(edges@.subrange(0, e0.len() as int) =~= e0);
                if r is Ok {
                    lemma_emitted_tables(nodes@, (nodes@.len() - 1) as int, x0, Seq::empty(), provider.tables@);
                }
            }
            r
        },
        LogicalPlanExtension::KeyCalculation { physical_plan, key_columns } => {
            let r = plan_key(physical_plan, key_columns, nodes, edges);
            proof {
                assert(edges@.subrange(0, e0.len() as int) =~= e0);
                if r is Ok {
                    lemma_emitted_tables(nodes@, (nodes@.len() - 1) as int, x0, Seq::empty(), provider.tables@);
                }
            }
            r
        },
        LogicalPlanExtension::AggregateCalculation(a) => {
            let r = plan_aggregate(a, nodes, edges);
            proof {
                assert(edges@.subrange(0, e0.len() as int) =~= e0);
                if r is Ok {
                    lemma_emitted_tables(nodes@, (nodes@.len() - 1) as int, x0, Seq::empty(), provider.tables@);
                }
            }
            r
        },
        LogicalPlanExtension::Sink { name, connector_op } => {
            let r = plan_sink(name, connector_op, nodes, edges);
            proof {
                assert(edges@.subrange(0, e0.len() as int) =~= e0);
                lemma_emitted_tables(nodes@, (nodes@.len() - 1) as int, x0, Seq::empty(), provider.tables@);
            }
            Ok(r)
        },
    }
}

/// Appending an edge that leaves a non-source node and carries a well-formed
/// schema keeps the program invariant.
proof fn lemma_push_edge(nodes: Seq<LogicalNode>, edges: Seq<LogicalEdge>, edge: LogicalEdge)
    requires
        program_invariant(nodes, edges),
        edge.source < nodes.len(),
        edge.target < nodes.len(),
        nodes[edge.source as int].operator_name != OperatorName::ConnectorSource,
        edge.schema@.wf(),
    ensures
        program_invariant(nodes, edges.push(edge)),
        edges.push(edge).subrange(0, edges.len() as int) == edges,
{
    reveal(program_invariant);
    let es = edges.push(edge);
    assert(es.subrange(0, edges.len() as int) =~= edges);
    assert(forall|e: int| 0 <= e < edges.len() ==> es[e] == edges[e]);
    assert(sources_have_edges(nodes, es)) by {
        reveal(sources_have_edges);
        assert forall|sidx: int|
            0 <= sidx < nodes.len() && (#[trigger] nodes[sidx]).operator_name
                == OperatorName::ConnectorSource implies exists|e: int|
            0 <= e < es.len() && (#[trigger] es[e]).source == sidx by {
            let e = choose|e: int| 0 <= e < edges.len() && (#[trigger] edges[e]).source == sidx;
            assert(es[e].source == sidx);
        }
    }
    assert(source_edges_reach_watermarks(nodes, es)) by {
        reveal(source_edges_reach_watermarks);
    }
    assert(source_edges_unique(nodes, es)) by {
        reveal(source_edges_unique);
    }
}

/// Positions, below `e`, of the edges of `ge` into `t`, in order.
pub open spec fn in_edges_upto(ge: Seq<PlanEdge>, t: int, e: int) -> Seq<int>
    decreases e,
{
    if e <= 0 {
        Seq::empty()
    } else {
        let rest = in_edges_upto(ge, t, e - 1);
        if ge[e - 1].target == t {
            rest.push(e - 1)
        } else {
            rest
        }
    }
}

proof fn lemma_in_edges_upto(ge: Seq<PlanEdge>, t: int, e: int)
    requires
        0 <= e <= ge.len(),
    ensures
        forall|i: int| 0 <= i < in_edges_upto(ge, t, e).len() ==> {
            let x = #[trigger] in_edges_upto(ge, t, e)[i];
            0 <= x < e && ge[x].target == t
        },
    decreases e,
{
    if e > 0 {
        lemma_in_edges_upto(ge, t, e - 1);
    }
}

/// The output edge `edge` carries input edge `pe`, from position `src` to
/// position `dst`.
pub open spec fn carries(edge: LogicalEdge, pe: PlanEdge, src: int, dst: int) -> bool {
    &&& edge.source == src
    &&& edge.target == dst
    &&& edge.edge_type == pe.edge_type
    &&& edge.schema == pe.schema
    &&& edge.projection == pe.projection
}

fn vacated_edge() -> (r: PlanEdge)
    ensures
        r.target == usize::MAX,
{
    PlanEdge {
        source: 0,
        target: usize::MAX,
        edge_type: EdgeKind::Forward,
        schema: ArroyoSchema::new(Vec::new(), 0, Vec::new()),
        projection: None,
    }
}

/// Adds an output edge for each edge of the rewriter's graph into node `t`,
/// now planned at position `m`, in the graph's edge order; fails on an edge
/// whose schema lacks its timestamp.
fn connect_in_edges(
    t: usize,
    m: usize,
    in_edges: &mut Vec<PlanEdge>,
    map: &Vec<Option<usize>>,
    nodes: &Vec<LogicalNode>,
    edges: &mut Vec<LogicalEdge>,
    Ghost(ge): Ghost<Seq<PlanEdge>>,
) -> (r: Result<(), PlanError>)
    requires
        program_invariant(nodes@, old(edges)@),
        m < nodes@.len(),
        nodes@[m as int].operator_name != OperatorName::ConnectorSource,
        t < usize::MAX,
        old(in_edges)@.len() == ge.len(),
        forall|e: int|
            0 <= e < ge.len() ==> old(in_edges)@[e] == ge[e] || (#[trigger] old(in_edges)@[e]).target
                == usize::MAX,
        forall|e: int| 0 <= e < ge.len() && (#[trigger] ge[e]).target == t ==> old(in_edges)@[e] == ge[e],
        forall|e: int|
            0 <= e < ge.len() && (#[trigger] ge[e]).target == t ==> {
                let s = map@[ge[e].source as int];
                &&& ge[e].source < map@.len()
                &&& s is Some
                &&& s->Some_0 < nodes@.len()
                &&& nodes@[s->Some_0 as int].operator_name != OperatorName::ConnectorSource
            },
    ensures
        match r {
            Ok(_) => {
                let up = in_edges_upto(ge, t as int, ge.len() as int);
                &&& !exists|e: int| 0 <= e < ge.len() && (#[trigger] ge[e]).target == t && !ge[e].schema@.wf()
                &&& program_invariant(nodes@, final(edges)@)
                &&& final(edges)@.len() == old(edges)@.len() + up.len()
                &&& final(edges)@.subrange(0, old(edges)@.len() as int) == old(edges)@
                &&& forall|i: int|
                    0 <= i < up.len() ==> carries(
                        #[trigger] final(edges)@[old(edges)@.len() + i],
                        ge[up[i]],
                        map@[ge[up[i]].source as int]->Some_0 as int,
                        m as int,
                    )
            },
            Err(err) => {
                &&& exists|e: int| 0 <= e < ge.len() && (#[trigger] ge[e]).target == t && !ge[e].schema@.wf()
                &&& err == PlanError::SchemaShape(SchemaError::MissingTimestamp)
            },
        },
        final(in_edges)@.len() == ge.len(),
        forall|e: int|
            0 <= e < ge.len() ==> final(in_edges)@[e] == ge[e] || (#[trigger] final(in_edges)@[e]).target
                == usize::MAX,
        forall|e: int| 0 <= e < ge.len() && (#[trigger] ge[e]).target != t ==> final(in_edges)@[e] == old(in_edges)@[e],
{
    let ghost e0 = edges@;
    let ghost in0 = in_edges@;
    let mut e: usize = 0;
    while e < in_edges.len()
        invariant
            e <= in_edges@.len() == ge.len(),
            in0 == old(in_edges)@,
            in0.len() == ge.len(),
            program_invariant(nodes@, edges@),
            m < nodes@.len(),
            nodes@[m as int].operator_name != OperatorName::ConnectorSource,
            t < usize::MAX,
            edges@.len() == e0.len() + in_edges_upto(ge, t as int, e as int).len(),
            edges@.subrange(0, e0.len() as int) == e0,
            forall|i: int|
                0 <= i < in_edges_upto(ge, t as int, e as int).len() ==> carries(
                    #[trigger] edges@[e0.len() + i],
                    ge[in_edges_upto(ge, t as int, e as int)[i]],
                    map@[ge[in_edges_upto(ge, t as int, e as int)[i]].source as int]->Some_0 as int,
                    m as int,
                ),
            forall|f: int|
                0 <= f < ge.len() ==> in_edges@[f] == ge[f] || (#[trigger] in_edges@[f]).target
                    == usize::MAX,
            forall|f: int| e <= f < ge.len() && (#[trigger] ge[f]).target == t ==> in_edges@[f] == ge[f],
            forall|f: int| 0 <= f < ge.len() && (#[trigger] ge[f]).target != t ==> in_edges@[f] == in0[f],
            forall|f: int| 0 <= f < e && (#[trigger] ge[f]).target == t ==> ge[f].schema@.wf(),
            forall|f: int|
                0 <= f < ge.len() && (#[trigger] ge[f]).target == t ==> {
                    let s = map@[ge[f].source as int];
                    &&& ge[f].source < map@.len()
                    &&& s is Some
                    &&& s->Some_0 < nodes@.len()
                    &&& nodes@[s->Some_0 as int].operator_name != OperatorName::ConnectorSource
                },
            forall|f: int| 0 <= f < ge.len() && (#[trigger] ge[f]).target == t ==> in0[f] == ge[f],
            forall|f: int|
                0 <= f < ge.len() ==> in0[f] == ge[f] || (#[trigger] in0[f]).target == usize::MAX,
        decreases ge.len() - e,
    {
        if in_edges[e].target == t {
            assert(in_edges@[e as int] == ge[e as int]);
            let ghost prev = in_edges@;
            in_edges.push(vacated_edge());
            let pe = in_edges.swap_remove(e);
            assert(forall|f: int| 0 <= f < ge.len() && f != e ==> in_edges@[f] == prev[f]);
            if !schema_is_wf(&pe.schema) {
                return Err(PlanError::SchemaShape(SchemaError::MissingTimestamp));
            }
            let src = match map[pe.source] {
                Some(s) => s,
                None => {
                    proof {
                        assert(false);
                    }
                    0
                },
            };
            let edge = LogicalEdge {
                source: src,
                target: m,
                edge_type: pe.edge_type,
                schema: pe.schema,
                projection: pe.projection,
            };
            proof {
                lemma_push_edge(nodes@, edges@, edge);
                assert(edges@.push(edge).subrange(0, e0.len() as int) =~= e0);
            }
            edges.push(edge);
        } else {
            assert(in_edges@[e as int] == ge[e as int] ==> ge[e as int].target != t);
        }
        proof {
            assert(in_edges_upto(ge, t as int, e + 1) == if ge[e as int].target == t {
                in_edges_upto(ge, t as int, e as int).push(e as int)
            } else {
                in_edges_upto(ge, t as int, e as int)
            });
        }
        e = e + 1;
    }
    Ok(())
}

/// Once an error is met, later nodes do not change it.
proof fn lemma_first_error_kept(g: PlanGraph, tables: Seq<Table>, order: Seq<usize>, i: int)
    requires
        0 <= i <= order.len(),
        first_error(g, tables, order.take(i)) is Some,
    ensures
        first_error(g, tables, order) == first_error(g, tables, order.take(i)),
    decreases order.len() - i,
{
    if i < order.len() {
        assert(order.take(i + 1).drop_last() =~= order.take(i));
        lemma_first_error_kept(g, tables, order, i + 1);
    } else {
        assert(order.take(i) =~= order);
    }
}

/// Position of the operator node that the edges of `order[jj]` attach to.
pub open spec fn attach_pos(g: PlanGraph, order: Seq<usize>, jj: int) -> int {
    base(g, order, jj) + node_width(g.nodes@[order[jj] as int]) - 1
}

/// Where the edges added for `order[jj]` come from: the scan's own edge
/// (`None`), then each edge of the graph into the node, in edge order.
pub open spec fn step_origins(g: PlanGraph, order: Seq<usize>, jj: int) -> Seq<(int, Option<int>)> {
    let t = order[jj] as int;
    let head: Seq<(int, Option<int>)> = if g.nodes@[t] is TableScan {
        seq![(jj, None)]
    } else {
        Seq::empty()
    };
    head + in_edges_upto(g.edges@, t, g.edges@.len() as int).map_values(|e: int| (jj, Some(e)))
}

/// Where each edge of the program comes from, after planning `j` nodes.
pub open spec fn origins(g: PlanGraph, order: Seq<usize>, j: int) -> Seq<(int, Option<int>)>
    decreases j,
{
    if j <= 0 {
        Seq::empty()
    } else {
        origins(g, order, j - 1) + step_origins(g, order, j - 1)
    }
}

/// `edge` is the edge of origin `o`: the edge from a scan's source to its
/// watermark, or an edge of the graph between the operator nodes its two
/// ends became.
#[verifier::opaque]
pub open spec fn edge_from(edge: LogicalEdge, g: PlanGraph, order: Seq<usize>, o: (int, Option<int>)) -> bool {
    match o.1 {
        None => scan_edge(edge, g.nodes@[order[o.0] as int]->TableScan_0, base(g, order, o.0)),
        Some(e) => exists|k: int|
            0 <= k < o.0 && order[k] == g.edges@[e].source && #[trigger] carries(
                edge,
                g.edges@[e],
                attach_pos(g, order, k),
                attach_pos(g, order, o.0),
            ),
    }
}

/// The edges added while planning `order[j]` are those `step_origins` lists.
proof fn lemma_step_edges(
    g: PlanGraph,
    order: Seq<usize>,
    j: int,
    before: Seq<LogicalEdge>,
    mid: Seq<LogicalEdge>,
    after: Seq<LogicalEdge>,
    map: Seq<Option<usize>>,
    m: int,
)
    requires
        0 <= j < order.len(),
        before.len() == origins(g, order, j).len(),
        forall|i: int|
            0 <= i < before.len() ==> edge_from(#[trigger] before[i], g, order, origins(g, order, j)[i]),
        m == attach_pos(g, order, j),
        g.nodes@[order[j] as int] is TableScan ==> {
            &&& mid.len() == before.len() + 1
            &&& mid.subrange(0, before.len() as int) == before
            &&& scan_edge(mid.last(), g.nodes@[order[j] as int]->TableScan_0, base(g, order, j))
        },
        !(g.nodes@[order[j] as int] is TableScan) ==> mid == before,
        ({
            let up = in_edges_upto(g.edges@, order[j] as int, g.edges@.len() as int);
            &&& after.len() == mid.len() + up.len()
            &&& after.subrange(0, mid.len() as int) == mid
            &&& forall|i: int|
                0 <= i < up.len() ==> carries(
                    #[trigger] after[mid.len() + i],
                    g.edges@[up[i]],
                    map[g.edges@[up[i]].source as int]->Some_0 as int,
                    m,
                )
        }),
        forall|e: int|
            0 <= e < g.edges@.len() && (#[trigger] g.edges@[e]).target == order[j] ==> exists|k: int|
                0 <= k < j && order[k] == g.edges@[e].source && map[g.edges@[e].source as int] == Some(
                    attach_pos(g, order, k) as usize,
                ) && 0 <= attach_pos(g, order, k) <= usize::MAX,
        forall|i: int| 0 <= i < in_edges_upto(g.edges@, order[j] as int, g.edges@.len() as int).len() ==> {
            let e = #[trigger] in_edges_upto(g.edges@, order[j] as int, g.edges@.len() as int)[i];
            0 <= e < g.edges@.len() && g.edges@[e].target == order[j]
        },
    ensures
        after.len() == origins(g, order, j + 1).len(),
        forall|i: int|
            0 <= i < after.len() ==> edge_from(#[trigger] after[i], g, order, origins(g, order, j + 1)[i]),
{
    let o0 = origins(g, order, j);
    let st = step_origins(g, order, j);
    let up = in_edges_upto(g.edges@, order[j] as int, g.edges@.len() as int);
    let h: int = if g.nodes@[order[j] as int] is TableScan { 1 } else { 0 };
    assert(origins(g, order, j + 1) == o0 + st);
    assert(mid.len() == before.len() + h);
    assert forall|i: int| 0 <= i < after.len() implies edge_from(#[trigger] after[i], g, order, origins(g, order, j + 1)[i]) by {
        if i < before.len() {
            assert(after[i] == after.subrange(0, mid.len() as int)[i]);
            assert(mid[i] == before[i]) by {
                if h == 1 {
                    assert(mid.subrange(0, before.len() as int)[i] == mid[i]);
                }
            }
            assert((o0 + st)[i] == o0[i]);
        } else if i < mid.len() {
            assert(h == 1 && i == before.len());
            assert(after[i] == after.subrange(0, mid.len() as int)[i]);
            assert((o0 + st)[i] == st[0]);
            reveal(edge_from);
        } else {
            let q = i - mid.len();
            let e = up[q];
            assert((o0 + st)[i] == st[h + q]);
            assert(st[h + q] == (j, Some(e)));
            assert(0 <= e < g.edges@.len() && g.edges@[e].target == order[j]);
            let k = choose|k: int|
                0 <= k < j && order[k] == g.edges@[e].source && map[g.edges@[e].source as int] == Some(
                    attach_pos(g, order, k) as usize,
                ) && 0 <= attach_pos(g, order, k) <= usize::MAX;
            assert(after[i] == after[mid.len() + q]);
            assert(carries(after[mid.len() + q], g.edges@[e], map[g.edges@[e].source as int]->Some_0 as int, m));
            assert(carries(after[i], g.edges@[e], attach_pos(g, order, k), m));
            reveal(edge_from);
        }
    }
}

fn vacated_node() -> (r: LogicalPlanExtension) {
    LogicalPlanExtension::ValueCalculation(Err(String::new()))
}

/// The program is empty at the start.
proof fn lemma_empty_invariant(nodes: Seq<LogicalNode>, edges: Seq<LogicalEdge>)
    requires
        nodes.len() == 0,
        edges.len() == 0,
    ensures
        program_invariant(nodes, edges),
{
    reveal(program_invariant);
    assert(sources_have_edges(nodes, edges)) by {
        reveal(sources_have_edges);
    }
    assert(source_edges_reach_watermarks(nodes, edges)) by {
        reveal(source_edges_reach_watermarks);
    }
    assert(source_edges_unique(nodes, edges)) by {
        reveal(source_edges_unique);
    }
}

/// Appending nodes keeps every earlier node's operator nodes in place.
proof fn lemma_prefix_emitted(
    g: PlanGraph,
    tables: Seq<Table>,
    order: Seq<usize>,
    j: int,
    before: Seq<LogicalNode>,
    after: Seq<LogicalNode>,
)
    requires
        0 <= j,
        forall|jj: int|
            0 <= jj < j ==> emitted(before, base(g, order, jj), #[trigger] g.nodes@[order[jj] as int], tables),
        before.len() <= after.len(),
        after.subrange(0, before.len() as int) == before,
    ensures
        forall|jj: int|
            0 <= jj < j ==> emitted(after, base(g, order, jj), #[trigger] g.nodes@[order[jj] as int], tables),
{
    assert forall|jj: int| 0 <= jj < j implies emitted(
        after,
        base(g, order, jj),
        #[trigger] g.nodes@[order[jj] as int],
        tables,
    ) by {
        lemma_emitted_prefix(before, after, base(g, order, jj), g.nodes@[order[jj] as int], tables);
    }
}

/// Every edge into `order[j]` starts at a node planned earlier, whose
/// attaching operator node is recorded in `map` and is not a source.
proof fn lemma_in_edge_sources(
    g: PlanGraph,
    order: Seq<usize>,
    j: int,
    map: Seq<Option<usize>>,
    before: Seq<LogicalNode>,
    after: Seq<LogicalNode>,
)
    requires
        g.wf(),
        valid_order(g, order),
        0 <= j < order.len(),
        map.len() == g.nodes@.len(),
        forall|jj: int|
            0 <= jj < j ==> map[(#[trigger] order[jj]) as int] == Some(attach_pos(g, order, jj) as usize),
        forall|jj: int| 0 <= jj < j ==> 0 <= #[trigger] attach_pos(g, order, jj) < before.len(),
        forall|i: int|
            0 <= i < map.len() && (#[trigger] map[i]) is Some ==> {
                &&& map[i]->Some_0 < before.len()
                &&& before[map[i]->Some_0 as int].operator_name != OperatorName::ConnectorSource
            },
        before.len() <= after.len() <= usize::MAX,
        after.subrange(0, before.len() as int) == before,
    ensures
        forall|e: int|
            0 <= e < g.edges@.len() && (#[trigger] g.edges@[e]).target == order[j] ==> {
                let s = map[g.edges@[e].source as int];
                &&& g.edges@[e].source < map.len()
                &&& s is Some
                &&& s->Some_0 < after.len()
                &&& after[s->Some_0 as int].operator_name != OperatorName::ConnectorSource
            },
        forall|e: int|
            0 <= e < g.edges@.len() && (#[trigger] g.edges@[e]).target == order[j] ==> exists|k: int|
                0 <= k < j && order[k] == g.edges@[e].source && map[g.edges@[e].source as int] == Some(
                    attach_pos(g, order, k) as usize,
                ) && 0 <= attach_pos(g, order, k) <= usize::MAX,
{
    assert forall|e: int| 0 <= e < g.edges@.len() && (#[trigger] g.edges@[e]).target == order[j] implies {
        let s = map[g.edges@[e].source as int];
        &&& g.edges@[e].source < map.len()
        &&& s is Some
        &&& s->Some_0 < after.len()
        &&& after[s->Some_0 as int].operator_name != OperatorName::ConnectorSource
    } && exists|k: int|
        0 <= k < j && order[k] == g.edges@[e].source && map[g.edges@[e].source as int] == Some(
            attach_pos(g, order, k) as usize,
        ) && 0 <= attach_pos(g, order, k) <= usize::MAX by {
        assert(order.take(j).contains(g.edges@[e].source));
        let k = choose|k: int| 0 <= k < j && order.take(j)[k] == g.edges@[e].source;
        assert(order[k] == g.edges@[e].source);
        assert(map[order[k] as int] == Some(attach_pos(g, order, k) as usize));
        assert(0 <= attach_pos(g, order, k) < before.len());
        let p = map[g.edges@[e].source as int]->Some_0 as int;
        assert(after.subrange(0, before.len() as int)[p] == after[p]);
    }
}

/// Plans the nodes of the rewriter's graph in the given order: each node
/// becomes its operator nodes, then each edge into it (in the graph's edge
/// order) becomes an edge of the program.
#[verifier::rlimit(100)]
#[verifier::spinoff_prover]
pub fn plan_in_order(graph: PlanGraph, provider: &ArroyoSchemaProvider, order: Vec<usize>) -> (r: Result<
    LogicalProgram,
    PlanError,
>)
    requires
        graph.wf(),
        valid_order(graph, order@),
    ensures
        match r {
            Ok(p) => {
                &&& first_error(graph, provider.tables@, order@) is None
                &&& p.nodes@.len() == base(graph, order@, order@.len() as int)
                &&& forall|j: int|
                    0 <= j < order@.len() ==> emitted(
                        p.nodes@,
                        base(graph, order@, j),
                        #[trigger] graph.nodes@[order@[j] as int],
                        provider.tables@,
                    )
                &&& p.edges@.len() == origins(graph, order@, order@.len() as int).len()
                &&& forall|i: int|
                    0 <= i < p.edges@.len() ==> edge_from(
                        #[trigger] p.edges@[i],
                        graph,
                        order@,
                        origins(graph, order@, order@.len() as int)[i],
                    )
                &&& program_invariant(p.nodes@, p.edges@)
                &&& p.connection_ids@.len() == 0
            },
            Err(e) => first_error(graph, provider.tables@, order@) == Some(e),
        },
{
    let ghost g = graph;
    let ghost tables = provider.tables@;
    let PlanGraph { nodes: mut in_nodes, edges: mut in_edges } = graph;
    let n = in_nodes.len();
    let mut map: Vec<Option<usize>> = Vec::new();
    let mut k: usize = 0;
    while k < n
        invariant
            k <= n,
            map@.len() == k,
            forall|i: int| 0 <= i < k ==> (#[trigger] map@[i]) is None,
        decreases n - k,
    {
        map.push(None);
        k = k + 1;
    }
    let mut nodes: Vec<LogicalNode> = Vec::new();
    let mut edges: Vec<LogicalEdge> = Vec::new();
    proof {
        lemma_empty_invariant(nodes@, edges@);
    }
    let mut j: usize = 0;
    while j < order.len()
        invariant
            g == graph,
            g.wf(),
            valid_order(g, order@),
            tables == provider.tables@,
            j <= order@.len(),
            n == g.nodes@.len(),
            in_nodes@.len() == n,
            in_edges@.len() == g.edges@.len(),
            map@.len() == n,
            first_error(g, tables, order@.take(j as int)) is None,
            nodes@.len() == base(g, order@, j as int),
            forall|jj: int|
                0 <= jj < j ==> emitted(
                    nodes@,
                    base(g, order@, jj),
                    #[trigger] g.nodes@[order@[jj] as int],
                    tables,
                ),
            program_invariant(nodes@, edges@),
            edges@.len() == origins(g, order@, j as int).len(),
            forall|i: int|
                0 <= i < edges@.len() ==> edge_from(#[trigger] edges@[i], g, order@, origins(g, order@, j as int)[i]),
            forall|jj: int|
                0 <= jj < j ==> map@[(#[trigger] order@[jj]) as int] == Some(attach_pos(g, order@, jj) as usize),
            forall|jj: int| 0 <= jj < j ==> 0 <= #[trigger] attach_pos(g, order@, jj) < base(g, order@, j as int),
            forall|i: int| 0 <= i < n ==> ((#[trigger] map@[i]) is Some <==> order@.take(j as int).contains(i as usize)),
            forall|i: int|
                0 <= i < n && (#[trigger] map@[i]) is Some ==> {
                    &&& map@[i]->Some_0 < nodes@.len()
                    &&& nodes@[map@[i]->Some_0 as int].operator_name != OperatorName::ConnectorSource
                },
            forall|i: int| 0 <= i < n && (#[trigger] map@[i]) is None ==> in_nodes@[i] == g.nodes@[i],
            forall|e: int|
                0 <= e < g.edges@.len() && map@[(#[trigger] g.edges@[e]).target as int] is None ==> in_edges@[e]
                    == g.edges@[e],
            forall|e: int|
                0 <= e < g.edges@.len() ==> in_edges@[e] == g.edges@[e] || (#[trigger] in_edges@[e]).target
                    == usize::MAX,
        decreases order@.len() - j,
    {
        let t = order[j];
        proof {
            lemma_base_bound(g, order@, j as int);
            assert(!order@.take(j as int).contains(t)) by {
                if order@.take(j as int).contains(t) {
                    let i = choose|i: int| 0 <= i < j && order@.take(j as int)[i] == t;
                    assert(order@[i] == order@[j as int]);
                }
            }
            assert(order@.take(j + 1).drop_last() =~= order@.take(j as int));
            assert(order@.take(j + 1).last() == t);
            assert(t < n);
            assert(map@[t as int] is None);
        }
        let ghost before = nodes@;
        let ghost edges_before = edges@;
        in_nodes.push(vacated_node());
        let x = in_nodes.swap_remove(t);
        assert(x == g.nodes@[t as int]);
        let m = match plan_node(x, provider, &mut nodes, &mut edges) {
            Ok(m) => m,
            Err(e) => {
                proof {
                    lemma_first_error_kept(g, tables, order@, j + 1);
                }
                return Err(e);
            },
        };
        proof {
            lemma_prefix_emitted(g, tables, order@, j as int, before, nodes@);
            lemma_in_edge_sources(g, order@, j as int, map@, before, nodes@);
        }
        let ghost nodes_now = nodes@;
        let ghost edges_mid = edges@;
        proof {
            lemma_in_edges_upto(g.edges@, t as int, g.edges@.len() as int);
            lemma_base_bound(g, order@, j + 1);
        }
        match connect_in_edges(t, m, &mut in_edges, &map, &nodes, &mut edges, Ghost(g.edges@)) {
            Ok(()) => {},
            Err(e) => {
                proof {
                    assert(in_edge_bad(g, t as int));
                    lemma_first_error_kept(g, tables, order@, j + 1);
                }
                return Err(e);
            },
        }
        proof {
            assert(m == attach_pos(g, order@, j as int));
            lemma_step_edges(g, order@, j as int, edges_before, edges_mid, edges@, map@, m as int);
        }
        let ghost map_before = map@;
        map.set(t, Some(m));
        proof {
            assert(base(g, order@, j + 1) == nodes@.len());
            assert(order@.take(j + 1) =~= order@.take(j as int).push(t));
            assert forall|i: int| 0 <= i < n && (#[trigger] map@[i]) is Some implies {
                &&& map@[i]->Some_0 < nodes@.len()
                &&& nodes@[map@[i]->Some_0 as int].operator_name != OperatorName::ConnectorSource
            } by {
                if i != t {
                    assert(map_before[i] is Some);
                    assert(before[map_before[i]->Some_0 as int] == nodes@[map_before[i]->Some_0 as int]);
                }
            }
        }
        j = j + 1;
    }
    proof {
        assert(order@.take(j as int) =~= order@);
    }
    Ok(LogicalProgram { nodes, edges, connection_ids: Vec::new() })
}

/// `order` lists distinct nodes among `0..n`, at most `n` of them, each
/// after the source of every edge into it.
pub open spec fn valid_pair_order(n: nat, pairs: Seq<(usize, usize)>, order: Seq<usize>) -> bool {
    &&& order.len() <= n
    &&& forall|i: int| 0 <= i < order.len() ==> (#[trigger] order[i]) < n
    &&& forall|i: int, j: int| 0 <= i < j < order.len() ==> (#[trigger] order[i]) != (#[trigger] order[j])
    &&& forall|j: int, e: int|
        0 <= j < order.len() && 0 <= e < pairs.len() && (#[trigger] pairs[e]).1 == (#[trigger] order[j])
            ==> order.take(j).contains(pairs[e].0)
}

/// The edges can be ranked so that each leads to a higher rank: the graph
/// has no cycle.
pub open spec fn acyclic(pairs: Seq<(usize, usize)>) -> bool {
    exists|rank: spec_fn(usize) -> nat| #[trigger] ranked(pairs, rank)
}

/// Every edge leads from a lower to a higher rank.
pub open spec fn ranked(pairs: Seq<(usize, usize)>, rank: spec_fn(usize) -> nat) -> bool {
    forall|e: int| 0 <= e < pairs.len() ==> rank((#[trigger] pairs[e]).0) < rank(pairs[e].1)
}

/// Every node of `g` is in `order`.
pub open spec fn every_node_planned(g: PlanGraph, order: Seq<usize>) -> bool {
    &&& order.len() == g.nodes@.len()
    &&& forall|k: usize| k < g.nodes@.len() ==> #[trigger] order.contains(k)
}

/// The sum of `f` over the entries of `o`.
pub open spec fn seq_sum(o: Seq<usize>, f: spec_fn(usize) -> int) -> int
    decreases o.len(),
{
    if o.len() == 0 {
        0
    } else {
        seq_sum(o.drop_last(), f) + f(o.last())
    }
}

/// The sum of `f` over `0..n`.
pub open spec fn range_sum(n: nat, f: spec_fn(usize) -> int) -> int
    decreases n,
{
    if n == 0 {
        0
    } else {
        range_sum((n - 1) as nat, f) + f((n - 1) as usize)
    }
}

/// 1 for a scan node of `g`, else 0.
pub open spec fn scan_fn(g: PlanGraph) -> spec_fn(usize) -> int {
    |k: usize| if g.nodes@[k as int] is TableScan { 1int } else { 0int }
}

/// How many operator nodes node `k` of `g` becomes.
pub open spec fn width_fn(g: PlanGraph) -> spec_fn(usize) -> int {
    |k: usize| node_width(g.nodes@[k as int]) as int
}

/// How many edges of `ge` lead into node `k`, among the first `e`.
pub open spec fn indeg_fn(ge: Seq<PlanEdge>, e: int) -> spec_fn(usize) -> int {
    |k: usize| in_edges_upto(ge, k as int, e).len() as int
}

/// How many program edges node `k` of `g` brings: its scan edge, if any,
/// and one per edge into it.
pub open spec fn edge_fn(g: PlanGraph) -> spec_fn(usize) -> int {
    |k: usize| (if g.nodes@[k as int] is TableScan { 1int } else { 0int }) + in_edges_upto(
        g.edges@,
        k as int,
        g.edges@.len() as int,
    ).len() as int
}

/// The number of scan nodes of `g`.
pub open spec fn scan_count(g: PlanGraph) -> int {
    range_sum(g.nodes@.len(), scan_fn(g))
}

proof fn lemma_sum_remove(o: Seq<usize>, p: int, f: spec_fn(usize) -> int)
    requires
        0 <= p < o.len(),
    ensures
        seq_sum(o, f) == seq_sum(o.remove(p), f) + f(o[p]),
    decreases o.len(),
{
    if p == o.len() - 1 {
        assert(o.remove(p) =~= o.drop_last());
    } else {
        lemma_sum_remove(o.drop_last(), p, f);
        assert(o.remove(p).drop_last() =~= o.drop_last().remove(p));
        assert(o.remove(p).last() == o.last());
    }
}

/// Summing over a list of `n` distinct positions below `n` is summing over
/// `0..n`.
proof fn lemma_perm_sum(o: Seq<usize>, n: nat, f: spec_fn(usize) -> int)
    requires
        o.len() == n,
        forall|i: int| 0 <= i < o.len() ==> (#[trigger] o[i]) < n,
        forall|i: int, j: int| 0 <= i < j < o.len() ==> (#[trigger] o[i]) != (#[trigger] o[j]),
    ensures
        seq_sum(o, f) == range_sum(n, f),
    decreases n,
{
    if n > 0 {
        lemma_full_order(n, o);
        let last = (n - 1) as usize;
        assert(o.contains(last));
        let p = choose|p: int| 0 <= p < o.len() && o[p] == last;
        let r = o.remove(p);
        assert forall|i: int| 0 <= i < r.len() implies (#[trigger] r[i]) < n - 1 by {
            if i < p {
                assert(r[i] == o[i]);
                if i < p { assert(o[i] != o[p]); }
            } else {
                assert(r[i] == o[i + 1]);
                assert(o[p] != o[i + 1]);
            }
        }
        assert forall|i: int, j: int| 0 <= i < j < r.len() implies (#[trigger] r[i]) != (#[trigger] r[j]) by {
            let a = if i < p { i } else { i + 1 };
            let b = if j < p { j } else { j + 1 };
            assert(r[i] == o[a] && r[j] == o[b] && a < b);
        }
        lemma_perm_sum(r, (n - 1) as nat, f);
        lemma_sum_remove(o, p, f);
    }
}

proof fn lemma_range_sum_split(n: nat, f: spec_fn(usize) -> int, a: spec_fn(usize) -> int, b: spec_fn(usize) -> int)
    requires
        forall|k: usize| k < n ==> #[trigger] f(k) == a(k) + b(k),
    ensures
        range_sum(n, f) == range_sum(n, a) + range_sum(n, b),
    decreases n,
{
    if n > 0 {
        lemma_range_sum_split((n - 1) as nat, f, a, b);
        assert(f((n - 1) as usize) == a((n - 1) as usize) + b((n - 1) as usize));
    }
}

proof fn lemma_range_sum_ones(n: nat)
    ensures
        range_sum(n, |k: usize| 1int) == n,
    decreases n,
{
    if n > 0 {
        lemma_range_sum_ones((n - 1) as nat);
    }
}

proof fn lemma_range_sum_point(n: nat, f: spec_fn(usize) -> int, g: spec_fn(usize) -> int, c: usize)
    requires
        c < n <= usize::MAX,
        forall|k: usize| k < n && k != c ==> #[trigger] f(k) == g(k),
        f(c) == g(c) + 1,
    ensures
        range_sum(n, f) == range_sum(n, g) + 1,
    decreases n,
{
    if n - 1 == c {
        lemma_range_sum_same((n - 1) as nat, f, g);
    } else {
        lemma_range_sum_point((n - 1) as nat, f, g, c);
        assert(f((n - 1) as usize) == g((n - 1) as usize));
    }
}

proof fn lemma_range_sum_same(n: nat, f: spec_fn(usize) -> int, g: spec_fn(usize) -> int)
    requires
        forall|k: usize| k < n ==> #[trigger] f(k) == g(k),
    ensures
        range_sum(n, f) == range_sum(n, g),
    decreases n,
{
    if n > 0 {
        lemma_range_sum_same((n - 1) as nat, f, g);
        assert(f((n - 1) as usize) == g((n - 1) as usize));
    }
}

/// Every edge leads into exactly one node below `n`.
proof fn lemma_indeg_total(ge: Seq<PlanEdge>, n: nat, e: int)
    requires
        0 <= e <= ge.len(),
        n <= usize::MAX,
        forall|x: int| 0 <= x < ge.len() ==> (#[trigger] ge[x]).target < n,
    ensures
        range_sum(n, indeg_fn(ge, e)) == e,
    decreases e,
{
    if e == 0 {
        lemma_range_sum_same(n, indeg_fn(ge, 0), |k: usize| 0int);
        lemma_range_sum_zero(n);
    } else {
        lemma_indeg_total(ge, n, e - 1);
        let c = ge[e - 1].target;
        assert forall|k: usize| k < n && k != c implies #[trigger] indeg_fn(ge, e)(k) == indeg_fn(ge, e - 1)(k) by {
            assert(in_edges_upto(ge, k as int, e) == in_edges_upto(ge, k as int, e - 1));
        }
        assert(in_edges_upto(ge, c as int, e) == in_edges_upto(ge, c as int, e - 1).push(e - 1));
        lemma_range_sum_point(n, indeg_fn(ge, e), indeg_fn(ge, e - 1), c);
    }
}

proof fn lemma_range_sum_zero(n: nat)
    ensures
        range_sum(n, |k: usize| 0int) == 0,
    decreases n,
{
    if n > 0 {
        lemma_range_sum_zero((n - 1) as nat);
    }
}

/// `base` and the number of origins are sums over the planned prefix.
proof fn lemma_prefix_sums(g: PlanGraph, order: Seq<usize>, j: int)
    requires
        0 <= j <= order.len(),
    ensures
        base(g, order, j) == seq_sum(order.take(j), width_fn(g)),
        origins(g, order, j).len() == seq_sum(order.take(j), edge_fn(g)),
    decreases j,
{
    if j > 0 {
        lemma_prefix_sums(g, order, j - 1);
        assert(order.take(j).drop_last() =~= order.take(j - 1));
        assert(order.take(j).last() == order[j - 1]);
    }
}

/// Planning every node of `g` yields one operator node per node plus one per
/// scan, and one edge per edge plus one per scan.
proof fn lemma_full_counts(g: PlanGraph, order: Seq<usize>)
    requires
        g.wf(),
        valid_order(g, order),
        every_node_planned(g, order),
    ensures
        base(g, order, order.len() as int) == g.nodes@.len() + scan_count(g),
        origins(g, order, order.len() as int).len() == g.edges@.len() + scan_count(g),
{
    let n = g.nodes@.len();
    lemma_prefix_sums(g, order, order.len() as int);
    assert(order.take(order.len() as int) =~= order);
    lemma_perm_sum(order, n, width_fn(g));
    lemma_perm_sum(order, n, edge_fn(g));
    lemma_range_sum_split(n, width_fn(g), |k: usize| 1int, scan_fn(g));
    lemma_range_sum_ones(n);
    lemma_range_sum_split(n, edge_fn(g), scan_fn(g), indeg_fn(g.edges@, g.edges@.len() as int));
    lemma_indeg_total(g.edges@, n, g.edges@.len() as int);
}

/// A list of `n` distinct positions below `n` holds every position.
proof fn lemma_full_order(n: nat, order: Seq<usize>)
    requires
        order.len() == n,
        forall|i: int| 0 <= i < order.len() ==> (#[trigger] order[i]) < n,
        forall|i: int, j: int| 0 <= i < j < order.len() ==> (#[trigger] order[i]) != (#[trigger] order[j]),
    ensures
        forall|k: usize| k < n ==> #[trigger] order.contains(k),
{
    let ints = order.map_values(|x: usize| x as int);
    assert(ints.no_duplicates()) by {
        assert forall|i: int, j: int| 0 <= i < ints.len() && 0 <= j < ints.len() && i != j implies ints[i] != ints[j] by {
            if i < j {
                assert(order[i] != order[j]);
            } else {
                assert(order[j] != order[i]);
            }
        }
    }
    ints.unique_seq_to_set();
    lemma_int_range(0, n as int);
    let range = set_int_range(0, n as int);
    assert(ints.to_set().subset_of(range));
    lemma_len_subset(ints.to_set(), range);
    lemma_subset_equality(ints.to_set(), range);
    assert forall|k: usize| k < n implies #[trigger] order.contains(k) by {
        assert(range.contains(k as int));
        assert(ints.to_set().contains(k as int));
        let i = choose|i: int| 0 <= i < ints.len() && ints[i] == k as int;
        assert(order[i] == k);
    }
}

/// The order in which petgraph's topological walk visits a graph of `n`
/// nodes with the given edges.
pub uninterp spec fn topo_order(n: nat, pairs: Seq<(usize, usize)>) -> Seq<usize>;

/// Relies on petgraph's `Graph::add_node`, `Graph::add_edge` and
/// `visit::Topo`: the walk depends on the graph alone, yields each node at
/// most once, and yields a node only once every node with an edge into it
/// has been yielded (nodes on cycles are never yielded, and a graph without
/// cycles has every node yielded). `add_node` and
/// `add_edge` panic past `u32::MAX` entries and on unknown endpoints.
#[verifier::external_body]
fn topological_order(n: usize, pairs: &Vec<(usize, usize)>) -> (r: Vec<usize>)
    requires
        n < u32::MAX,
        pairs@.len() < u32::MAX,
        forall|e: int| 0 <= e < pairs@.len() ==> (#[trigger] pairs@[e]).0 < n && pairs@[e].1 < n,
    ensures
        r@ == topo_order(n as nat, pairs@),
        valid_pair_order(n as nat, pairs@, r@),
        acyclic(pairs@) ==> r@.len() == n,
{
    let mut g = petgraph::graph::DiGraph::<(), ()>::new();
    for _ in 0..n {
        g.add_node(());
    }
    for (a, b) in pairs.iter() {
        g.add_edge(petgraph::graph::NodeIndex::new(*a), petgraph::graph::NodeIndex::new(*b), ());
    }
    let mut topo = petgraph::visit::Topo::new(&g);
    let mut r = Vec::new();
    while let Some(x) = topo.next(&g) {
        r.push(x.index());
    }
    r
}

/// The endpoints of each edge of `g`, in order.
pub open spec fn edge_pairs(g: PlanGraph) -> Seq<(usize, usize)> {
    g.edges@.map_values(|e: PlanEdge| (e.source, e.target))
}

fn collect_pairs(edges: &Vec<PlanEdge>) -> (r: Vec<(usize, usize)>)
    ensures
        r@ == edges@.map_values(|e: PlanEdge| (e.source, e.target)),
{
    let mut r: Vec<(usize, usize)> = Vec::new();
    let mut i: usize = 0;
    while i < edges.len()
        invariant
            i <= edges@.len(),
            r@ == edges@.take(i as int).map_values(|e: PlanEdge| (e.source, e.target)),
        decreases edges@.len() - i,
    {
        r.push((edges[i].source, edges[i].target));
        i = i + 1;
        assert(r@ =~= edges@.take(i as int).map_values(|e: PlanEdge| (e.source, e.target)));
    }
    assert(edges@.take(i as int) =~= edges@);
    r
}

/// The interval `date_bin` bins a tumbling window's timestamps by: no
/// months, no days, and the width in nanoseconds, when it fits.
pub fn binning_interval(width_nanos: u64) -> (r: Option<(i32, i32, i64)>)
    ensures
        r == if width_nanos <= i64::MAX {
            Some((0i32, 0i32, width_nanos as i64))
        } else {
            None
        },
{
    if width_nanos <= 9_223_372_036_854_775_807 {
        Some((0, 0, width_nanos as i64))
    } else {
        None
    }
}

/// Options handed to the physical planner's session.
#[derive(Clone, Copy, Debug, PartialEq, Eq, Structural)]
pub struct SessionOptions {
    pub enable_round_robin_repartition: bool,
    pub repartition_aggregations: bool,
    /// Whether the physical optimizer runs its rules; without them the
    /// planned aggregate keeps the final-over-partial shape that is split.
    pub physical_optimizer_rules: bool,
}

/// The planner, bound to a catalog.
pub struct Planner {
    pub schema_provider: ArroyoSchemaProvider,
    pub session: SessionOptions,
}

impl Planner {
    /// A planner over the catalog whose physical-planning session has both
    /// repartitioning optimizations off and no physical optimizer rules:
    /// they reshape aggregates in ways the window decomposition cannot split.
    pub fn new(schema_provider: ArroyoSchemaProvider) -> (r: Self)
        ensures
            r.schema_provider == schema_provider,
            r.session == (SessionOptions {
                enable_round_robin_repartition: false,
                repartition_aggregations: false,
                physical_optimizer_rules: false,
            }),
    {
        Planner {
            schema_provider,
            session: SessionOptions {
                enable_round_robin_repartition: false,
                repartition_aggregations: false,
                physical_optimizer_rules: false,
            },
        }
    }

    /// Plans the rewriter's graph into a logical program, visiting its nodes
    /// in topological order. The result depends on the graph and the catalog
    /// alone (see `lemma_planning_deterministic`), and keeps the program laws
    /// of `lemma_program_laws`.
    pub fn get_arrow_program(&self, graph: PlanGraph) -> (r: Result<LogicalProgram, PlanError>)
        requires
            graph.wf(),
        ensures
            ({
                let order = topo_order(graph.nodes@.len(), edge_pairs(graph));
                let tables = self.schema_provider.tables@;
                match r {
                    Ok(p) => {
                        &&& first_error(graph, tables, order) is None
                        &&& valid_order(graph, order)
                        &&& (acyclic(edge_pairs(graph)) ==> {
                            &&& every_node_planned(graph, order)
                            &&& p.nodes@.len() == graph.nodes@.len() + scan_count(graph)
                            &&& p.edges@.len() == graph.edges@.len() + scan_count(graph)
                        })
                        &&& planned(graph, tables, order, p)
                        &&& sources_feed_watermarks(p)
                        &&& edges_carry_timestamps(p)
                        &&& windows_decomposed(p)
                        &&& ids_distinct(p)
                        &&& (keys_agree(graph) ==> key_links_agree(p))
                        &&& p.connection_ids@.len() == 0
                    },
                    Err(e) => first_error(graph, tables, order) == Some(e),
                }
            }),
    {
        let pairs = collect_pairs(&graph.edges);
        let order = topological_order(graph.nodes.len(), &pairs);
        proof {
            assert(pairs@ == edge_pairs(graph));
            assert forall|j: int, e: int|
                0 <= j < order@.len() && 0 <= e < graph.edges@.len() && (#[trigger] graph.edges@[e]).target
                    == (#[trigger] order@[j]) implies order@.take(j).contains(graph.edges@[e].source) by {
                assert(pairs@[e] == (graph.edges@[e].source, graph.edges@[e].target));
            }
        }
        proof {
            if acyclic(edge_pairs(graph)) {
                lemma_full_order(graph.nodes@.len(), order@);
            }
        }
        let r = plan_in_order(graph, &self.schema_provider, order);
        proof {
            if r is Ok {
                if acyclic(edge_pairs(graph)) {
                    lemma_full_counts(graph, order@);
                }
                lemma_program_laws(r->Ok_0);
                if keys_agree(graph) {
                    lemma_keys_feed_windows(graph, self.schema_provider.tables@, order@, r->Ok_0);
                }
            }
        }
        r
    }
}

/// The laws the planner keeps hold of every program it returns: each source
/// feeds exactly one edge, into a watermark; every edge's schema has its
/// timestamp; every tumbling window is decomposed into a final aggregation
/// over the `partial` placeholder; and operator ids are pairwise distinct.
pub proof fn lemma_program_laws(p: LogicalProgram)
    requires
        program_invariant(p.nodes@, p.edges@),
    ensures
        sources_feed_watermarks(p),
        edges_carry_timestamps(p),
        windows_decomposed(p),
        ids_distinct(p),
{
    reveal(program_invariant);
    lemma_ids_distinct(p);
}

} // verus!
