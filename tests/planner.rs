use arroyo_planner::catalog::{ArroyoSchemaProvider, ConnectorTable, Table};
use arroyo_planner::planner::{
    AggregateCalculation, LogicalPlanExtension, PlanEdge, PlanError, PlanGraph, Planner, TableScan,
    WindowKind, WindowType,
};
use arroyo_planner::program::{
    AggregateMode, ConnectorOp, EdgeKind, LogicalProgram, OperatorConfig, OperatorName,
    PhysicalNode, PhysicalPlan,
};
use arroyo_planner::schema::{ArroyoSchema, DataType, Field, TimeUnit};

fn ts_field() -> Field {
    Field::new("_timestamp".to_string(), DataType::Timestamp(TimeUnit::Nanosecond, None), false)
}

fn table_fields() -> Vec<Field> {
    vec![
        Field::new("a".to_string(), DataType::Int64, false),
        Field::new("b".to_string(), DataType::Utf8, true),
        ts_field(),
    ]
}

fn kafka_op() -> ConnectorOp {
    ConnectorOp {
        connector: "kafka".to_string(),
        config: "{\"topic\":\"t\"}".to_string(),
        description: "KafkaSource<t>".to_string(),
    }
}

fn sink_op() -> ConnectorOp {
    ConnectorOp {
        connector: "kafka".to_string(),
        config: "{\"topic\":\"out\"}".to_string(),
        description: "KafkaSink<out>".to_string(),
    }
}

fn provider() -> ArroyoSchemaProvider {
    let mut p = ArroyoSchemaProvider::new();
    p.add_table(Table::ConnectorTable(ConnectorTable { name: "t".to_string(), connector_op: kafka_op() }));
    p.add_table(Table::MemoryTable { name: "mem".to_string() });
    p
}

fn scan(name: &str) -> LogicalPlanExtension {
    LogicalPlanExtension::TableScan(TableScan {
        table_name: name.to_string(),
        projected_schema: table_fields(),
        projection: None,
    })
}

fn sink() -> LogicalPlanExtension {
    LogicalPlanExtension::Sink { name: "out".to_string(), connector_op: sink_op() }
}

fn edge(source: usize, target: usize, kind: EdgeKind, keys: Vec<usize>) -> PlanEdge {
    PlanEdge {
        source,
        target,
        edge_type: kind,
        schema: ArroyoSchema::from_schema_keys(table_fields(), keys).unwrap(),
        projection: None,
    }
}

fn plan(graph: PlanGraph) -> Result<LogicalProgram, PlanError> {
    Planner::new(provider()).get_arrow_program(graph)
}

fn ids(p: &LogicalProgram) -> Vec<String> {
    p.nodes.iter().map(|n| n.operator_id.clone()).collect()
}

fn aggregate(window: WindowType) -> AggregateCalculation {
    let partial = PhysicalPlan {
        node: PhysicalNode::Encoded(vec![1, 2, 3]),
        schema: vec![
            Field::new("a".to_string(), DataType::Int64, false),
            Field::new("s[sum]".to_string(), DataType::Int64, true),
        ],
    };
    let root = PhysicalPlan {
        node: PhysicalNode::Aggregate {
            mode: AggregateMode::Final,
            input: Some(Box::new(partial)),
            detail: vec![9, 9],
        },
        schema: vec![
            Field::new("a".to_string(), DataType::Int64, false),
            Field::new("s".to_string(), DataType::Int64, true),
        ],
    };
    AggregateCalculation {
        input_is_table_scan: true,
        input_schema: table_fields(),
        binning_function: Ok(vec![7, 7, 7]),
        physical_plan: Ok(root),
        window,
        key_fields: vec![0],
        window_field: Field::new("window".to_string(), DataType::Utf8, false),
        window_index: 1,
    }
}

fn keyed_tumbling_graph() -> PlanGraph {
    PlanGraph {
        nodes: vec![
            scan("t"),
            LogicalPlanExtension::KeyCalculation { physical_plan: Ok(vec![4, 5]), key_columns: vec![0] },
            LogicalPlanExtension::AggregateCalculation(aggregate(WindowType::Tumbling {
                width_nanos: 5_000_000_000,
            })),
            sink(),
        ],
        edges: vec![
            edge(0, 1, EdgeKind::Forward, vec![]),
            edge(1, 2, EdgeKind::Shuffle, vec![0]),
            edge(2, 3, EdgeKind::Forward, vec![]),
        ],
    }
}

#[test]
fn single_source_to_sink() {
    let graph = PlanGraph { nodes: vec![scan("t"), sink()], edges: vec![edge(0, 1, EdgeKind::Forward, vec![])] };
    let p = plan(graph).unwrap();
    assert_eq!(p.nodes.len(), 3);
    assert_eq!(p.edges.len(), 2);
    assert_eq!(ids(&p), vec!["source_0", "watermark_1", "sink_2"]);
    assert_eq!(p.nodes[0].operator_name, OperatorName::ConnectorSource);
    assert_eq!(p.nodes[0].description, "KafkaSource<t>");
    assert_eq!(p.nodes[1].operator_name, OperatorName::Watermark);
    match &p.nodes[1].operator_config {
        OperatorConfig::Watermark(w) => {
            assert_eq!(w.period_micros, 1_000_000);
            assert_eq!(w.max_lateness_micros, 0);
            assert_eq!(w.idle_time_micros, None);
        }
        other => panic!("unexpected config {:?}", other),
    }
    assert_eq!(p.nodes[2].operator_config, OperatorConfig::Connector(sink_op()));
    assert_eq!((p.edges[0].source, p.edges[0].target), (0, 1));
    assert_eq!((p.edges[1].source, p.edges[1].target), (1, 2));
    assert_eq!(p.edges[0].schema.timestamp_index, 2);
    assert!(p.connection_ids.is_empty());
}

#[test]
fn simple_projection() {
    let graph = PlanGraph {
        nodes: vec![scan("t"), LogicalPlanExtension::ValueCalculation(Ok(vec![42])), sink()],
        edges: vec![edge(0, 1, EdgeKind::Forward, vec![]), edge(1, 2, EdgeKind::Forward, vec![])],
    };
    let p = plan(graph).unwrap();
    assert_eq!(ids(&p), vec!["source_0", "watermark_1", "value_2", "sink_3"]);
    assert_eq!(p.edges.len(), 3);
    assert_eq!(p.nodes[2].description, "arrow_value<tmp>");
    match &p.nodes[2].operator_config {
        OperatorConfig::Value(v) => {
            assert_eq!(v.name, "tmp");
            assert_eq!(v.physical_plan, vec![42]);
        }
        other => panic!("unexpected config {:?}", other),
    }
}

#[test]
fn keyed_tumbling_aggregate() {
    let p = plan(keyed_tumbling_graph()).unwrap();
    assert_eq!(p.nodes.len(), 5);
    assert_eq!(p.edges.len(), 4);
    assert_eq!(
        ids(&p),
        vec!["source_0", "watermark_1", "key_2", "TumblingWindow<5s>_3", "sink_4"]
    );
    match &p.nodes[2].operator_config {
        OperatorConfig::Key(k) => {
            assert_eq!(k.key_fields, vec![0u64]);
            assert_eq!(k.physical_plan, vec![4, 5]);
        }
        other => panic!("unexpected config {:?}", other),
    }
    assert_eq!(p.nodes[3].operator_name, OperatorName::TumblingWindowAggregate);
    assert_eq!(p.nodes[3].description, "TumblingWindow<5s>");
    match &p.nodes[3].operator_config {
        OperatorConfig::TumblingWindow(c) => {
            assert_eq!(c.name, "TumblingWindow<5s>");
            assert_eq!(c.width_micros, 5_000_000);
            assert_eq!(c.binning_function, vec![7, 7, 7]);
            assert_eq!(c.window_field_name, "window");
            assert_eq!(c.window_index, 1);
            assert_eq!(c.input_schema.timestamp_index, 2);
            assert_eq!(c.input_schema.key_indices, vec![0]);
            assert_eq!(c.partial_aggregation_plan.node, PhysicalNode::Encoded(vec![1, 2, 3]));
            assert_eq!(c.partial_schema.fields.len(), 3);
            assert_eq!(c.partial_schema.fields[2].name, "_timestamp");
            assert_eq!(c.partial_schema.timestamp_index, 2);
            assert_eq!(c.partial_schema.key_indices, vec![0]);
            match &c.final_aggregation_plan.node {
                PhysicalNode::Aggregate { mode, input, detail } => {
                    assert_eq!(*mode, AggregateMode::Final);
                    assert_eq!(*detail, vec![9, 9]);
                    let child = input.as_ref().unwrap();
                    assert_eq!(child.node, PhysicalNode::MemoryTable { table_name: "partial".to_string() });
                    assert_eq!(child.schema.len(), 2);
                }
                other => panic!("unexpected plan {:?}", other),
            }
        }
        other => panic!("unexpected config {:?}", other),
    }
    assert_eq!(p.edges[2].edge_type, EdgeKind::Shuffle);
    assert_eq!((p.edges[2].source, p.edges[2].target), (2, 3));
    assert_eq!(p.edges[2].schema.key_indices, vec![0]);
}

#[test]
fn unknown_table() {
    let graph = PlanGraph { nodes: vec![scan("missing"), sink()], edges: vec![edge(0, 1, EdgeKind::Forward, vec![])] };
    assert_eq!(plan(graph), Err(PlanError::UnknownTable("missing".to_string())));
}

#[test]
fn not_a_source() {
    let graph = PlanGraph { nodes: vec![scan("mem")], edges: vec![] };
    assert_eq!(plan(graph), Err(PlanError::NotASource("mem".to_string())));
}

#[test]
fn unsupported_window() {
    let mut graph = keyed_tumbling_graph();
    graph.nodes[2] = LogicalPlanExtension::AggregateCalculation(aggregate(WindowType::Sliding {
        width_nanos: 10_000_000_000,
        slide_nanos: 1_000_000_000,
    }));
    assert_eq!(plan(graph), Err(PlanError::UnsupportedWindow(WindowKind::Sliding)));
}

#[test]
fn bad_aggregate_input() {
    let mut graph = keyed_tumbling_graph();
    let mut a = aggregate(WindowType::Tumbling { width_nanos: 1_000 });
    a.input_is_table_scan = false;
    graph.nodes[2] = LogicalPlanExtension::AggregateCalculation(a);
    assert_eq!(plan(graph), Err(PlanError::BadAggregateInput));
}

#[test]
fn not_a_final_aggregate() {
    let mut graph = keyed_tumbling_graph();
    let mut a = aggregate(WindowType::Tumbling { width_nanos: 1_000 });
    a.physical_plan = Ok(PhysicalPlan { node: PhysicalNode::Encoded(vec![]), schema: vec![] });
    graph.nodes[2] = LogicalPlanExtension::AggregateCalculation(a);
    assert_eq!(plan(graph), Err(PlanError::NotAFinalAggregate));
}

#[test]
fn physical_planning_failed() {
    let graph = PlanGraph {
        nodes: vec![scan("t"), LogicalPlanExtension::ValueCalculation(Err("bad plan".to_string()))],
        edges: vec![edge(0, 1, EdgeKind::Forward, vec![])],
    };
    assert_eq!(plan(graph), Err(PlanError::PhysicalPlanningFailed("bad plan".to_string())));
}

#[test]
fn edge_without_timestamp() {
    let mut bad = edge(0, 1, EdgeKind::Forward, vec![]);
    bad.schema = ArroyoSchema::new(vec![Field::new("a".to_string(), DataType::Int64, false)], 0, vec![]);
    let graph = PlanGraph { nodes: vec![scan("t"), sink()], edges: vec![bad] };
    assert_eq!(
        plan(graph),
        Err(PlanError::SchemaShape(arroyo_planner::schema::SchemaError::MissingTimestamp))
    );
}

#[test]
fn deterministic_planning() {
    let a = plan(keyed_tumbling_graph()).unwrap();
    let b = plan(keyed_tumbling_graph()).unwrap();
    assert_eq!(a, b);
    assert_eq!(format!("{:?}", a), format!("{:?}", b));
}

#[test]
fn operator_ids_distinct() {
    let p = plan(keyed_tumbling_graph()).unwrap();
    let mut v = ids(&p);
    v.sort();
    v.dedup();
    assert_eq!(v.len(), p.nodes.len());
}

#[test]
fn source_feeds_one_watermark() {
    let p = plan(keyed_tumbling_graph()).unwrap();
    let out: Vec<_> = p.edges.iter().filter(|e| e.source == 0).collect();
    assert_eq!(out.len(), 1);
    assert_eq!(p.nodes[out[0].target].operator_name, OperatorName::Watermark);
    assert!(p.edges.iter().all(|e| e.schema.fields[e.schema.timestamp_index].name == "_timestamp"));
}

#[test]
fn nodes_in_topological_order_regardless_of_listing() {
    let graph = PlanGraph {
        nodes: vec![sink(), scan("t")],
        edges: vec![edge(1, 0, EdgeKind::Forward, vec![])],
    };
    let p = plan(graph).unwrap();
    assert_eq!(ids(&p), vec!["source_0", "watermark_1", "sink_2"]);
    assert_eq!((p.edges[1].source, p.edges[1].target), (1, 2));
}

#[test]
fn planner_session_disables_repartitioning() {
    let p = Planner::new(provider());
    assert!(!p.session.enable_round_robin_repartition);
    assert!(!p.session.repartition_aggregations);
    assert!(!p.session.physical_optimizer_rules);
}

#[test]
fn binning_interval_in_nanoseconds() {
    assert_eq!(arroyo_planner::planner::binning_interval(5_000_000_000), Some((0, 0, 5_000_000_000)));
    assert_eq!(arroyo_planner::planner::binning_interval(u64::MAX), None);
}
