use oxidns::init_plan::{
    build_create_contexts, build_runtime_init_plan, DependencyGraphEdge, DependencyGraphNode, DependencyGraphReport,
    DependencyKind, SequenceFlow,
};

fn node(tag: &str, plugin_type: &str, kind: DependencyKind) -> DependencyGraphNode {
    DependencyGraphNode { tag: tag.to_string(), plugin_type: plugin_type.to_string(), kind }
}

fn edge(source: &str, target: &str, field: &str) -> DependencyGraphEdge {
    DependencyGraphEdge { source_tag: source.to_string(), target_tag: target.to_string(), field: field.to_string() }
}

fn report() -> DependencyGraphReport {
    DependencyGraphReport {
        nodes: vec![
            node("main", "udp_server", DependencyKind::Server),
            node("seq", "sequence", DependencyKind::Executor),
            node("geosite", "domain_set", DependencyKind::Provider),
            node("unused_b", "b", DependencyKind::Provider),
            node("unused_a", "z", DependencyKind::Provider),
            node("unused_a", "a", DependencyKind::Provider),
            node("alpha", "qname", DependencyKind::Matcher),
        ],
        edges: vec![
            edge("main", "seq", "entry"),
            edge("seq", "geosite", "rules"),
            edge("ghost", "seq", "entry"),
            edge("alpha", "seq", "x"),
            edge("unused_b", "unused_a", "inner"),
        ],
        init_order: vec!["geosite".to_string(), "seq".to_string(), "main".to_string(), "unused_b".to_string()],
        sequence_flows: vec![SequenceFlow { tag: "seq".to_string() }, SequenceFlow { tag: "unused_b".to_string() }],
    }
}

#[test]
fn init_plan_keeps_only_plugins_reached_from_non_providers() {
    let plan = build_runtime_init_plan(&report());
    let tags: Vec<&str> = plan.report.nodes.iter().map(|n| n.tag.as_str()).collect();
    assert_eq!(tags, vec!["main", "seq", "geosite", "alpha"]);
    let edges: Vec<(&str, &str)> =
        plan.report.edges.iter().map(|e| (e.source_tag.as_str(), e.target_tag.as_str())).collect();
    assert_eq!(edges, vec![("main", "seq"), ("seq", "geosite"), ("alpha", "seq")]);
    assert_eq!(plan.report.init_order, vec!["geosite".to_string(), "seq".to_string(), "main".to_string()]);
    assert_eq!(plan.report.sequence_flows.len(), 1);
    assert_eq!(plan.report.sequence_flows[0].tag, "seq");
}

#[test]
fn skipped_providers_are_sorted_by_tag_then_type() {
    let plan = build_runtime_init_plan(&report());
    let skipped: Vec<(&str, &str)> =
        plan.skipped_providers.iter().map(|s| (s.tag.as_str(), s.plugin_type.as_str())).collect();
    assert_eq!(skipped, vec![("unused_a", "a"), ("unused_a", "z"), ("unused_b", "b")]);
}

#[test]
fn create_contexts_group_sorted_dependents_by_target() {
    let contexts = build_create_contexts(&report());
    let keys: Vec<&str> = contexts.iter().map(|(k, _)| k.as_str()).collect();
    assert_eq!(keys, vec!["seq", "geosite", "unused_a"]);
    let seq = &contexts[0].1.dependents;
    let seq_tags: Vec<(&str, &str)> = seq.iter().map(|d| (d.tag.as_str(), d.field.as_str())).collect();
    assert_eq!(seq_tags, vec![("alpha", "x"), ("main", "entry")]);
    assert_eq!(seq[0].kind, DependencyKind::Matcher);
    assert_eq!(seq[1].plugin_type, "udp_server");
    let geosite = &contexts[1].1.dependents;
    assert_eq!(geosite.len(), 1);
    assert_eq!(geosite[0].tag, "seq");
    assert_eq!(geosite[0].kind, DependencyKind::Executor);
}

#[test]
fn empty_report_plans_nothing() {
    let empty = DependencyGraphReport { nodes: vec![], edges: vec![], init_order: vec![], sequence_flows: vec![] };
    let plan = build_runtime_init_plan(&empty);
    assert!(plan.report.nodes.is_empty());
    assert!(plan.skipped_providers.is_empty());
    assert!(build_create_contexts(&empty).is_empty());
}
