use brain_dump_core::models::{EdgeType, NodeStatus, NodeType};
use brain_dump_core::templates::get_template;

#[test]
fn test_templates_are_nonempty() {
    assert!(get_template(NodeType::Project).contains("## Goal"));
    assert!(get_template(NodeType::Phase).contains("## Objective"));
    assert!(get_template(NodeType::Task).contains("## Description"));
}

#[test]
fn templates_hold_every_section() {
    let p = get_template(NodeType::Project);
    for h in ["## Goal", "## Value", "## Success Criteria", "## Context"] {
        assert!(p.contains(h));
    }
    assert!(get_template(NodeType::Phase).contains("## Scope"));
    assert!(get_template(NodeType::Task).contains("## Acceptance Criteria"));
    assert!(p.ends_with('\n'));
}

#[test]
fn node_type_names_round_trip() {
    for t in [NodeType::Project, NodeType::Phase, NodeType::Task] {
        assert_eq!(NodeType::from_str(t.as_str()).unwrap(), t);
    }
    assert_eq!(NodeType::Project.as_str(), "project");
    assert_eq!(NodeType::Phase.as_str(), "phase");
    assert_eq!(NodeType::Task.as_str(), "task");
}

#[test]
fn node_status_names_round_trip() {
    for s in [NodeStatus::Active, NodeStatus::Completed, NodeStatus::Archived] {
        assert_eq!(NodeStatus::from_str(s.as_str()).unwrap(), s);
    }
    assert_eq!(NodeStatus::Completed.as_str(), "completed");
}

#[test]
fn edge_type_names_round_trip() {
    for e in [EdgeType::Parent, EdgeType::Blocks, EdgeType::Related] {
        assert_eq!(EdgeType::from_str(e.as_str()).unwrap(), e);
    }
    assert_eq!(EdgeType::Blocks.as_str(), "blocks");
}

#[test]
fn unknown_names_are_refused_with_their_text() {
    assert_eq!(NodeType::from_str("epic").unwrap_err(), "invalid node type: epic");
    assert_eq!(NodeStatus::from_str("Done").unwrap_err(), "invalid status: Done");
    assert_eq!(EdgeType::from_str("child").unwrap_err(), "invalid edge type: child");
    assert!(NodeType::from_str("Project").is_err());
}

#[test]
fn child_types_form_three_levels() {
    assert_eq!(NodeType::Project.child_type(), Some(NodeType::Phase));
    assert_eq!(NodeType::Phase.child_type(), Some(NodeType::Task));
    assert_eq!(NodeType::Task.child_type(), None);
}

#[test]
fn names_parse_through_from_str_trait() {
    assert_eq!("task".parse::<NodeType>().unwrap(), NodeType::Task);
    assert_eq!("archived".parse::<NodeStatus>().unwrap(), NodeStatus::Archived);
    assert_eq!("related".parse::<EdgeType>().unwrap(), EdgeType::Related);
    assert_eq!("x".parse::<EdgeType>().unwrap_err(), "invalid edge type: x");
}
