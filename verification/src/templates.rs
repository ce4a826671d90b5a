//! The markdown skeletons that pre-fill a new node's description.
use vstd::prelude::*;
use crate::models::NodeType;

verus! {

pub const PROJECT_TEMPLATE: &'static str = "## Goal\n<!-- What are you trying to accomplish? -->\n\n## Value\n<!-- Why does this matter? What's the end outcome? -->\n\n## Success Criteria\n<!-- How do you know it's done? -->\n\n## Context\n<!-- Any background, constraints, or related work -->\n";

pub const PHASE_TEMPLATE: &'static str = "## Objective\n<!-- What does this phase deliver? -->\n\n## Scope\n<!-- What's in and out of scope? -->\n";

pub const TASK_TEMPLATE: &'static str = "## Description\n<!-- What needs to be done? -->\n\n## Acceptance Criteria\n<!-- How do you verify it's complete? -->\n";

/// The template text for each node type.
pub open spec fn template_text(node_type: NodeType) -> Seq<char> {
    match node_type {
        NodeType::Project => PROJECT_TEMPLATE@,
        NodeType::Phase => PHASE_TEMPLATE@,
        NodeType::Task => TASK_TEMPLATE@,
    }
}

pub fn get_template(node_type: NodeType) -> (r: &'static str)
    ensures
        r@ == template_text(node_type),
{
    match node_type {
        NodeType::Project => PROJECT_TEMPLATE,
        NodeType::Phase => PHASE_TEMPLATE,
        NodeType::Task => TASK_TEMPLATE,
    }
}

} // verus!
