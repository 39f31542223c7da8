use rust_physics_sim::sandbox::tools::ActiveTool;
use rust_physics_sim::sandbox::ui::tool_label;

#[test]
fn label_marks_active_tool() {
    assert_eq!(tool_label(ActiveTool::Drag, ActiveTool::Drag), "▶ Drag");
    assert_eq!(tool_label(ActiveTool::Rectangle, ActiveTool::Rectangle), "▶ Rect");
    assert_eq!(tool_label(ActiveTool::Circle, ActiveTool::Circle), "▶ Circle");
}

#[test]
fn label_plain_for_other_tools() {
    assert_eq!(tool_label(ActiveTool::Circle, ActiveTool::Drag), "Drag");
    assert_eq!(tool_label(ActiveTool::Drag, ActiveTool::Rectangle), "Rect");
    assert_eq!(tool_label(ActiveTool::Rectangle, ActiveTool::Circle), "Circle");
}
