use crate::sandbox::tools::ActiveTool;
use vstd::prelude::*;

verus! {

/// The caption of a tool's button: the tool's name, marked when it is the
/// active tool.
pub open spec fn tool_caption(active: ActiveTool, tool: ActiveTool) -> Seq<char> {
    match tool {
        ActiveTool::Drag => if active == tool { "▶ Drag"@ } else { "Drag"@ },
        ActiveTool::Rectangle => if active == tool { "▶ Rect"@ } else { "Rect"@ },
        ActiveTool::Circle => if active == tool { "▶ Circle"@ } else { "Circle"@ },
    }
}

/// The mark goes on the active tool's button alone: a tool's caption is the
/// same whichever other tool is active, is unmarked then, and the active
/// tool's caption is that same caption after the mark and a space.
pub proof fn lemma_caption_marks_active_only(a: ActiveTool, b: ActiveTool, tool: ActiveTool)
    requires
        a != tool,
        b != tool,
    ensures
        tool_caption(a, tool) == tool_caption(b, tool),
        tool_caption(a, tool).len() > 0 && tool_caption(a, tool)[0] != '▶',
        tool_caption(tool, tool) == seq!['▶', ' '] + tool_caption(a, tool),
{
    reveal_strlit("▶ Drag");
    reveal_strlit("Drag");
    reveal_strlit("▶ Rect");
    reveal_strlit("Rect");
    reveal_strlit("▶ Circle");
    reveal_strlit("Circle");
    assert(tool_caption(tool, tool) =~= seq!['▶', ' '] + tool_caption(a, tool));
}

/// The caption of the button that selects `tool`, while `active` is the
/// active tool.
pub fn tool_label(active: ActiveTool, tool: ActiveTool) -> (label: &'static str)
    ensures
        label@ == tool_caption(active, tool),
{
    let selected = active == tool;
    match tool {
        ActiveTool::Drag => if selected { "▶ Drag" } else { "Drag" },
        ActiveTool::Rectangle => if selected { "▶ Rect" } else { "Rect" },
        ActiveTool::Circle => if selected { "▶ Circle" } else { "Circle" },
    }
}

} // verus!
