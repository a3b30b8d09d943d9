//! What a terminal tells the window about itself.

use vstd::prelude::*;

verus! {

/// The shape of the cursor.
#[derive(Debug, Clone, Copy, PartialEq, Eq, Structural)]
pub enum CursorShape {
    Block,
    Underline,
    Bar,
}

/// The cursor as it is seen.
#[derive(Debug, Clone, Copy, PartialEq, Eq, Structural)]
pub struct CursorState {
    /// From the top of the window.
    pub line: u16,
    pub column: u16,
    pub shape: CursorShape,
    pub visible: bool,
    pub blinking: bool,
}

impl Default for CursorState {
    fn default() -> (c: CursorState)
        ensures
            c == (CursorState {
                line: 0,
                column: 0,
                shape: CursorShape::Block,
                visible: true,
                blinking: false,
            }),
    {
        CursorState {
            line: 0,
            column: 0,
            shape: CursorShape::Block,
            visible: true,
            blinking: false,
        }
    }
}

/// A place in the terminal. Lines count from the top of the window: those above
/// it are negative.
#[derive(Debug, Clone, Copy, PartialEq, Eq, Structural)]
pub struct Point {
    pub line: i32,
    pub column: u16,
}

impl Point {
    pub fn new(line: i32, column: u16) -> (p: Point)
        ensures
            p == (Point { line, column }),
    {
        Point { line, column }
    }
}

/// How a selection runs from its start to its end.
#[derive(Debug, Clone, Copy, PartialEq, Eq, Structural)]
pub enum SelectionKind {
    /// Along the lines.
    Simple,
    /// As a rectangle.
    Block,
}

/// A selection.
#[derive(Debug, Clone, Copy, PartialEq, Eq, Structural)]
pub struct Selection {
    pub start: Point,
    pub end: Point,
    pub kind: SelectionKind,
}

/// Which mouse events the child asked for.
#[derive(Debug, Clone, Copy, PartialEq, Eq, Structural)]
pub enum MouseTracking {
    Off,
    /// Presses and releases.
    Click,
    /// Those, and motion with a button held.
    Drag,
    /// Those, and all motion.
    Motion,
}

/// How mouse events are written to the child.
#[derive(Debug, Clone, Copy, PartialEq, Eq, Structural)]
pub enum MouseEncoding {
    Legacy,
    Utf8,
    Sgr,
}

/// What the child asked of the input it gets.
#[derive(Debug, Clone, Copy, PartialEq, Eq, Structural)]
pub struct TermModes {
    pub bracketed_paste: bool,
    /// Whether any mouse events are wanted.
    pub mouse_reporting: bool,
    pub mouse_tracking: MouseTracking,
    pub mouse_encoding: MouseEncoding,
    pub focus_reporting: bool,
}

/// A cursor nothing is known of is a block at the corner, seen and still.
pub proof fn law_the_cursor_before_anything(c: CursorState)
    requires
        call_ensures(CursorState::default, (), c),
    ensures
        c.line == 0 && c.column == 0,
        c.shape is Block,
        c.visible && !c.blinking,
{
}

} // verus!
