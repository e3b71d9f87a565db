use vstd::prelude::*;

verus! {

/// How a run of text is drawn.
#[derive(Debug, Clone, Copy, PartialEq, Eq, Structural)]
pub enum LineFormatType {
    Dim,
    Normal,
    Highlight,
}

/// A run of text with one format.
#[derive(Debug, Clone, PartialEq, Eq)]
pub struct LineFormat(pub LineFormatType, pub String);

impl View for LineFormat {
    type V = (LineFormatType, Seq<char>);

    open spec fn view(&self) -> (LineFormatType, Seq<char>) {
        (self.0, self.1@)
    }
}

/// The views of a sequence of formatted runs.
pub open spec fn formats_view(v: Seq<LineFormat>) -> Seq<(LineFormatType, Seq<char>)> {
    v.map_values(|f: LineFormat| f@)
}

} // verus!

verus! {

/// A drawing step for the terminal.
#[derive(Debug)]
pub enum DrawCommand {
    Clear(usize, usize),
    Line(u16, usize, String),
    Row(u16, u16, String),
    Status(u16, String),
    Cursor(u16, u16),
    Format(usize, usize, usize, Vec<LineFormat>),
    SavePosition,
    RestorePosition,
}

/// The drawn cursor: its position, and whether it must be drawn again.
#[derive(Debug, Clone)]
pub struct RenderCursor {
    pub cx: usize,
    pub cy: usize,
    dirty: bool,
}

impl RenderCursor {
    pub closed spec fn is_dirty(&self) -> bool {
        self.dirty
    }

    pub closed spec fn spec_pos(&self) -> (usize, usize) {
        (self.cx, self.cy)
    }
}

impl Default for RenderCursor {
    fn default() -> (c: Self)
        ensures
            c.spec_pos() == (0usize, 0usize),
            c.is_dirty(),
    {
        Self { cx: 0, cy: 0, dirty: true }
    }
}

impl RenderCursor {
    /// Moves the cursor; it must be drawn again when it moved.
    pub fn update(&mut self, cx: usize, cy: usize)
        ensures
            final(self).spec_pos() == (cx, cy),
            final(self).is_dirty() == (old(self).is_dirty() || old(self).spec_pos() != (cx, cy)),
    {
        if self.cx != cx {
            self.cx = cx;
            self.dirty = true;
        }
        if self.cy != cy {
            self.cy = cy;
            self.dirty = true;
        }
    }

    /// The command that draws the cursor, when it must be drawn.
    pub fn generate_commands(&mut self) -> (v: Vec<DrawCommand>)
        ensures
            *final(self) == *old(self),
            old(self).is_dirty() ==> v@ == seq![
                DrawCommand::Cursor(old(self).spec_pos().0 as u16, old(self).spec_pos().1 as u16),
            ],
            !old(self).is_dirty() ==> v@.len() == 0,
    {
        let mut v = Vec::new();
        if self.dirty {
            v.push(DrawCommand::Cursor(self.cx as u16, self.cy as u16));
        }
        v
    }

    /// Marks the cursor for drawing again.
    pub fn clear(&mut self)
        ensures
            final(self).spec_pos() == old(self).spec_pos(),
            final(self).is_dirty(),
    {
        self.dirty = true;
    }
}

} // verus!
