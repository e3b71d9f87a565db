use vstd::prelude::*;

use crate::strings::string_push;

verus! {

/// Whether indentation is written with tab characters or with spaces.
#[derive(Debug, Clone, Copy, PartialEq, Eq, Structural)]
pub enum IndentStyle {
    Tab,
    Space,
}

/// How many columns one level of indentation takes.
#[derive(Debug, Clone, Copy, PartialEq, Eq, Structural)]
pub enum IndentSize {
    Tab,
    Size(u8),
}

/// The line separator that a buffer uses.
#[derive(Debug, Clone, Copy, PartialEq, Eq, Structural)]
pub enum EndOfLine {
    Lf,
    CrLf,
    Cr,
}

/// Per-buffer formatting settings.
#[derive(Debug, Clone, Copy, PartialEq, Eq, Structural)]
pub struct BufferConfig {
    pub indent_style: IndentStyle,
    pub indent_size: IndentSize,
    pub tab_width: u8,
    pub end_of_line: EndOfLine,
}

impl BufferConfig {
    /// The number of columns one indentation step takes.
    pub open spec fn spec_indent_columns(&self) -> int {
        match self.indent_size {
            IndentSize::Tab => self.tab_width as int,
            IndentSize::Size(n) => n as int,
        }
    }

    /// The settings used for a buffer; no path-specific settings are known, so every path
    /// gets the defaults: spaces, four columns, line feeds.
    pub fn config_for(path: Option<&String>) -> (c: BufferConfig)
        ensures
            c == Self::spec_default(),
    {
        Self::default()
    }

    pub open spec fn spec_default() -> BufferConfig {
        BufferConfig {
            indent_style: IndentStyle::Space,
            indent_size: IndentSize::Size(4),
            tab_width: 4,
            end_of_line: EndOfLine::Lf,
        }
    }

    /// Settings that indent with tab characters.
    pub fn config_tabs() -> (c: BufferConfig)
        ensures
            c.indent_style == IndentStyle::Tab,
            c.indent_size == IndentSize::Tab,
            c.tab_width == 4,
            c.end_of_line == EndOfLine::Lf,
    {
        BufferConfig {
            indent_style: IndentStyle::Tab,
            indent_size: IndentSize::Tab,
            tab_width: 4,
            end_of_line: EndOfLine::Lf,
        }
    }

    /// Settings that indent with `n` spaces.
    pub fn config_spaces(n: u8) -> (c: BufferConfig)
        ensures
            c.indent_style == IndentStyle::Space,
            c.indent_size == IndentSize::Size(n),
            c.tab_width == n,
            c.end_of_line == EndOfLine::Lf,
    {
        BufferConfig {
            indent_style: IndentStyle::Space,
            indent_size: IndentSize::Size(n),
            tab_width: n,
            end_of_line: EndOfLine::Lf,
        }
    }
}

impl Default for BufferConfig {
    fn default() -> (c: BufferConfig)
        ensures
            c == Self::spec_default(),
    {
        BufferConfig {
            indent_style: IndentStyle::Space,
            indent_size: IndentSize::Size(4),
            tab_width: 4,
            end_of_line: EndOfLine::Lf,
        }
    }
}

/// `n` spaces.
pub open spec fn spaces(n: nat) -> Seq<char> {
    Seq::new(n, |i: int| ' ')
}

impl BufferConfig {
    /// The text of one indentation step: a tab character, or as many spaces as it has
    /// columns.
    pub open spec fn spec_indent(&self) -> Seq<char> {
        match self.indent_style {
            IndentStyle::Tab => seq!['\t'],
            IndentStyle::Space => spaces(self.spec_indent_columns() as nat),
        }
    }

    /// The characters that end a line.
    pub open spec fn spec_line_sep(&self) -> Seq<char> {
        match self.end_of_line {
            EndOfLine::Lf => seq!['\n'],
            EndOfLine::CrLf => seq!['\r', '\n'],
            EndOfLine::Cr => seq!['\r'],
        }
    }

    /// The text of one indentation step.
    pub fn indent(&self) -> (s: String)
        ensures
            s@ == self.spec_indent(),
    {
        let mut s = String::new();
        match self.indent_style {
            IndentStyle::Tab => {
                string_push(&mut s, '\t');
                assert(s@ =~= seq!['\t']);
            },
            IndentStyle::Space => {
                let n: u8 = match self.indent_size {
                    IndentSize::Tab => self.tab_width,
                    IndentSize::Size(k) => k,
                };
                let mut i: u8 = 0;
                while i < n
                    invariant
                        i <= n,
                        n == self.spec_indent_columns(),
                        s@ =~= spaces(i as nat),
                    decreases n - i,
                {
                    string_push(&mut s, ' ');
                    i = i + 1;
                }
            },
        }
        s
    }

    /// The characters that end a line.
    pub fn line_sep(&self) -> (s: String)
        ensures
            s@ == self.spec_line_sep(),
    {
        let mut s = String::new();
        match self.end_of_line {
            EndOfLine::Lf => {
                string_push(&mut s, '\n');
                assert(s@ =~= seq!['\n']);
            },
            EndOfLine::CrLf => {
                string_push(&mut s, '\r');
                string_push(&mut s, '\n');
                assert(s@ =~= seq!['\r', '\n']);
            },
            EndOfLine::Cr => {
                string_push(&mut s, '\r');
                assert(s@ =~= seq!['\r']);
            },
        }
        s
    }
}

} // verus!
