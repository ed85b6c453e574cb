//! A panel that shows code samples, and the text preparation it needs.

use vstd::prelude::*;
use vstd::string::{StrSliceExecFns, StringExecFns};

verus! {

/// Space and tab indent a line.
pub open spec fn is_indent(c: char) -> bool {
    c == ' ' || c == '\t'
}

/// The number of indenting characters of `s` that follow each other from
/// `from` on.
pub open spec fn indent_len(s: Seq<char>, from: int) -> int
    decreases s.len() - from,
{
    if from < 0 || from >= s.len() || !is_indent(s[from]) {
        0
    } else {
        1 + indent_len(s, from + 1)
    }
}

/// The index behind the first line feed at or after `from`; the length of
/// `s` where there is none.
pub open spec fn line_end(s: Seq<char>, from: int) -> int
    decreases s.len() - from,
{
    if from < 0 || from >= s.len() {
        s.len() as int
    } else if s[from] == '\n' {
        from + 1
    } else {
        line_end(s, from + 1)
    }
}

/// The number of line feeds that `s` begins with.
pub open spec fn leading_newlines(s: Seq<char>, from: int) -> int
    decreases s.len() - from,
{
    if from < 0 || from >= s.len() || s[from] != '\n' {
        0
    } else {
        1 + leading_newlines(s, from + 1)
    }
}

/// The smaller of two numbers.
pub open spec fn min_int(a: int, b: int) -> int {
    if a <= b {
        a
    } else {
        b
    }
}

/// The text of `s` from `from` on, line by line, each line without its
/// first `first` indenting characters, or without all of its indent where
/// it has fewer. A line ends with its line feed, which is kept.
pub open spec fn strip_lines(s: Seq<char>, first: int, from: int) -> Seq<char>
    decreases s.len() - from,
{
    let end = line_end(s, from);
    if from < 0 || from >= s.len() || end <= from || end > s.len() {
        Seq::<char>::empty()
    } else {
        s.subrange(from + min_int(first, indent_len(s, from)), end) + strip_lines(s, first, end)
    }
}

/// `s` with the indent of its first line taken off every line, as far as
/// the line has it.
pub open spec fn spec_remove_leading_indentation(s: Seq<char>) -> Seq<char> {
    strip_lines(s, indent_len(s, 0), 0)
}

/// `s` without the line feeds it begins with, then without the leading
/// indentation.
pub open spec fn spec_show_code(s: Seq<char>) -> Seq<char> {
    spec_remove_leading_indentation(s.skip(leading_newlines(s, 0)))
}

/// The indent stops before the end of the line, and a line is not empty.
pub proof fn lemma_line_bounds(s: Seq<char>, from: int)
    requires
        0 <= from < s.len(),
    ensures
        from < line_end(s, from) <= s.len(),
        0 <= indent_len(s, from),
        from + indent_len(s, from) <= line_end(s, from),
        from + indent_len(s, from) < line_end(s, from) || line_end(s, from) == s.len(),
    decreases s.len() - from,
{
    if from + 1 < s.len() {
        lemma_line_bounds(s, from + 1);
    } else {
        assert(line_end(s, from + 1) == s.len());
        assert(indent_len(s, from + 1) == 0);
    }
}

/// The number of indenting characters from `from` on.
fn count_indent(code: &str, from: usize, len: usize) -> (r: usize)
    requires
        len == code@.len(),
        from <= len,
    ensures
        r as int == indent_len(code@, from as int),
        from + r <= len,
{
    let mut i: usize = from;
    while i < len && (code.get_char(i) == ' ' || code.get_char(i) == '\t')
        invariant
            from <= i <= len,
            len == code@.len(),
            indent_len(code@, from as int) == (i - from) + indent_len(code@, i as int),
        decreases len - i,
    {
        i += 1;
    }
    i - from
}

/// The index behind the first line feed at or after `from`.
fn find_line_end(code: &str, from: usize, len: usize) -> (r: usize)
    requires
        len == code@.len(),
        from <= len,
    ensures
        r as int == line_end(code@, from as int),
        from <= r <= len,
{
    let mut i: usize = from;
    while i < len && code.get_char(i) != '\n'
        invariant
            from <= i <= len,
            len == code@.len(),
            line_end(code@, from as int) == line_end(code@, i as int),
        decreases len - i,
    {
        i += 1;
    }
    if i < len {
        i + 1
    } else {
        i
    }
}

/// Takes the indent of the first line off every line of `code`. A line
/// with less indent than the first loses what it has.
pub fn remove_leading_indentation(code: &str) -> (out: String)
    ensures
        out@ == spec_remove_leading_indentation(code@),
{
    let len = code.unicode_len();
    let first_line_indent = count_indent(code, 0, len);
    let mut out = String::new();
    let mut pos: usize = 0;
    while pos < len
        invariant
            0 <= pos <= len,
            len == code@.len(),
            out@ + strip_lines(code@, first_line_indent as int, pos as int) == strip_lines(
                code@,
                first_line_indent as int,
                0,
            ),
        decreases len - pos,
    {
        proof {
            lemma_line_bounds(code@, pos as int);
        }
        let indent = count_indent(code, pos, len);
        let start = pos + if first_line_indent < indent {
            first_line_indent
        } else {
            indent
        };
        let end = find_line_end(code, pos, len);
        let ghost before = out@;
        out.append(code.substring_char(start, end));
        proof {
            let rest = strip_lines(code@, first_line_indent as int, end as int);
            assert(strip_lines(code@, first_line_indent as int, pos as int) == code@.subrange(
                start as int,
                end as int,
            ) + rest);
            assert(out@ + rest =~= before + (code@.subrange(start as int, end as int) + rest));
        }
        pos = end;
    }
    proof {
        assert(strip_lines(code@, first_line_indent as int, pos as int) =~= Seq::<char>::empty());
        assert(out@ + Seq::<char>::empty() =~= out@);
    }
    out
}

/// The text a code sample is shown as: without the line feeds it begins
/// with, and without the indent of its first line on every line.
pub fn show_code(code: &str) -> (out: String)
    ensures
        out@ == spec_show_code(code@),
{
    let len = code.unicode_len();
    let mut i: usize = 0;
    while i < len && code.get_char(i) == '\n'
        invariant
            0 <= i <= len,
            len == code@.len(),
            leading_newlines(code@, 0) == i + leading_newlines(code@, i as int),
        decreases len - i,
    {
        i += 1;
    }
    let trimmed = code.substring_char(i, len);
    proof {
        assert(code@.subrange(i as int, len as int) =~= code@.skip(i as int));
    }
    remove_leading_indentation(trimmed)
}

/// A sample with a small indent.
pub const SAVE_SAMPLE: &'static str = "\n  if ui.button(\"Save\").clicked() {\n      my_state.save();\n  }\n  ";

/// A sample with a deep indent, ending in an indented empty line.
pub const HORIZONTAL_SAMPLE: &'static str = "\n            // Putting things on the same line using ui.horizontal:\n            ui.horizontal(|ui| {\n                ui.label(\"Your name: \");\n                ui.text_edit_singleline(&mut self.name);\n            });\n            ";

/// The same sample, ending right behind its last line.
pub const HORIZONTAL_SAMPLE_OPEN_END: &'static str = "\n            // Putting things on the same line using ui.horizontal:\n            ui.horizontal(|ui| {\n                ui.label(\"Your name: \");\n                ui.text_edit_singleline(&mut self.name);\n            });";

/// The panel that shows the code samples.
#[derive(Debug, PartialEq, Eq, Structural)]
pub struct CodeViewer {}

impl CodeViewer {
    /// The title of the panel.
    pub fn name(&self) -> (r: &'static str)
        ensures
            r@ == "\u{1f5e0} Code Viewer"@,
    {
        "\u{1f5e0} Code Viewer"
    }

    /// The code samples the panel shows, each prepared for display.
    pub fn ui(&self) -> (shown: Vec<String>)
        ensures
            shown@.len() == 3,
            shown@[0]@ == spec_show_code(SAVE_SAMPLE@),
            shown@[1]@ == spec_show_code(HORIZONTAL_SAMPLE@),
            shown@[2]@ == spec_show_code(HORIZONTAL_SAMPLE_OPEN_END@),
    {
        let mut shown: Vec<String> = Vec::new();
        shown.push(show_code(SAVE_SAMPLE));
        shown.push(show_code(HORIZONTAL_SAMPLE));
        shown.push(show_code(HORIZONTAL_SAMPLE_OPEN_END));
        shown
    }
}

impl Default for CodeViewer {
    fn default() -> (r: CodeViewer) {
        CodeViewer {  }
    }
}

} // verus!
