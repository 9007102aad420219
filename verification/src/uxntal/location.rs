use vstd::prelude::*;
pub use super::source_map::FileId;
use crate::text::{chars_of, decimal_len, decimal_text, pad_left, push_char, push_chars, push_decimal, push_decimal_padded, push_repeated, push_str, source_lines, spaces, split_lines};

verus! {

/// A position in a source file: byte offset, and line and column counted from one.
#[derive(Debug, Copy, Clone, PartialEq, Eq, Structural)]
pub struct Location {
    pub file_id: FileId,
    pub offset: usize,
    pub line: usize,
    pub column: usize,
}

impl Default for Location {
    fn default() -> (location: Self)
        ensures
            location == (Location { file_id: FileId(0), offset: 0, line: 1, column: 1 }),
    {
        Location { file_id: FileId(0), offset: 0, line: 1, column: 1 }
    }
}

impl Location {
    pub fn new(file_id: FileId, offset: usize, line: usize, column: usize) -> (location: Self)
        ensures
            location == (Location { file_id, offset, line, column }),
    {
        Location { file_id, offset, line, column }
    }
}

/// `line:column`.
pub open spec fn location_text(location: Location) -> Seq<char> {
    decimal_text(location.line as nat) + seq![':'] + decimal_text(location.column as nat)
}

/// `path:line:column`.
pub open spec fn editor_link_text(location: Location, path: Seq<char>) -> Seq<char> {
    path + seq![':'] + location_text(location)
}

/// The text that places a caret under column `column` of `content`: a tab under each tab,
/// a space under every other character, and spaces past the end of the line.
pub open spec fn caret_indent(content: Seq<char>, column: nat) -> Seq<char> {
    let target: nat = if column >= 1 { (column - 1) as nat } else { 0 };
    let shown: nat = if target < content.len() { target } else { content.len() };
    Seq::new(shown, |i: int| if content[i] == '\t' { '\t' } else { ' ' }) + spaces((target - shown) as nat)
}

/// `" | "`, the separator between the line-number gutter and the text.
pub open spec fn gutter_separator() -> Seq<char> {
    seq![' ', '|', ' ']
}

/// The rows for line numbers `first` up to but excluding `upto`, joined by newlines; the row of
/// line `target` is followed by a caret row pointing at `column`.
pub open spec fn context_rows(
    lines: Seq<Seq<char>>,
    first: int,
    upto: int,
    target: int,
    column: nat,
    width: nat,
) -> Seq<char>
    decreases upto - first,
{
    if upto <= first {
        seq![]
    } else {
        let number = upto - 1;
        let before = context_rows(lines, first, number, target, column, width);
        let separator: Seq<char> = if number == first { seq![] } else { seq!['\n'] };
        let content = lines[number - 1];
        let row = pad_left(decimal_text(number as nat), width) + gutter_separator() + content;
        let caret: Seq<char> = if number == target {
            seq!['\n'] + spaces(width) + gutter_separator() + caret_indent(content, column) + seq!['^']
        } else {
            seq![]
        };
        before + separator + row + caret
    }
}

/// The line that a location's context is centred on: its line, kept within the source's lines.
pub open spec fn context_target(line: nat, line_count: nat) -> nat {
    let at_least_one: nat = if line >= 1 { line } else { 1 };
    if at_least_one < line_count { at_least_one } else { line_count }
}

/// The first line number shown: `count` lines before the target, but not before line one.
pub open spec fn context_first(target: nat, count: nat) -> nat {
    if target > count && target - count >= 1 { (target - count) as nat } else { 1 }
}

/// The last line number shown: `count` lines after the target, but not past the last line.
pub open spec fn context_last(target: nat, count: nat, line_count: nat) -> nat {
    if target + count < line_count { target + count } else { line_count }
}

/// The source context around line `line`: up to `count` lines either side, numbered in a
/// gutter at least two wide, with a caret under column `column`; empty for a source with no lines.
pub open spec fn context_text(source: Seq<char>, line: nat, column: nat, count: nat) -> Seq<char> {
    let lines = source_lines(source);
    if lines.len() == 0 {
        seq![]
    } else {
        let target = context_target(line, lines.len());
        let first = context_first(target, count);
        let last = context_last(target, count, lines.len());
        let digits = decimal_text(last).len();
        let width: nat = if digits > 2 { digits } else { 2 };
        context_rows(lines, first as int, (last + 1) as int, target as int, column, width)
    }
}

/// `link: error: message`, followed by the context on the next lines when there is any.
pub open spec fn error_text(link: Seq<char>, message: Seq<char>, context: Seq<char>) -> Seq<char> {
    let head = link + seq![':', ' ', 'e', 'r', 'r', 'o', 'r', ':', ' '] + message;
    if context.len() == 0 {
        head
    } else {
        head + seq!['\n'] + context
    }
}

/// Appends `link: error: message`.
pub fn push_error_head(out: &mut String, link: &str, message: &str)
    ensures
        final(out)@ == old(out)@ + link@ + seq![':', ' ', 'e', 'r', 'r', 'o', 'r', ':', ' '] + message@,
{
    push_str(out, link);
    push_char(out, ':');
    push_char(out, ' ');
    push_char(out, 'e');
    push_char(out, 'r');
    push_char(out, 'r');
    push_char(out, 'o');
    push_char(out, 'r');
    push_char(out, ':');
    push_char(out, ' ');
    push_str(out, message);
}

/// The text of `link: error: message` followed by `context` when it is not empty.
pub fn compose_error(link: &str, message: &str, context: &str) -> (text: String)
    ensures
        text@ == error_text(link@, message@, context@),
{
    let mut text = String::new();
    push_error_head(&mut text, link, message);
    if !context.is_empty() {
        push_char(&mut text, '\n');
        push_str(&mut text, context);
    }
    text
}

fn push_gutter_separator(out: &mut String)
    ensures
        final(out)@ == old(out)@ + gutter_separator(),
{
    push_char(out, ' ');
    push_char(out, '|');
    push_char(out, ' ');
}

/// Appends the caret indentation for `column` under `content`.
fn push_caret_indent(out: &mut String, content: &[char], column: usize)
    ensures
        final(out)@ == old(out)@ + caret_indent(content@, column as nat),
{
    let target: usize = if column >= 1 { column - 1 } else { 0 };
    let shown: usize = if target < content.len() { target } else { content.len() };
    let ghost start = out@;
    let mut index: usize = 0;
    while index < shown
        invariant
            index <= shown <= content@.len(),
            out@ == start + Seq::new(index as nat, |i: int| if content@[i] == '\t' { '\t' } else { ' ' }),
        decreases shown - index,
    {
        if content[index] == '\t' {
            push_char(out, '\t');
        } else {
            push_char(out, ' ');
        }
        index += 1;
        assert(Seq::new(index as nat, |i: int| if content@[i] == '\t' { '\t' } else { ' ' })
            =~= Seq::new((index - 1) as nat, |i: int| if content@[i] == '\t' { '\t' } else { ' ' }).push(
            if content@[index - 1] == '\t' { '\t' } else { ' ' }));
    }
    push_repeated(out, ' ', target - shown);
    assert(out@ =~= start + caret_indent(content@, column as nat));
}

impl Location {
    /// `line:column`.
    pub fn to_string(&self) -> (text: String)
        ensures
            text@ == location_text(*self),
    {
        let mut text = String::new();
        push_decimal(&mut text, self.line);
        push_char(&mut text, ':');
        push_decimal(&mut text, self.column);
        text
    }

    /// This location as an editor link: `file_path:line:column`.
    pub fn editor_link(&self, file_path: &str) -> (link: String)
        ensures
            link@ == editor_link_text(*self, file_path@),
    {
        let mut link = String::new();
        push_str(&mut link, file_path);
        push_char(&mut link, ':');
        let position = self.to_string();
        push_str(&mut link, position.as_str());
        link
    }

    /// The lines of `source` around this location, numbered, with a caret under the column.
    pub fn format_context(&self, source: &str, context_line_count: usize) -> (context: String)
        ensures
            context@ == context_text(source@, self.line as nat, self.column as nat, context_line_count as nat),
    {
        let chars = chars_of(source);
        let lines = split_lines(chars.as_slice());
        let line_count = lines.len();
        if line_count == 0 {
            return String::new();
        }
        let at_least_one: usize = if self.line >= 1 { self.line } else { 1 };
        let target: usize = if at_least_one < line_count { at_least_one } else { line_count };
        let first: usize = if target > context_line_count && target - context_line_count >= 1 {
            target - context_line_count
        } else {
            1
        };
        let reach = target.saturating_add(context_line_count);
        let last: usize = if reach < line_count { reach } else { line_count };
        let digits = decimal_len(last);
        let width: usize = if digits > 2 { digits } else { 2 };
        let ghost line_views = source_lines(source@);
        let ghost column = self.column as nat;
        let mut output = String::new();
        let mut number: usize = first;
        loop
            invariant_except_break
                output@ == context_rows(line_views, first as int, number as int, target as int, column, width as nat),
            invariant
                1 <= first <= number <= last <= line_count,
                first <= target <= last,
                column == self.column as nat,
                line_count == line_views.len(),
                forall|i: int| 0 <= i < lines@.len() ==> #[trigger] lines@[i]@ == line_views[i],
                lines@.len() == line_count,
            ensures
                output@ == context_rows(line_views, first as int, last + 1, target as int, column, width as nat),
            decreases last - number,
        {
            let ghost before = output@;
            let content = &lines[number - 1];
            assert(content@ == line_views[number - 1]);
            if number != first {
                push_char(&mut output, '\n');
            }
            push_decimal_padded(&mut output, number, width);
            push_gutter_separator(&mut output);
            push_chars(&mut output, content.as_slice());
            let ghost row_end = output@;
            if number == target {
                push_char(&mut output, '\n');
                let ghost s1 = output@;
                push_repeated(&mut output, ' ', width);
                let ghost s2 = output@;
                assert(Seq::new(width as nat, |i: int| ' ') =~= spaces(width as nat));
                assert(s2 == s1 + spaces(width as nat));
                push_gutter_separator(&mut output);
                let ghost s3 = output@;
                let slice = content.as_slice();
                assert(slice@ == line_views[number - 1]);
                push_caret_indent(&mut output, slice, self.column);
                let ghost s4 = output@;
                assert(s4 == s3 + caret_indent(line_views[number - 1], column));
                push_char(&mut output, '^');
                assert(output@ =~= row_end + (seq!['\n'] + spaces(width as nat) + gutter_separator()
                    + caret_indent(line_views[number - 1], column) + seq!['^']));
            }
            proof {
                let separator: Seq<char> = if number == first { seq![] } else { seq!['\n'] };
                let row = pad_left(decimal_text(number as nat), width as nat) + gutter_separator() + line_views[number - 1];
                assert(row_end =~= before + separator + row);
                let caret: Seq<char> = if number == target {
                    seq!['\n'] + spaces(width as nat) + gutter_separator() + caret_indent(line_views[number - 1], column) + seq!['^']
                } else {
                    seq![]
                };
                assert(Seq::new(width as nat, |i: int| ' ') =~= spaces(width as nat));
                assert(output@ =~= before + separator + row + caret);
                assert(context_rows(line_views, first as int, number + 1, target as int, column, width as nat)
                    == before + separator + row + caret);
            }
            if number == last {
                break;
            }
            number += 1;
        }
        output
    }

    /// A full error report: the editor link, the message, and two lines of context either side.
    pub fn format_error(&self, file_path: &str, source: &str, error_message: &str) -> (report: String)
        ensures
            report@ == error_text(
                editor_link_text(*self, file_path@),
                error_message@,
                context_text(source@, self.line as nat, self.column as nat, 2),
            ),
    {
        let link = self.editor_link(file_path);
        let context = self.format_context(source, 2);
        compose_error(link.as_str(), error_message, context.as_str())
    }
}

} // verus!
