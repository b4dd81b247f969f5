//! The preview of a document as styled terminal lines, the scroll offsets of
//! its blocks, and the small coordinate computations of the panes. The lines
//! carry their own style type; the terminal front end draws them.

use vstd::prelude::*;

use crate::app::{Focus, Overlay};
use crate::markdown::{Block, Document, HeadingLevel, Inline, ListItem, TableAlignment};
use crate::text::{decimal, decimal_string, push_char, push_str};
use crate::workspace::{files_in, node_files, FileTreeNode};

use unicode_width::UnicodeWidthStr;

verus! {

// ---------------------------------------------------------------------------
// Styled lines

/// The colors the preview uses.
#[derive(Clone, Copy, Debug, PartialEq, Eq, Structural)]
pub enum Color {
    DarkGray,
    Gray,
    Yellow,
    Magenta,
    Cyan,
    Green,
    Blue,
}

/// A foreground color and text modifiers.
#[derive(Clone, Copy, Debug, PartialEq, Eq, Structural)]
pub struct SpanStyle {
    pub fg: Option<Color>,
    pub bold: bool,
    pub italic: bool,
    pub underlined: bool,
    pub crossed_out: bool,
    pub reversed: bool,
}

/// A run of text in one style.
#[derive(Debug, PartialEq, Eq)]
pub struct StyledSpan {
    pub content: String,
    pub style: SpanStyle,
}

/// One terminal line of the preview.
#[derive(Debug, PartialEq, Eq)]
pub struct StyledLine {
    pub spans: Vec<StyledSpan>,
}

pub struct SpanView {
    pub content: Seq<char>,
    pub style: SpanStyle,
}

impl View for StyledSpan {
    type V = SpanView;

    open spec fn view(&self) -> SpanView {
        SpanView { content: self.content@, style: self.style }
    }
}

impl View for StyledLine {
    type V = Seq<SpanView>;

    open spec fn view(&self) -> Seq<SpanView> {
        self.spans@.map_values(|s: StyledSpan| s@)
    }
}

pub open spec fn span_views(spans: Seq<StyledSpan>) -> Seq<SpanView> {
    spans.map_values(|s: StyledSpan| s@)
}

pub open spec fn line_views(lines: Seq<StyledLine>) -> Seq<Seq<SpanView>> {
    lines.map_values(|l: StyledLine| l@)
}

pub open spec fn span(content: Seq<char>, style: SpanStyle) -> SpanView {
    SpanView { content, style }
}

/// No color and no modifiers.
pub open spec fn plain() -> SpanStyle {
    SpanStyle {
        fg: None,
        bold: false,
        italic: false,
        underlined: false,
        crossed_out: false,
        reversed: false,
    }
}

pub open spec fn colored(style: SpanStyle, color: Color) -> SpanStyle {
    SpanStyle { fg: Some(color), ..style }
}

/// Markup such as HTML, rules and borders.
pub open spec fn dim() -> SpanStyle {
    colored(plain(), Color::DarkGray)
}

pub open spec fn link_style(style: SpanStyle) -> SpanStyle {
    SpanStyle { fg: Some(Color::Blue), underlined: true, ..style }
}

pub open spec fn repeat_char(c: char, n: nat) -> Seq<char> {
    Seq::new(n, |i: int| c)
}

pub fn plain_style() -> (style: SpanStyle)
    ensures
        style == plain(),
{
    SpanStyle {
        fg: None,
        bold: false,
        italic: false,
        underlined: false,
        crossed_out: false,
        reversed: false,
    }
}

fn dim_style() -> (style: SpanStyle)
    ensures
        style == dim(),
{
    SpanStyle { fg: Some(Color::DarkGray), ..plain_style() }
}

fn styled(content: String, style: SpanStyle) -> (s: StyledSpan)
    ensures
        s@ == span(content@, style),
{
    StyledSpan { content, style }
}

fn string_of(text: &str) -> (s: String)
    ensures
        s@ == text@,
{
    let mut s = String::new();
    push_str(&mut s, text);
    s
}

fn repeated(c: char, n: usize) -> (s: String)
    ensures
        s@ == repeat_char(c, n as nat),
{
    let mut s = String::new();
    let mut i: usize = 0;
    while i < n
        invariant
            i <= n,
            s@ == repeat_char(c, i as nat),
        decreases n - i,
    {
        push_char(&mut s, c);
        i = i + 1;
        assert(s@ =~= repeat_char(c, i as nat));
    }
    s
}

// ---------------------------------------------------------------------------
// Display width

/// The number of terminal columns that `unicode-width` gives for a string
/// with these characters.
pub uninterp spec fn display_width(s: Seq<char>) -> usize;

/// `UnicodeWidthStr::width` of unicode-width. The contract names the result;
/// the East Asian Width tables stay unstated.
#[verifier::external_body]
fn str_width(s: &str) -> (width: usize)
    ensures
        width == display_width(s@),
{
    s.width()
}

pub open spec fn sat_add(a: usize, b: usize) -> usize {
    if a + b <= usize::MAX { (a + b) as usize } else { usize::MAX }
}

pub open spec fn sat_sub(a: usize, b: usize) -> usize {
    if a >= b { (a - b) as usize } else { 0 }
}

pub open spec fn max_usize(a: usize, b: usize) -> usize {
    if a >= b { a } else { b }
}

// ---------------------------------------------------------------------------
// Inline content

/// The spans an inline is drawn with, starting from `style`.
pub open spec fn inline_spans(inline: Inline, style: SpanStyle) -> Seq<SpanView>
    decreases inline,
{
    match inline {
        Inline::Text(v) => seq![span(v@, style)],
        Inline::SoftBreak => seq![span(seq![' '], style)],
        Inline::HardBreak => seq![],
        Inline::Html(v) => seq![span(v@, dim())],
        Inline::Code(v) => seq![span(v@, SpanStyle { bold: true, ..colored(style, Color::Yellow) })],
        Inline::Emphasis(c) => inlines_spans(c@, SpanStyle { italic: true, ..style }),
        Inline::Strong(c) => inlines_spans(c@, SpanStyle { bold: true, ..style }),
        Inline::Strikethrough(c) => inlines_spans(c@, SpanStyle { crossed_out: true, ..style }),
        Inline::Link { content, .. } => inlines_spans(content@, link_style(style)),
        Inline::Autolink(d) => seq![span(d@, link_style(style))],
        Inline::Image { alt, .. } => seq![span("[image: "@, dim())] + inlines_spans(alt@, style)
            + seq![span(seq![']'], dim())],
    }
}

pub open spec fn inlines_spans(inlines: Seq<Inline>, style: SpanStyle) -> Seq<SpanView>
    decreases inlines,
{
    if inlines.len() == 0 {
        seq![]
    } else {
        inlines_spans(inlines.drop_last(), style) + inline_spans(inlines.last(), style)
    }
}

/// Inline content as lines: hard breaks start a new line.
pub open spec fn inline_lines(inlines: Seq<Inline>, style: SpanStyle) -> Seq<Seq<SpanView>>
    decreases inlines.len(),
{
    if inlines.len() == 0 {
        seq![seq![]]
    } else {
        let lines = inline_lines(inlines.drop_last(), style);
        if inlines.last() is HardBreak {
            lines.push(seq![])
        } else {
            lines.update(lines.len() - 1, lines.last() + inline_spans(inlines.last(), style))
        }
    }
}

pub proof fn lemma_inline_lines_nonempty(inlines: Seq<Inline>, style: SpanStyle)
    ensures
        inline_lines(inlines, style).len() >= 1,
    decreases inlines.len(),
{
    if inlines.len() > 0 {
        lemma_inline_lines_nonempty(inlines.drop_last(), style);
    }
}

/// The text of inline content as the preview shows it: images as
/// `[image: alt]` and hard breaks as line breaks.
pub open spec fn shown_inline_text(inline: Inline) -> Seq<char>
    decreases inline,
{
    match inline {
        Inline::Text(v) => v@,
        Inline::Autolink(v) => v@,
        Inline::Code(v) => v@,
        Inline::Html(v) => v@,
        Inline::Link { content, .. } => shown_text(content@),
        Inline::Emphasis(c) => shown_text(c@),
        Inline::Strong(c) => shown_text(c@),
        Inline::Strikethrough(c) => shown_text(c@),
        Inline::Image { alt, .. } => "[image: "@ + shown_text(alt@) + seq![']'],
        Inline::SoftBreak => seq![' '],
        Inline::HardBreak => seq!['\n'],
    }
}

pub open spec fn shown_text(inlines: Seq<Inline>) -> Seq<char>
    decreases inlines,
{
    if inlines.len() == 0 {
        seq![]
    } else {
        shown_text(inlines.drop_last()) + shown_inline_text(inlines.last())
    }
}

fn push_inlines_spans(inlines: &Vec<Inline>, style: SpanStyle, out: &mut Vec<StyledSpan>)
    ensures
        span_views(final(out)@) == span_views(old(out)@) + inlines_spans(inlines@, style),
    decreases inlines@,
{
    let mut i: usize = 0;
    while i < inlines.len()
        invariant
            i <= inlines.len(),
            span_views(out@) == span_views(old(out)@) + inlines_spans(
                inlines@.take(i as int),
                style,
            ),
        decreases inlines.len() - i,
    {
        assert(inlines@.take(i + 1).drop_last() =~= inlines@.take(i as int));
        assert(inlines@.take(i + 1).last() == inlines@[i as int]);
        let ghost before = span_views(out@);
        push_inline_spans_at(inlines, i, style, out);
        i = i + 1;
        assert(span_views(out@) =~= span_views(old(out)@) + inlines_spans(
            inlines@.take(i as int),
            style,
        ));
    }
    assert(inlines@.take(i as int) =~= inlines@);
}

fn push_inline_spans_at(
    inlines: &Vec<Inline>,
    index: usize,
    style: SpanStyle,
    out: &mut Vec<StyledSpan>,
)
    requires
        index < inlines.len(),
    ensures
        span_views(final(out)@) == span_views(old(out)@) + inline_spans(inlines@[index as int], style),
    decreases inlines@, 0nat,
{
    let ghost before = span_views(out@);
    match &inlines[index] {
        Inline::Text(v) => push_span(out, styled(crate::markdown::copy_string(v), style)),
        Inline::SoftBreak => push_span(
            out,
            styled(crate::markdown::single_char_string(' '), style),
        ),
        Inline::HardBreak => {},
        Inline::Html(v) => push_span(out, styled(crate::markdown::copy_string(v), dim_style())),
        Inline::Code(v) => push_span(
            out,
            styled(
                crate::markdown::copy_string(v),
                SpanStyle { bold: true, ..SpanStyle { fg: Some(Color::Yellow), ..style } },
            ),
        ),
        Inline::Emphasis(c) => push_inlines_spans(c, SpanStyle { italic: true, ..style }, out),
        Inline::Strong(c) => push_inlines_spans(c, SpanStyle { bold: true, ..style }, out),
        Inline::Strikethrough(c) => push_inlines_spans(
            c,
            SpanStyle { crossed_out: true, ..style },
            out,
        ),
        Inline::Link { content, .. } => push_inlines_spans(
            content,
            SpanStyle { fg: Some(Color::Blue), underlined: true, ..style },
            out,
        ),
        Inline::Autolink(d) => push_span(
            out,
            styled(
                crate::markdown::copy_string(d),
                SpanStyle { fg: Some(Color::Blue), underlined: true, ..style },
            ),
        ),
        Inline::Image { alt, .. } => {
            push_span(out, styled(string_of("[image: "), dim_style()));
            push_inlines_spans(alt, style, out);
            push_span(out, styled(crate::markdown::single_char_string(']'), dim_style()));
        },
    }
    assert(span_views(out@) =~= before + inline_spans(inlines@[index as int], style));
}

fn push_span(out: &mut Vec<StyledSpan>, s: StyledSpan)
    ensures
        span_views(final(out)@) == span_views(old(out)@) + seq![s@],
{
    out.push(s);
    assert(span_views(out@) =~= span_views(old(out)@) + seq![s@]);
}

fn empty_line() -> (line: StyledLine)
    ensures
        line@ == Seq::<SpanView>::empty(),
{
    let line = StyledLine { spans: Vec::new() };
    assert(line@ =~= Seq::<SpanView>::empty());
    line
}

/// Inline content as styled lines; see [`inline_lines`].
fn inline_lines_exec(inlines: &Vec<Inline>, style: SpanStyle) -> (lines: Vec<StyledLine>)
    ensures
        line_views(lines@) == inline_lines(inlines@, style),
{
    let mut lines: Vec<StyledLine> = Vec::new();
    lines.push(empty_line());
    assert(line_views(lines@) =~= inline_lines(inlines@.take(0), style));
    let mut i: usize = 0;
    while i < inlines.len()
        invariant
            i <= inlines.len(),
            lines.len() >= 1,
            line_views(lines@) == inline_lines(inlines@.take(i as int), style),
        decreases inlines.len() - i,
    {
        assert(inlines@.take(i + 1).drop_last() =~= inlines@.take(i as int));
        assert(inlines@.take(i + 1).last() == inlines@[i as int]);
        let ghost before = line_views(lines@);
        if let Inline::HardBreak = &inlines[i] {
            lines.push(empty_line());
            assert(line_views(lines@) =~= before.push(seq![]));
        } else {
            let mut last = lines.pop().unwrap();
            let ghost last_before = last@;
            push_inline_spans_at(inlines, i, style, &mut last.spans);
            lines.push(last);
            assert(line_views(lines@) =~= before.update(
                before.len() - 1,
                before.last() + inline_spans(inlines@[i as int], style),
            ));
        }
        i = i + 1;
    }
    assert(inlines@.take(i as int) =~= inlines@);
    lines
}

/// The text of inline content as the preview shows it; see [`shown_text`].
fn shown_plain_text(inlines: &Vec<Inline>) -> (text: String)
    ensures
        text@ == shown_text(inlines@),
    decreases inlines@,
{
    let mut text = String::new();
    let mut i: usize = 0;
    while i < inlines.len()
        invariant
            i <= inlines.len(),
            text@ == shown_text(inlines@.take(i as int)),
        decreases inlines.len() - i,
    {
        assert(inlines@.take(i + 1).drop_last() =~= inlines@.take(i as int));
        assert(inlines@.take(i + 1).last() == inlines@[i as int]);
        let piece: String = match &inlines[i] {
            Inline::Text(v) => crate::markdown::copy_string(v),
            Inline::Autolink(v) => crate::markdown::copy_string(v),
            Inline::Code(v) => crate::markdown::copy_string(v),
            Inline::Html(v) => crate::markdown::copy_string(v),
            Inline::Link { content, .. } => shown_plain_text(content),
            Inline::Emphasis(c) => shown_plain_text(c),
            Inline::Strong(c) => shown_plain_text(c),
            Inline::Strikethrough(c) => shown_plain_text(c),
            Inline::Image { alt, .. } => {
                let mut piece = string_of("[image: ");
                let inner = shown_plain_text(alt);
                push_str(&mut piece, &inner);
                push_char(&mut piece, ']');
                piece
            },
            Inline::SoftBreak => crate::markdown::single_char_string(' '),
            Inline::HardBreak => crate::markdown::single_char_string('\n'),
        };
        assert(piece@ == shown_inline_text(inlines@[i as int]));
        push_str(&mut text, &piece);
        i = i + 1;
    }
    assert(inlines@.take(i as int) =~= inlines@);
    text
}


// ---------------------------------------------------------------------------
// Blocks

pub open spec fn heading_color(level: HeadingLevel) -> Color {
    match level {
        HeadingLevel::One => Color::Magenta,
        HeadingLevel::Two => Color::Cyan,
        HeadingLevel::Three => Color::Green,
        HeadingLevel::Four => Color::Yellow,
        HeadingLevel::Five => Color::Blue,
        HeadingLevel::Six => Color::Gray,
    }
}

/// A heading: bold in its level's color; level one between double rules,
/// level two over a rule, levels four to six after a `▸` marker.
pub open spec fn heading_lines(level: HeadingLevel, content: Seq<Inline>) -> Seq<Seq<SpanView>> {
    let color = heading_color(level);
    let title = inline_lines(content, SpanStyle { bold: true, ..colored(plain(), color) });
    let width = display_width(shown_text(content));
    match level {
        HeadingLevel::One => {
            let rule = seq![span(repeat_char('═', max_usize(width, 20) as nat), colored(plain(), color))];
            seq![rule] + title + seq![rule]
        },
        HeadingLevel::Two => title.push(
            seq![span(repeat_char('─', max_usize(width, 16) as nat), colored(plain(), color))],
        ),
        HeadingLevel::Three => title,
        _ => title.update(0, seq![span("▸ "@, colored(plain(), color))] + title[0]),
    }
}

/// A line without the carriage return that ended it before its newline.
pub open spec fn strip_carriage_return(line: Seq<char>) -> Seq<char> {
    if line.len() > 0 && line.last() == '\r' {
        line.drop_last()
    } else {
        line
    }
}

/// The lines ended by a newline so far, and the text after the last newline.
pub open spec fn line_split(text: Seq<char>) -> (Seq<Seq<char>>, Seq<char>)
    decreases text.len(),
{
    if text.len() == 0 {
        (seq![], seq![])
    } else {
        let (done, current) = line_split(text.drop_last());
        if text.last() == '\n' {
            (done.push(strip_carriage_return(current)), seq![])
        } else {
            (done, current.push(text.last()))
        }
    }
}

/// The lines of a text as `str::lines` gives them: split at `\n` (and
/// `\r\n`), with no empty line after a final newline.
pub open spec fn text_lines(text: Seq<char>) -> Seq<Seq<char>> {
    let (done, current) = line_split(text);
    if current.len() > 0 {
        done.push(current)
    } else {
        done
    }
}

pub open spec fn code_lines(language: Option<Seq<char>>, content: Seq<char>) -> Seq<Seq<SpanView>> {
    let body = Seq::new(
        text_lines(content).len(),
        |i: int| seq![span(text_lines(content)[i], colored(plain(), Color::Yellow))],
    );
    match language {
        Some(l) => seq![seq![span(l, dim())]] + body,
        None => body,
    }
}

/// The marker of list item `index`: a checkbox for tasks, a number for
/// ordered lists, a bullet otherwise.
pub open spec fn list_prefix(start: Option<u64>, task: Option<bool>, index: nat) -> Seq<char> {
    match task {
        Some(true) => "[x] "@,
        Some(false) => "[ ] "@,
        None => match start {
            Some(s) => decimal((s + index) as nat) + ". "@,
            None => "• "@,
        },
    }
}

/// Lines with a span of `first` before the first one and of `rest` before
/// the others.
pub open spec fn with_lead(
    lines: Seq<Seq<SpanView>>,
    first: Seq<char>,
    rest: Seq<char>,
    style: SpanStyle,
) -> Seq<Seq<SpanView>> {
    Seq::new(
        lines.len(),
        |i: int| seq![span(if i == 0 { first } else { rest }, style)] + lines[i],
    )
}

/// Lines with `first` before the first one and `rest` before the others.
pub open spec fn prefixed(lines: Seq<Seq<SpanView>>, first: Seq<char>, rest: Seq<char>) -> Seq<Seq<SpanView>> {
    with_lead(lines, first, rest, plain())
}

/// Lines behind a quote bar.
pub open spec fn quoted(lines: Seq<Seq<SpanView>>) -> Seq<Seq<SpanView>> {
    with_lead(lines, "│ "@, "│ "@, dim())
}

pub open spec fn block_lines(block: Block) -> Seq<Seq<SpanView>>
    decreases block,
{
    match block {
        Block::Heading { level, content } => heading_lines(level, content@),
        Block::Paragraph(content) => inline_lines(content@, plain()),
        Block::CodeBlock { language, content } => code_lines(
            match language {
                Some(l) => Some(l@),
                None => None,
            },
            content@,
        ),
        Block::List { start, items } => list_lines(items@, start),
        Block::BlockQuote(blocks) => quoted(blocks_lines(blocks@)),
        Block::Table { header, rows, alignments } => table_lines(header@, rows@, alignments@),
        Block::ThematicBreak => seq![seq![span(repeat_char('─', 20), dim())]],
        Block::Html(html) => seq![seq![span(html@, dim())]],
    }
}

/// The lines of blocks one after another.
pub open spec fn blocks_lines(blocks: Seq<Block>) -> Seq<Seq<SpanView>>
    decreases blocks,
{
    if blocks.len() == 0 {
        seq![]
    } else {
        blocks_lines(blocks.drop_last()) + block_lines(blocks.last())
    }
}

/// The lines of list items, each item's blocks behind its marker.
pub open spec fn list_lines(items: Seq<ListItem>, start: Option<u64>) -> Seq<Seq<SpanView>>
    decreases items,
{
    if items.len() == 0 {
        seq![]
    } else {
        let prefix = list_prefix(start, items.last().task, (items.len() - 1) as nat);
        list_lines(items.drop_last(), start) + prefixed(
            blocks_lines(items.last().blocks@),
            prefix,
            repeat_char(' ', display_width(prefix) as nat),
        )
    }
}

// ---------------------------------------------------------------------------
// Tables

pub open spec fn max_row_len(rows: Seq<Vec<Vec<Inline>>>) -> nat
    decreases rows.len(),
{
    if rows.len() == 0 {
        0
    } else {
        let earlier = max_row_len(rows.drop_last());
        if rows.last()@.len() > earlier { rows.last()@.len() } else { earlier }
    }
}

/// The number of columns: the longest of the header and the rows.
pub open spec fn column_count(header: Seq<Vec<Inline>>, rows: Seq<Vec<Vec<Inline>>>) -> nat {
    if header.len() >= max_row_len(rows) { header.len() } else { max_row_len(rows) }
}

pub open spec fn cell_width(row: Seq<Vec<Inline>>, column: int) -> usize {
    if 0 <= column < row.len() {
        display_width(shown_text(row[column]@))
    } else {
        0
    }
}

pub open spec fn rows_column_width(rows: Seq<Vec<Vec<Inline>>>, column: int) -> usize
    decreases rows.len(),
{
    if rows.len() == 0 {
        0
    } else {
        max_usize(rows_column_width(rows.drop_last(), column), cell_width(rows.last()@, column))
    }
}

/// The widest cell of a column, header included.
pub open spec fn column_width(header: Seq<Vec<Inline>>, rows: Seq<Vec<Vec<Inline>>>, column: int) -> usize {
    max_usize(cell_width(header, column), rows_column_width(rows, column))
}

pub open spec fn column_widths(header: Seq<Vec<Inline>>, rows: Seq<Vec<Vec<Inline>>>) -> Seq<usize> {
    Seq::new(column_count(header, rows), |c: int| column_width(header, rows, c))
}

/// The horizontal rules of the columns, joined by `divider`.
pub open spec fn border_middle(widths: Seq<usize>, divider: char) -> Seq<char>
    decreases widths.len(),
{
    if widths.len() == 0 {
        seq![]
    } else if widths.len() == 1 {
        repeat_char('─', sat_add(widths[0], 2) as nat)
    } else {
        border_middle(widths.drop_last(), divider) + seq![divider] + repeat_char(
            '─',
            sat_add(widths.last(), 2) as nat,
        )
    }
}

pub open spec fn border_line(left: char, divider: char, right: char, widths: Seq<usize>) -> Seq<SpanView> {
    seq![span(seq![left] + border_middle(widths, divider) + seq![right], dim())]
}

pub open spec fn column_alignment(alignments: Seq<TableAlignment>, column: int) -> TableAlignment {
    if 0 <= column < alignments.len() {
        alignments[column]
    } else {
        TableAlignment::Unaligned
    }
}

/// The padding left and right of a cell's text.
pub open spec fn cell_padding(alignment: TableAlignment, padding: usize) -> (usize, usize) {
    match alignment {
        TableAlignment::Right => (padding, 0),
        TableAlignment::Center => ((padding / 2) as usize, (padding - padding / 2) as usize),
        _ => (0, padding),
    }
}

pub open spec fn cell_text(row: Seq<Vec<Inline>>, column: int) -> Seq<char> {
    if 0 <= column < row.len() {
        shown_text(row[column]@)
    } else {
        seq![]
    }
}

/// The spans of one cell and the bar after it.
pub open spec fn cell_spans(
    row: Seq<Vec<Inline>>,
    widths: Seq<usize>,
    alignments: Seq<TableAlignment>,
    style: SpanStyle,
    column: int,
) -> Seq<SpanView> {
    let text = cell_text(row, column);
    let padding = sat_sub(widths[column], display_width(text));
    let (left, right) = cell_padding(column_alignment(alignments, column), padding);
    seq![
        span(repeat_char(' ', sat_add(left, 1) as nat), plain()),
        span(text, style),
        span(repeat_char(' ', sat_add(right, 1) as nat), plain()),
        span("│"@, dim()),
    ]
}

pub open spec fn row_cells_spans(
    row: Seq<Vec<Inline>>,
    widths: Seq<usize>,
    alignments: Seq<TableAlignment>,
    style: SpanStyle,
    count: nat,
) -> Seq<SpanView>
    decreases count,
{
    if count == 0 {
        seq![]
    } else {
        row_cells_spans(row, widths, alignments, style, (count - 1) as nat) + cell_spans(
            row,
            widths,
            alignments,
            style,
            count - 1,
        )
    }
}

pub open spec fn table_row(
    row: Seq<Vec<Inline>>,
    widths: Seq<usize>,
    alignments: Seq<TableAlignment>,
    is_header: bool,
) -> Seq<SpanView> {
    let style = if is_header { SpanStyle { bold: true, ..plain() } } else { plain() };
    seq![span("│"@, dim())] + row_cells_spans(row, widths, alignments, style, widths.len())
}

/// A table between box-drawing borders, every column as wide as its widest
/// cell, the header bold.
pub open spec fn table_lines(
    header: Seq<Vec<Inline>>,
    rows: Seq<Vec<Vec<Inline>>>,
    alignments: Seq<TableAlignment>,
) -> Seq<Seq<SpanView>> {
    let widths = column_widths(header, rows);
    if widths.len() == 0 {
        seq![]
    } else {
        seq![
            border_line('┌', '┬', '┐', widths),
            table_row(header, widths, alignments, true),
            border_line('├', '┼', '┤', widths),
        ] + Seq::new(rows.len(), |i: int| table_row(rows[i]@, widths, alignments, false))
            + seq![border_line('└', '┴', '┘', widths)]
    }
}

proof fn lemma_row_cells_spans_index(
    row: Seq<Vec<Inline>>,
    widths: Seq<usize>,
    alignments: Seq<TableAlignment>,
    style: SpanStyle,
    count: nat,
)
    ensures
        row_cells_spans(row, widths, alignments, style, count).len() == 4 * count,
        forall|c: int, k: int|
            0 <= c < count && 0 <= k < 4 ==> #[trigger] row_cells_spans(row, widths, alignments, style, count)[4
                * c + k] == cell_spans(row, widths, alignments, style, c)[k],
    decreases count,
{
    if count > 0 {
        let n = (count - 1) as nat;
        lemma_row_cells_spans_index(row, widths, alignments, style, n);
        let all = row_cells_spans(row, widths, alignments, style, count);
        let earlier = row_cells_spans(row, widths, alignments, style, n);
        assert forall|c: int, k: int| 0 <= c < count && 0 <= k < 4 implies #[trigger] all[4 * c + k] == cell_spans(
            row,
            widths,
            alignments,
            style,
            c,
        )[k] by {
            if c < n {
                assert(all[4 * c + k] == earlier[4 * c + k]);
            } else {
                assert(all[4 * c + k] == cell_spans(row, widths, alignments, style, n as int)[k]);
            }
        }
    }
}

/// A table row fills each column to its width: between the bars, the cell's
/// text stands with at least one space on either side, the spaces and the
/// text together as wide as the column and two more. A right-aligned cell
/// ends one space before the next bar, a left-aligned or unaligned one
/// starts one space after the previous bar, and a centred one has the extra
/// space split evenly, any odd one on the right.
pub proof fn law_table_cells_fill_their_columns(
    row: Seq<Vec<Inline>>,
    widths: Seq<usize>,
    alignments: Seq<TableAlignment>,
    is_header: bool,
    c: int,
)
    requires
        0 <= c < widths.len(),
        display_width(cell_text(row, c)) <= widths[c] < usize::MAX,
    ensures
        ({
            let line = table_row(row, widths, alignments, is_header);
            let text = cell_text(row, c);
            let left = line[4 * c + 1].content;
            let right = line[4 * c + 3].content;
            &&& line.len() == 1 + 4 * widths.len()
            &&& line[0].content == "│"@
            &&& line[4 * c + 2].content == text
            &&& line[4 * c + 4].content == "│"@
            &&& left == repeat_char(' ', left.len())
            &&& right == repeat_char(' ', right.len())
            &&& left.len() >= 1 && right.len() >= 1
            &&& left.len() + display_width(text) + right.len() == widths[c] + 2
            &&& column_alignment(alignments, c) == TableAlignment::Right ==> right.len() == 1
            &&& column_alignment(alignments, c) == TableAlignment::Center ==> left.len() <= right.len()
                <= left.len() + 1
            &&& (column_alignment(alignments, c) == TableAlignment::Left || column_alignment(alignments, c)
                == TableAlignment::Unaligned) ==> left.len() == 1
        }),
{
    let style = if is_header { SpanStyle { bold: true, ..plain() } } else { plain() };
    lemma_row_cells_spans_index(row, widths, alignments, style, widths.len());
    let cells = row_cells_spans(row, widths, alignments, style, widths.len());
    let line = table_row(row, widths, alignments, is_header);
    assert(line == seq![span("│"@, dim())] + cells);
    assert(line[4 * c + 1] == cells[4 * c + 0]);
    assert(line[4 * c + 2] == cells[4 * c + 1]);
    assert(line[4 * c + 3] == cells[4 * c + 2]);
    assert(line[4 * c + 4] == cells[4 * c + 3]);
}

// ---------------------------------------------------------------------------
// The preview

/// The preview of blocks: their lines, with a blank line between blocks.
pub open spec fn preview(blocks: Seq<Block>) -> Seq<Seq<SpanView>>
    decreases blocks.len(),
{
    if blocks.len() == 0 {
        seq![]
    } else if blocks.len() == 1 {
        block_lines(blocks[0])
    } else {
        preview(blocks.drop_last()) + seq![seq![]] + block_lines(blocks.last())
    }
}

/// The number of preview lines taken by `blocks` and the blank line after each.
pub open spec fn lines_before(blocks: Seq<Block>) -> nat
    decreases blocks.len(),
{
    if blocks.len() == 0 {
        0
    } else {
        lines_before(blocks.drop_last()) + block_lines(blocks.last()).len() + 1
    }
}

/// The scroll offset that shows block `index` at the top (capped at the
/// largest offset).
pub open spec fn scroll_for_block(blocks: Seq<Block>, index: nat) -> usize {
    let k = if index <= blocks.len() { index as int } else { blocks.len() as int };
    let n = lines_before(blocks.take(k));
    if n <= usize::MAX { n as usize } else { usize::MAX }
}


// ---------------------------------------------------------------------------
// Building the lines

fn heading_color_of(level: HeadingLevel) -> (color: Color)
    ensures
        color == heading_color(level),
{
    match level {
        HeadingLevel::One => Color::Magenta,
        HeadingLevel::Two => Color::Cyan,
        HeadingLevel::Three => Color::Green,
        HeadingLevel::Four => Color::Yellow,
        HeadingLevel::Five => Color::Blue,
        HeadingLevel::Six => Color::Gray,
    }
}

fn single_span_line(s: StyledSpan) -> (line: StyledLine)
    ensures
        line@ == seq![s@],
{
    let mut spans: Vec<StyledSpan> = Vec::new();
    spans.push(s);
    let line = StyledLine { spans };
    assert(line@ =~= seq![line.spans@[0]@]);
    line
}

/// Moves the lines of `lines` to the end of `out`.
fn append_lines(out: &mut Vec<StyledLine>, lines: Vec<StyledLine>)
    ensures
        line_views(final(out)@) == line_views(old(out)@) + line_views(lines@),
{
    let mut lines = lines;
    let ghost src = lines@;
    out.append(&mut lines);
    assert(line_views(out@) =~= line_views(old(out)@) + line_views(src));
}

fn heading_lines_of(level: HeadingLevel, content: &Vec<Inline>) -> (lines: Vec<StyledLine>)
    ensures
        line_views(lines@) == heading_lines(level, content@),
{
    let color = heading_color_of(level);
    let mut title = inline_lines_exec(content, SpanStyle { bold: true, fg: Some(color), ..plain_style() });
    proof {
        lemma_inline_lines_nonempty(content@, SpanStyle { bold: true, ..colored(plain(), color) });
    }
    let text = shown_plain_text(content);
    let width = str_width(text.as_str());
    let rule_style = SpanStyle { fg: Some(color), ..plain_style() };
    match level {
        HeadingLevel::One => {
            let w = if width >= 20 { width } else { 20 };
            let ghost rule = seq![span(repeat_char('═', w as nat), colored(plain(), color))];
            let ghost title_views = line_views(title@);
            let mut lines: Vec<StyledLine> = Vec::new();
            let top = single_span_line(styled(repeated('═', w), rule_style));
            assert(top@ == rule);
            lines.push(top);
            assert(line_views(lines@) =~= seq![rule]);
            append_lines(&mut lines, title);
            let bottom = single_span_line(styled(repeated('═', w), rule_style));
            assert(bottom@ == rule);
            let ghost before = line_views(lines@);
            lines.push(bottom);
            assert(line_views(lines@) =~= before.push(rule));
            assert(line_views(lines@) =~= seq![rule] + title_views + seq![rule]);
            lines
        },
        HeadingLevel::Two => {
            let w = if width >= 16 { width } else { 16 };
            let ghost before = line_views(title@);
            title.push(single_span_line(styled(repeated('─', w), rule_style)));
            assert(line_views(title@) =~= before.push(line_views(title@).last()));
            title
        },
        HeadingLevel::Three => title,
        _ => {
            let ghost before = line_views(title@);
            let mut first = title.remove(0);
            let marker = styled(string_of("▸ "), rule_style);
            let ghost first_before = first@;
            first.spans.insert(0, marker);
            assert(first@ =~= seq![marker@] + first_before);
            title.insert(0, first);
            assert(line_views(title@) =~= before.update(0, seq![marker@] + before[0]));
            title
        },
    }
}

/// The lines of a text; see [`text_lines`].
pub(crate) fn split_lines(text: &Vec<char>) -> (lines: Vec<Vec<char>>)
    ensures
        lines@.map_values(|l: Vec<char>| l@) == text_lines(text@),
{
    let mut done: Vec<Vec<char>> = Vec::new();
    let mut current: Vec<char> = Vec::new();
    let mut i: usize = 0;
    while i < text.len()
        invariant
            i <= text.len(),
            line_split(text@.take(i as int)) == (
                done@.map_values(|l: Vec<char>| l@),
                current@,
            ),
        decreases text.len() - i,
    {
        assert(text@.take(i + 1).drop_last() =~= text@.take(i as int));
        assert(text@.take(i + 1).last() == text@[i as int]);
        let ghost before = done@.map_values(|l: Vec<char>| l@);
        let ghost current_before = current@;
        if text[i] == '\n' {
            if current.len() > 0 && current[current.len() - 1] == '\r' {
                current.pop();
            }
            assert(current@ =~= strip_carriage_return(current_before));
            let line = current;
            current = Vec::new();
            done.push(line);
            assert(done@.map_values(|l: Vec<char>| l@) =~= before.push(strip_carriage_return(current_before)));
            assert(current@ =~= Seq::<char>::empty());
        } else {
            current.push(text[i]);
        }
        i = i + 1;
    }
    assert(text@.take(i as int) =~= text@);
    let ghost before = done@.map_values(|l: Vec<char>| l@);
    if current.len() > 0 {
        let ghost c = current@;
        done.push(current);
        assert(done@.map_values(|l: Vec<char>| l@) =~= before.push(c));
    }
    done
}

fn code_lines_of(language: &Option<String>, content: &String) -> (lines: Vec<StyledLine>)
    ensures
        line_views(lines@) == code_lines(
            match *language {
                Some(l) => Some(l@),
                None => None,
            },
            content@,
        ),
{
    let mut lines: Vec<StyledLine> = Vec::new();
    if let Some(l) = language {
        lines.push(single_span_line(styled(crate::markdown::copy_string(l), dim_style())));
    }
    let ghost head = line_views(lines@);
    let chars = crate::text::chars_of(content.as_str());
    let split = split_lines(&chars);
    let ghost body = text_lines(content@);
    let mut i: usize = 0;
    while i < split.len()
        invariant
            i <= split.len(),
            split@.map_values(|l: Vec<char>| l@) == body,
            line_views(lines@) == head + Seq::new(
                i as nat,
                |j: int| seq![span(body[j], colored(plain(), Color::Yellow))],
            ),
        decreases split.len() - i,
    {
        let text = crate::text::string_from_chars(&split[i]);
        assert(text@ == body[i as int]);
        let ghost before = line_views(lines@);
        let line = single_span_line(
            styled(text, SpanStyle { fg: Some(Color::Yellow), ..plain_style() }),
        );
        assert(line@ == seq![span(body[i as int], colored(plain(), Color::Yellow))]);
        lines.push(line);
        assert(line_views(lines@) =~= before.push(line@));
        i = i + 1;
        assert(line_views(lines@) =~= head + Seq::new(
            i as nat,
            |j: int| seq![span(body[j], colored(plain(), Color::Yellow))],
        ));
    }
    assert(line_views(lines@) =~= code_lines(
        match *language {
            Some(l) => Some(l@),
            None => None,
        },
        content@,
    ));
    lines
}

/// Moves `lines` to the end of `out`, each behind a lead span.
fn append_with_lead(
    out: &mut Vec<StyledLine>,
    lines: Vec<StyledLine>,
    first: &String,
    rest: &String,
    style: SpanStyle,
)
    ensures
        line_views(final(out)@) == line_views(old(out)@) + with_lead(
            line_views(lines@),
            first@,
            rest@,
            style,
        ),
{
    let mut lines = lines;
    let ghost src = line_views(lines@);
    let count = lines.len();
    let ghost n = lines@.len();
    let mut i: usize = 0;
    while lines.len() > 0
        invariant
            n == count,
            i + lines@.len() == n,
            src.len() == n,
            forall|j: int| 0 <= j < lines@.len() ==> #[trigger] lines@[j]@ == src[i + j],
            line_views(out@) == line_views(old(out)@) + with_lead(src, first@, rest@, style).take(
                i as int,
            ),
        decreases lines@.len(),
    {
        let mut line = lines.remove(0);
        let lead = if i == 0 {
            crate::markdown::copy_string(first)
        } else {
            crate::markdown::copy_string(rest)
        };
        let ghost line_before = line@;
        let s = styled(lead, style);
        line.spans.insert(0, s);
        assert(line@ =~= seq![s@] + line_before);
        let ghost before = line_views(out@);
        out.push(line);
        assert(line_views(out@) =~= before.push(seq![s@] + line_before));
        i = i + 1;
        assert(line_views(out@) =~= line_views(old(out)@) + with_lead(src, first@, rest@, style).take(
            i as int,
        ));
    }
    assert(with_lead(src, first@, rest@, style).take(i as int) =~= with_lead(
        src,
        first@,
        rest@,
        style,
    ));
}

fn list_prefix_of(start: Option<u64>, task: Option<bool>, index: usize) -> (prefix: String)
    ensures
        prefix@ == list_prefix(start, task, index as nat),
{
    match task {
        Some(true) => string_of("[x] "),
        Some(false) => string_of("[ ] "),
        None => match start {
            Some(s) => {
                let mut prefix = decimal_string((s as u128) + (index as u128));
                push_str(&mut prefix, ". ");
                prefix
            },
            None => string_of("• "),
        },
    }
}

/// The lines of blocks one after another; see [`blocks_lines`].
fn blocks_lines_of(blocks: &Vec<Block>) -> (lines: Vec<StyledLine>)
    ensures
        line_views(lines@) == blocks_lines(blocks@),
    decreases blocks@, 0nat,
{
    let mut lines: Vec<StyledLine> = Vec::new();
    let mut i: usize = 0;
    while i < blocks.len()
        invariant
            i <= blocks.len(),
            line_views(lines@) == blocks_lines(blocks@.take(i as int)),
        decreases blocks.len() - i,
    {
        assert(blocks@.take(i + 1).drop_last() =~= blocks@.take(i as int));
        assert(blocks@.take(i + 1).last() == blocks@[i as int]);
        let more = block_lines_of(&blocks[i]);
        append_lines(&mut lines, more);
        i = i + 1;
    }
    assert(blocks@.take(i as int) =~= blocks@);
    lines
}

/// The lines of one block; see [`block_lines`].
#[verifier::loop_isolation(false)]
pub fn block_lines_of(block: &Block) -> (lines: Vec<StyledLine>)
    ensures
        line_views(lines@) == block_lines(*block),
    decreases *block, 1nat,
{
    match block {
        Block::Heading { level, content } => heading_lines_of(*level, content),
        Block::Paragraph(content) => inline_lines_exec(content, plain_style()),
        Block::CodeBlock { language, content } => code_lines_of(language, content),
        Block::List { start, items } => {
            let mut lines: Vec<StyledLine> = Vec::new();
            let mut i: usize = 0;
            while i < items.len()
                invariant
                    i <= items.len(),
                    line_views(lines@) == list_lines(items@.take(i as int), *start),
                decreases items.len() - i,
            {
                assert(items@.take(i + 1).drop_last() =~= items@.take(i as int));
                assert(items@.take(i + 1).last() == items@[i as int]);
                proof {
                    let item = items@[i as int];
                    assert(decreases_to!(*block => (*block)->items));
                    assert((*block)->items == *items);
                    assert(decreases_to!(*items => items@));
                    assert(decreases_to!(items@ => item));
                    assert(decreases_to!(item => item.blocks));
                    assert(decreases_to!(item.blocks => item.blocks@));
                }
                let item_lines = blocks_lines_of(&items[i].blocks);
                let prefix = list_prefix_of(*start, items[i].task, i);
                let width = str_width(prefix.as_str());
                let continuation = repeated(' ', width);
                append_with_lead(&mut lines, item_lines, &prefix, &continuation, plain_style());
                i = i + 1;
            }
            assert(items@.take(i as int) =~= items@);
            lines
        },
        Block::BlockQuote(blocks) => {
            let inner = blocks_lines_of(blocks);
            let mut lines: Vec<StyledLine> = Vec::new();
            let bar = string_of("│ ");
            append_with_lead(&mut lines, inner, &bar, &bar, dim_style());
            assert(line_views(lines@) =~= quoted(blocks_lines(blocks@)));
            lines
        },
        Block::Table { header, rows, alignments } => table_lines_of(header, rows, alignments),
        Block::ThematicBreak => {
            let mut lines: Vec<StyledLine> = Vec::new();
            lines.push(single_span_line(styled(repeated('─', 20), dim_style())));
            assert(line_views(lines@) =~= block_lines(*block));
            lines
        },
        Block::Html(html) => {
            let mut lines: Vec<StyledLine> = Vec::new();
            lines.push(single_span_line(styled(crate::markdown::copy_string(html), dim_style())));
            assert(line_views(lines@) =~= block_lines(*block));
            lines
        },
    }
}


fn sat_add_exec(a: usize, b: usize) -> (r: usize)
    ensures
        r == sat_add(a, b),
{
    if a <= usize::MAX - b { a + b } else { usize::MAX }
}

fn cell_width_of(row: &Vec<Vec<Inline>>, column: usize) -> (width: usize)
    ensures
        width == cell_width(row@, column as int),
{
    if column < row.len() {
        let text = shown_plain_text(&row[column]);
        str_width(text.as_str())
    } else {
        0
    }
}

fn column_widths_of(header: &Vec<Vec<Inline>>, rows: &Vec<Vec<Vec<Inline>>>) -> (widths: Vec<usize>)
    ensures
        widths@ == column_widths(header@, rows@),
{
    let mut count = header.len();
    let mut r: usize = 0;
    let mut longest: usize = 0;
    while r < rows.len()
        invariant
            r <= rows.len(),
            longest == max_row_len(rows@.take(r as int)),
        decreases rows.len() - r,
    {
        assert(rows@.take(r + 1).drop_last() =~= rows@.take(r as int));
        assert(rows@.take(r + 1).last() == rows@[r as int]);
        if rows[r].len() > longest {
            longest = rows[r].len();
        }
        r = r + 1;
    }
    assert(rows@.take(r as int) =~= rows@);
    if longest > count {
        count = longest;
    }
    let mut widths: Vec<usize> = Vec::new();
    let mut c: usize = 0;
    while c < count
        invariant
            c <= count,
            count == column_count(header@, rows@),
            widths@ == column_widths(header@, rows@).take(c as int),
        decreases count - c,
    {
        let mut width: usize = 0;
        let mut r: usize = 0;
        while r < rows.len()
            invariant
                r <= rows.len(),
                width == rows_column_width(rows@.take(r as int), c as int),
            decreases rows.len() - r,
        {
            assert(rows@.take(r + 1).drop_last() =~= rows@.take(r as int));
            assert(rows@.take(r + 1).last() == rows@[r as int]);
            let w = cell_width_of(&rows[r], c);
            if w > width {
                width = w;
            }
            r = r + 1;
        }
        assert(rows@.take(r as int) =~= rows@);
        let hw = cell_width_of(header, c);
        let column = if hw >= width { hw } else { width };
        widths.push(column);
        c = c + 1;
        assert(widths@ =~= column_widths(header@, rows@).take(c as int));
    }
    assert(column_widths(header@, rows@).take(c as int) =~= column_widths(header@, rows@));
    widths
}

fn border_line_of(left: char, divider: char, right: char, widths: &Vec<usize>) -> (line: StyledLine)
    ensures
        line@ == border_line(left, divider, right, widths@),
{
    let mut text = crate::markdown::single_char_string(left);
    let ghost head = text@;
    let mut k: usize = 0;
    while k < widths.len()
        invariant
            k <= widths.len(),
            text@ == head + border_middle(widths@.take(k as int), divider),
        decreases widths.len() - k,
    {
        assert(widths@.take(k + 1).drop_last() =~= widths@.take(k as int));
        assert(widths@.take(k + 1).last() == widths@[k as int]);
        if k > 0 {
            push_char(&mut text, divider);
        }
        let rule = repeated('─', sat_add_exec(widths[k], 2));
        push_str(&mut text, rule.as_str());
        k = k + 1;
        assert(text@ =~= head + border_middle(widths@.take(k as int), divider));
    }
    assert(widths@.take(k as int) =~= widths@);
    push_char(&mut text, right);
    assert(text@ =~= seq![left] + border_middle(widths@, divider) + seq![right]);
    single_span_line(styled(text, dim_style()))
}

fn alignment_of(alignments: &Vec<TableAlignment>, column: usize) -> (alignment: TableAlignment)
    ensures
        alignment == column_alignment(alignments@, column as int),
{
    if column < alignments.len() {
        alignments[column]
    } else {
        TableAlignment::Unaligned
    }
}

fn table_row_of(
    row: &Vec<Vec<Inline>>,
    widths: &Vec<usize>,
    alignments: &Vec<TableAlignment>,
    is_header: bool,
) -> (line: StyledLine)
    ensures
        line@ == table_row(row@, widths@, alignments@, is_header),
{
    let style = if is_header { SpanStyle { bold: true, ..plain_style() } } else { plain_style() };
    let mut spans: Vec<StyledSpan> = Vec::new();
    push_span(&mut spans, styled(string_of("│"), dim_style()));
    let ghost head = span_views(spans@);
    let mut c: usize = 0;
    while c < widths.len()
        invariant
            c <= widths.len(),
            span_views(spans@) == head + row_cells_spans(row@, widths@, alignments@, style, c as nat),
        decreases widths.len() - c,
    {
        let text = if c < row.len() {
            shown_plain_text(&row[c])
        } else {
            String::new()
        };
        assert(text@ == cell_text(row@, c as int));
        let text_width = str_width(text.as_str());
        let padding = if widths[c] >= text_width { widths[c] - text_width } else { 0 };
        let (left, right) = match alignment_of(alignments, c) {
            TableAlignment::Right => (padding, 0),
            TableAlignment::Center => (padding / 2, padding - padding / 2),
            _ => (0, padding),
        };
        push_span(&mut spans, styled(repeated(' ', sat_add_exec(left, 1)), plain_style()));
        push_span(&mut spans, styled(text, style));
        push_span(&mut spans, styled(repeated(' ', sat_add_exec(right, 1)), plain_style()));
        push_span(&mut spans, styled(string_of("│"), dim_style()));
        c = c + 1;
        assert(span_views(spans@) =~= head + row_cells_spans(row@, widths@, alignments@, style, c as nat));
    }
    let line = StyledLine { spans };
    assert(line@ =~= span_views(line.spans@));
    line
}

fn table_lines_of(
    header: &Vec<Vec<Inline>>,
    rows: &Vec<Vec<Vec<Inline>>>,
    alignments: &Vec<TableAlignment>,
) -> (lines: Vec<StyledLine>)
    ensures
        line_views(lines@) == table_lines(header@, rows@, alignments@),
{
    let widths = column_widths_of(header, rows);
    let mut lines: Vec<StyledLine> = Vec::new();
    if widths.len() == 0 {
        assert(line_views(lines@) =~= Seq::<Seq<SpanView>>::empty());
        return lines;
    }
    let top = border_line_of('┌', '┬', '┐', &widths);
    let head_row = table_row_of(header, &widths, alignments, true);
    let middle = border_line_of('├', '┼', '┤', &widths);
    let ghost head = seq![top@, head_row@, middle@];
    lines.push(top);
    lines.push(head_row);
    lines.push(middle);
    assert(line_views(lines@) =~= head);
    let ghost w = widths@;
    let mut r: usize = 0;
    while r < rows.len()
        invariant
            r <= rows.len(),
            widths@ == w,
            line_views(lines@) == head + Seq::new(
                r as nat,
                |i: int| table_row(rows@[i]@, w, alignments@, false),
            ),
        decreases rows.len() - r,
    {
        let ghost before = line_views(lines@);
        let line = table_row_of(&rows[r], &widths, alignments, false);
        lines.push(line);
        assert(line_views(lines@) =~= before.push(table_row(rows@[r as int]@, w, alignments@, false)));
        r = r + 1;
        assert(line_views(lines@) =~= head + Seq::new(
            r as nat,
            |i: int| table_row(rows@[i]@, w, alignments@, false),
        ));
    }
    let ghost body = line_views(lines@);
    let bottom = border_line_of('└', '┴', '┘', &widths);
    lines.push(bottom);
    assert(line_views(lines@) =~= body.push(bottom@));
    assert(Seq::new(rows@.len(), |i: int| table_row(rows@[i]@, w, alignments@, false)) =~= Seq::new(
        r as nat,
        |i: int| table_row(rows@[i]@, w, alignments@, false),
    ));
    assert(line_views(lines@) =~= table_lines(header@, rows@, alignments@));
    lines
}


// ---------------------------------------------------------------------------
// The preview and its scroll offsets

/// The whole preview of a document; see [`preview`].
pub fn preview_lines(document: &Document) -> (lines: Vec<StyledLine>)
    ensures
        line_views(lines@) == preview(document.spec_blocks()),
{
    let blocks = document.blocks();
    let mut lines: Vec<StyledLine> = Vec::new();
    let mut i: usize = 0;
    while i < blocks.len()
        invariant
            i <= blocks.len(),
            blocks@ == document.spec_blocks(),
            line_views(lines@) == preview(blocks@.take(i as int)),
        decreases blocks.len() - i,
    {
        assert(blocks@.take(i + 1).drop_last() =~= blocks@.take(i as int));
        assert(blocks@.take(i + 1).last() == blocks@[i as int]);
        if i > 0 {
            let ghost before = line_views(lines@);
            lines.push(empty_line());
            assert(line_views(lines@) =~= before + seq![seq![]]);
        }
        let more = block_lines_of(&blocks[i]);
        append_lines(&mut lines, more);
        assert(i == 0 ==> blocks@.take(i + 1)[0] == blocks@[0]);
        i = i + 1;
    }
    assert(blocks@.take(i as int) =~= blocks@);
    lines
}

proof fn lemma_lines_before_monotonic(blocks: Seq<Block>, i: int, k: int)
    requires
        0 <= i <= k <= blocks.len(),
    ensures
        lines_before(blocks.take(i)) <= lines_before(blocks.take(k)),
    decreases k - i,
{
    if i < k {
        lemma_lines_before_monotonic(blocks, i, k - 1);
        assert(blocks.take(k).drop_last() =~= blocks.take(k - 1));
    }
}

/// The scroll offset that puts block `block_index` at the top of the preview:
/// the lines of the blocks before it and of the blank lines between them.
pub fn preview_scroll_for_block(document: &Document, block_index: usize) -> (scroll: usize)
    ensures
        scroll == scroll_for_block(document.spec_blocks(), block_index as nat),
{
    let blocks = document.blocks();
    let end = if block_index <= blocks.len() { block_index } else { blocks.len() };
    let mut total: usize = 0;
    let mut i: usize = 0;
    while i < end
        invariant
            i <= end <= blocks.len(),
            blocks@ == document.spec_blocks(),
            end == if block_index <= blocks@.len() { block_index as int } else { blocks@.len() as int },
            total == lines_before(blocks@.take(i as int)),
        decreases end - i,
    {
        assert(blocks@.take(i + 1).drop_last() =~= blocks@.take(i as int));
        assert(blocks@.take(i + 1).last() == blocks@[i as int]);
        let block_lines_vec = block_lines_of(&blocks[i]);
        let count = block_lines_vec.len();
        assert(count == block_lines(blocks@[i as int]).len()) by {
            assert(line_views(block_lines_vec@).len() == count);
        }
        if count >= usize::MAX - total {
            proof {
                lemma_lines_before_monotonic(blocks@, i + 1, end as int);
            }
            return usize::MAX;
        }
        total = total + count + 1;
        i = i + 1;
    }
    total
}

/// The preview's scroll as a terminal row offset, capped at `u16::MAX`.
pub fn preview_scroll_offset(scroll: usize) -> (offset: u16)
    ensures
        offset == if scroll <= u16::MAX { scroll as u16 } else { u16::MAX },
{
    if scroll <= 65535 {
        scroll as u16
    } else {
        65535
    }
}


proof fn lemma_preview_len(blocks: Seq<Block>)
    requires
        blocks.len() >= 1,
    ensures
        preview(blocks).len() + 1 == lines_before(blocks),
    decreases blocks.len(),
{
    if blocks.len() == 1 {
        assert(blocks.drop_last().len() == 0);
        assert(lines_before(blocks.drop_last()) == 0);
        assert(blocks.last() == blocks[0]);
        assert(lines_before(blocks) == block_lines(blocks[0]).len() + 1);
    } else {
        lemma_preview_len(blocks.drop_last());
    }
}

proof fn lemma_preview_prefix(blocks: Seq<Block>, m: int)
    requires
        1 <= m <= blocks.len(),
    ensures
        preview(blocks.take(m)).len() <= preview(blocks).len(),
        forall|x: int|
            0 <= x < preview(blocks.take(m)).len() ==> #[trigger] preview(blocks)[x] == preview(
                blocks.take(m),
            )[x],
    decreases blocks.len() - m,
{
    if m < blocks.len() {
        lemma_preview_prefix(blocks, m + 1);
        assert(blocks.take(m + 1).drop_last() =~= blocks.take(m));
        assert(blocks.take(m + 1).len() >= 2);
    } else {
        assert(blocks.take(m) =~= blocks);
    }
}

/// Scrolling to a block's offset shows that block at the top: the preview
/// lines from the offset on are the block's own lines.
pub proof fn law_scroll_shows_block(blocks: Seq<Block>, k: nat, j: int)
    requires
        k < blocks.len(),
        0 <= j < block_lines(blocks[k as int]).len(),
        lines_before(blocks.take(k as int)) <= usize::MAX,
    ensures
        preview(blocks)[scroll_for_block(blocks, k) + j] == block_lines(blocks[k as int])[j],
{
    let lb = lines_before(blocks.take(k as int));
    assert(scroll_for_block(blocks, k) == lb);
    let p = preview(blocks.take((k + 1) as int));
    assert(blocks.take((k + 1) as int).drop_last() =~= blocks.take(k as int));
    assert(blocks.take((k + 1) as int).last() == blocks[k as int]);
    if k == 0 {
        assert(blocks.take(0) =~= Seq::<Block>::empty());
        assert(blocks.take(1)[0] == blocks[0]);
        assert(p[lb + j] == block_lines(blocks[0])[j]);
    } else {
        lemma_preview_len(blocks.take(k as int));
        assert(p =~= preview(blocks.take(k as int)) + seq![seq![]] + block_lines(blocks[k as int]));
        assert(p[lb + j] == block_lines(blocks[k as int])[j]);
    }
    lemma_preview_prefix(blocks, (k + 1) as int);
    assert(preview(blocks)[lb + j] == p[lb + j]);
}

// ---------------------------------------------------------------------------
// The overlay's input cursor

/// What the panes and the overlay are drawn from.
pub struct RenderState<'a> {
    pub selected_file_index: usize,
    pub focus: Focus,
    pub preview_scroll: usize,
    pub document: &'a Document,
    pub overlay: Option<Overlay>,
    pub query: &'a str,
    pub query_cursor: usize,
    pub overlay_results: &'a [String],
    pub selected_result: usize,
}

pub open spec fn sat_add_u16(a: u16, b: u16) -> u16 {
    if a + b <= u16::MAX { (a + b) as u16 } else { u16::MAX }
}

pub open spec fn sat_sub_u16(a: u16, b: u16) -> u16 {
    if a >= b { (a - b) as u16 } else { 0 }
}

/// Where the terminal cursor stands in an overlay at column `x`, row `y`,
/// `width` columns wide, after the typed text `typed`: past the `> ` prompt
/// and the border, by the display width of the text, but never on the
/// right border; on the first row inside the border.
pub open spec fn cursor_position(x: u16, y: u16, width: u16, typed: Seq<char>) -> (u16, u16) {
    let input_start = sat_add_u16(x, 3);
    let input_end = sat_sub_u16(sat_add_u16(x, width), 1);
    let typed_width = if display_width(typed) <= u16::MAX { display_width(typed) as u16 } else { u16::MAX };
    let column = sat_add_u16(input_start, typed_width);
    (if column <= input_end { column } else { input_end }, sat_add_u16(y, 1))
}

fn add_sat_u16(a: u16, b: u16) -> (sum: u16)
    ensures
        sum == sat_add_u16(a, b),
{
    if a <= 65535 - b {
        a + b
    } else {
        65535
    }
}

/// The cursor position in an overlay whose area starts at column `x` and
/// row `y` and is `width` columns wide, after the typed text `typed`.
pub fn overlay_cursor_position(x: u16, y: u16, width: u16, typed: &str) -> (position: (u16, u16))
    ensures
        position == cursor_position(x, y, width, typed@),
{
    let input_start = add_sat_u16(x, 3);
    let right = add_sat_u16(x, width);
    let input_end = if right >= 1 { right - 1 } else { 0 };
    let text_width = str_width(typed);
    let typed_width: u16 = if text_width <= 65535 { text_width as u16 } else { 65535 };
    let column = add_sat_u16(input_start, typed_width);
    (if column <= input_end { column } else { input_end }, add_sat_u16(y, 1))
}

// ---------------------------------------------------------------------------
// The file tree pane

/// One row of the file tree pane.
#[derive(Debug, PartialEq, Eq)]
pub struct FileTreeRow {
    pub label: String,
    pub is_selected: bool,
}

impl View for FileTreeRow {
    type V = (Seq<char>, bool);

    open spec fn view(&self) -> (Seq<char>, bool) {
        (self.label@, self.is_selected)
    }
}

pub open spec fn row_views(rows: Seq<FileTreeRow>) -> Seq<(Seq<char>, bool)> {
    rows.map_values(|r: FileTreeRow| r@)
}

/// Two spaces per level of depth.
pub open spec fn indentation(depth: nat) -> Seq<char> {
    repeat_char(' ', 2 * depth)
}

/// The rows of `nodes` at `depth`, whose first file is file number `first`:
/// each node's row followed by the rows below it.
pub open spec fn tree_rows(nodes: Seq<FileTreeNode>, depth: nat, selected: usize, first: nat) -> Seq<(Seq<char>, bool)>
    decreases nodes,
{
    if nodes.len() == 0 {
        seq![]
    } else {
        let last = nodes.len() - 1;
        tree_rows(nodes.drop_last(), depth, selected, first) + node_rows(
            nodes[last],
            depth,
            selected,
            first + files_in(nodes.drop_last()),
        )
    }
}

/// The rows of `node` at `depth` when it is (or its first file is) file
/// number `index`: a directory shows `▾ name/`, a page `▾ name`, a file its
/// name after two spaces; files and pages are selected when their number is
/// `selected`.
pub open spec fn node_rows(node: FileTreeNode, depth: nat, selected: usize, index: nat) -> Seq<(Seq<char>, bool)>
    decreases node,
{
    match node {
        FileTreeNode::Directory { name, children } => seq![
            (indentation(depth) + "▾ "@ + name@ + "/"@, false),
        ] + tree_rows(children@, depth + 1, selected, index),
        FileTreeNode::Page { name, children } => seq![
            (indentation(depth) + "▾ "@ + name@, index == selected),
        ] + tree_rows(children@, depth + 1, selected, index + 1),
        FileTreeNode::File { name } => seq![(indentation(depth) + "  "@ + name@, index == selected)],
    }
}

fn row(label: String, is_selected: bool) -> (row: FileTreeRow)
    ensures
        row@ == (label@, is_selected),
{
    FileTreeRow { label, is_selected }
}

#[verifier::loop_isolation(false)]
fn append_tree_rows(
    nodes: &Vec<FileTreeNode>,
    indent: &String,
    Ghost(depth): Ghost<nat>,
    selected: usize,
    file_index: &mut usize,
    rows: &mut Vec<FileTreeRow>,
)
    requires
        indent@ == indentation(depth),
        *old(file_index) + files_in(nodes@) <= usize::MAX,
    ensures
        *final(file_index) == *old(file_index) + files_in(nodes@),
        row_views(final(rows)@) == row_views(old(rows)@) + tree_rows(nodes@, depth, selected, *old(file_index) as nat),
    decreases nodes@,
{
    let ghost start = *file_index as nat;
    let ghost before = row_views(rows@);
    let mut child_indent = crate::markdown::copy_string(indent);
    push_str(&mut child_indent, "  ");
    proof {
        reveal_strlit("  ");
    }
    assert(child_indent@ =~= indentation(depth + 1));
    let mut i: usize = 0;
    while i < nodes.len()
        invariant
            i <= nodes.len(),
            *file_index == start + files_in(nodes@.take(i as int)),
            start + files_in(nodes@) <= usize::MAX,
            row_views(rows@) == before + tree_rows(nodes@.take(i as int), depth, selected, start),
        decreases nodes.len() - i,
    {
        let ghost prefix = nodes@.take(i as int);
        let ghost grown = nodes@.take(i + 1);
        assert(grown.drop_last() =~= prefix);
        assert(grown[grown.len() - 1] == nodes@[i as int]);
        proof {
            lemma_files_in_prefix(nodes@, i as int);
        }
        let ghost rows_before = row_views(rows@);
        let ghost index = *file_index as nat;
        assert(decreases_to!(nodes@ => nodes@[i as int]));
        match &nodes[i] {
            FileTreeNode::Directory { name, children } => {
                let mut label = crate::markdown::copy_string(indent);
                push_str(&mut label, "▾ ");
                push_str(&mut label, name.as_str());
                push_str(&mut label, "/");
                rows.push(row(label, false));
                assert(row_views(rows@) =~= rows_before.push((indentation(depth) + "▾ "@ + name@ + "/"@, false)));
                assert(decreases_to!(nodes@[i as int] => children@));
                append_tree_rows(children, &child_indent, Ghost(depth + 1), selected, file_index, rows);
                assert(row_views(rows@) =~= rows_before + node_rows(nodes@[i as int], depth, selected, index));
            },
            FileTreeNode::Page { name, children } => {
                let mut label = crate::markdown::copy_string(indent);
                push_str(&mut label, "▾ ");
                push_str(&mut label, name.as_str());
                rows.push(row(label, *file_index == selected));
                assert(row_views(rows@) =~= rows_before.push((indentation(depth) + "▾ "@ + name@, index == selected)));
                *file_index = *file_index + 1;
                assert(decreases_to!(nodes@[i as int] => children@));
                append_tree_rows(children, &child_indent, Ghost(depth + 1), selected, file_index, rows);
                assert(row_views(rows@) =~= rows_before + node_rows(nodes@[i as int], depth, selected, index));
            },
            FileTreeNode::File { name } => {
                let mut label = crate::markdown::copy_string(indent);
                push_str(&mut label, "  ");
                push_str(&mut label, name.as_str());
                rows.push(row(label, *file_index == selected));
                assert(row_views(rows@) =~= rows_before.push((indentation(depth) + "  "@ + name@, index == selected)));
                *file_index = *file_index + 1;
                assert(row_views(rows@) =~= rows_before + node_rows(nodes@[i as int], depth, selected, index));
            },
        }
        assert(tree_rows(grown, depth, selected, start) == tree_rows(prefix, depth, selected, start) + node_rows(
            nodes@[i as int],
            depth,
            selected,
            start + files_in(prefix),
        ));
        assert(row_views(rows@) =~= before + tree_rows(grown, depth, selected, start));
        i = i + 1;
    }
    assert(nodes@.take(i as int) =~= nodes@);
}

proof fn lemma_files_in_prefix(nodes: Seq<FileTreeNode>, i: int)
    requires
        0 <= i < nodes.len(),
    ensures
        files_in(nodes.take(i + 1)) == files_in(nodes.take(i)) + node_files(nodes[i]),
        files_in(nodes.take(i + 1)) <= files_in(nodes),
    decreases nodes.len() - i,
{
    assert(nodes.take(i + 1).drop_last() =~= nodes.take(i));
    assert(nodes.take(i + 1)[i] == nodes[i]);
    if i + 1 < nodes.len() {
        lemma_files_in_prefix(nodes, i + 1);
    } else {
        assert(nodes.take(i + 1) =~= nodes);
    }
}

/// The rows of the file tree pane for the top-level `nodes`, with the file
/// numbered `selected` (counting files and pages in tree order) selected.
pub fn file_tree_rows(nodes: &Vec<FileTreeNode>, selected: usize) -> (rows: Vec<FileTreeRow>)
    requires
        files_in(nodes@) <= usize::MAX,
    ensures
        row_views(rows@) == tree_rows(nodes@, 0, selected, 0),
{
    let mut rows: Vec<FileTreeRow> = Vec::new();
    let mut file_index: usize = 0;
    let indent = String::new();
    assert(indent@ =~= indentation(0));
    append_tree_rows(nodes, &indent, Ghost(0), selected, &mut file_index, &mut rows);
    assert(row_views(rows@) =~= Seq::<(Seq<char>, bool)>::empty() + tree_rows(nodes@, 0, selected, 0));
    rows
}

// ---------------------------------------------------------------------------
// Panes

/// A rectangle of terminal cells: its left column, top row, width and height.
#[derive(Clone, Copy, Debug, PartialEq, Eq, Structural)]
pub struct Area {
    pub x: u16,
    pub y: u16,
    pub width: u16,
    pub height: u16,
}

impl View for Area {
    type V = (u16, u16, u16, u16);

    open spec fn view(&self) -> (u16, u16, u16, u16) {
        (self.x, self.y, self.width, self.height)
    }
}

impl Area {
    /// The column just right of the area (saturating at `u16::MAX`).
    pub fn right(&self) -> (right: u16)
        ensures
            right == sat_add_u16(self.x, self.width),
    {
        add_sat_u16(self.x, self.width)
    }
}

/// Which way an area is split.
#[derive(Clone, Copy, Debug, PartialEq, Eq, Structural)]
pub enum Direction {
    Horizontal,
    Vertical,
}

/// The areas that ratatui's `Layout::split` gives for `area` (as column,
/// row, width, height) split in `direction` by percentage constraints.
pub uninterp spec fn percentage_split(area: (u16, u16, u16, u16), direction: Direction, percentages: Seq<u16>) -> Seq<(u16, u16, u16, u16)>;

/// ratatui's `Layout::split` of `area` with one `Constraint::Percentage` per
/// entry of `percentages`. The contract names the solver's result and states
/// that there is one area per constraint, as `Layout::areas` documents.
#[verifier::external_body]
fn split_by_percentages(area: Area, direction: Direction, percentages: &Vec<u16>) -> (areas: Vec<Area>)
    ensures
        areas@.map_values(|a: Area| a@) == percentage_split(area@, direction, percentages@),
        areas@.len() == percentages@.len(),
{
    let direction = match direction {
        Direction::Horizontal => ratatui::layout::Direction::Horizontal,
        Direction::Vertical => ratatui::layout::Direction::Vertical,
    };
    let constraints = percentages.iter().map(|p| ratatui::layout::Constraint::Percentage(*p));
    let rect = ratatui::layout::Rect::new(area.x, area.y, area.width, area.height);
    let layout = ratatui::layout::Layout::default().direction(direction).constraints(constraints);
    layout.split(rect).iter().map(|r| Area { x: r.x, y: r.y, width: r.width, height: r.height }).collect()
}

/// The file tree and the preview, side by side.
#[derive(Clone, Copy, Debug, PartialEq, Eq, Structural)]
pub struct TwoPaneLayout {
    pub file_tree: Area,
    pub preview: Area,
}

/// The file tree takes 35% of the width on the left, the preview 65% on
/// the right, as ratatui lays out those percentages.
pub fn two_pane_layout(area: Area) -> (layout: TwoPaneLayout)
    ensures
        layout.file_tree@ == percentage_split(area@, Direction::Horizontal, seq![35u16, 65u16])[0],
        layout.preview@ == percentage_split(area@, Direction::Horizontal, seq![35u16, 65u16])[1],
{
    let percentages: Vec<u16> = vec![35, 65];
    assert(percentages@ =~= seq![35u16, 65u16]);
    let areas = split_by_percentages(area, Direction::Horizontal, &percentages);
    assert(areas@.map_values(|a: Area| a@)[0] == areas@[0]@);
    assert(areas@.map_values(|a: Area| a@)[1] == areas@[1]@);
    TwoPaneLayout { file_tree: areas[0], preview: areas[1] }
}

/// The three percentages that centre a share of `percent`: the rest split
/// evenly before and after it.
pub open spec fn centering(percent: u16) -> Seq<u16> {
    seq![((100 - percent) / 2) as u16, percent, ((100 - percent) / 2) as u16]
}

/// The middle `percent_x` by `percent_y` of `area`, as ratatui lays out the
/// centering percentages down and then across.
pub fn centered_rect(percent_x: u16, percent_y: u16, area: Area) -> (centered: Area)
    requires
        percent_x <= 100,
        percent_y <= 100,
    ensures
        centered@ == percentage_split(
            percentage_split(area@, Direction::Vertical, centering(percent_y))[1],
            Direction::Horizontal,
            centering(percent_x),
        )[1],
{
    let side_y = (100 - percent_y) / 2;
    let vertical: Vec<u16> = vec![side_y, percent_y, side_y];
    assert(vertical@ =~= centering(percent_y));
    let rows = split_by_percentages(area, Direction::Vertical, &vertical);
    assert(rows@.map_values(|a: Area| a@)[1] == rows@[1]@);
    let side_x = (100 - percent_x) / 2;
    let horizontal: Vec<u16> = vec![side_x, percent_x, side_x];
    assert(horizontal@ =~= centering(percent_x));
    let columns = split_by_percentages(rows[1], Direction::Horizontal, &horizontal);
    assert(columns@.map_values(|a: Area| a@)[1] == columns@[1]@);
    columns[1]
}

} // verus!
