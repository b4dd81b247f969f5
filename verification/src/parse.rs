//! Building the document model from Markdown: pulldown-cmark turns the source
//! into a stream of events (with tables, task lists and strikethrough on),
//! and a verified builder turns the events into blocks and inlines.

use vstd::prelude::*;

use pulldown_cmark::{
    Alignment, CodeBlockKind, Event, HeadingLevel as ParserHeadingLevel, LinkType, Options,
    Parser, Tag, TagEnd,
};

use crate::markdown::{copy_string, Block, Document, HeadingLevel, Inline, ListItem, TableAlignment};

verus! {

// ---------------------------------------------------------------------------
// Events

/// A code block's kind: indented, or fenced with the info string.
#[derive(Debug, PartialEq, Eq)]
pub enum CodeFence {
    Indented,
    Fenced(String),
}

/// How a link was written; autolinks and email autolinks show their
/// destination instead of content.
#[derive(Clone, Copy, Debug, PartialEq, Eq, Structural)]
pub enum LinkKind {
    Autolink,
    Email,
    Written,
}

/// The start of a Markdown element.
#[derive(Debug, PartialEq, Eq)]
pub enum StartTag {
    Paragraph,
    Heading(HeadingLevel),
    BlockQuote,
    CodeBlock(CodeFence),
    List(Option<u64>),
    Item,
    Table(Vec<TableAlignment>),
    TableHead,
    TableRow,
    TableCell,
    Emphasis,
    Strong,
    Strikethrough,
    Link { kind: LinkKind, destination: String },
    Image { destination: String },
    Unhandled,
}

/// The end of a Markdown element.
#[derive(Clone, Copy, Debug, PartialEq, Eq, Structural)]
pub enum EndTag {
    Paragraph,
    Heading,
    BlockQuote,
    CodeBlock,
    List,
    Item,
    Table,
    TableHead,
    TableRow,
    TableCell,
    Emphasis,
    Strong,
    Strikethrough,
    Link,
    Image,
    Unhandled,
}

/// One event of the Markdown event stream, as the builder reads it.
#[derive(Debug, PartialEq, Eq)]
pub enum MarkdownEvent {
    Start(StartTag),
    End(EndTag),
    Text(String),
    Code(String),
    Html(String),
    InlineHtml(String),
    SoftBreak,
    HardBreak,
    Rule,
    TaskListMarker(bool),
    Unhandled,
}

// ---------------------------------------------------------------------------
// Models of the document values

/// The mathematical value of an [`Inline`].
pub enum InlineModel {
    Text(Seq<char>),
    Emphasis(Seq<InlineModel>),
    Strong(Seq<InlineModel>),
    Strikethrough(Seq<InlineModel>),
    Code(Seq<char>),
    Link { content: Seq<InlineModel>, destination: Seq<char> },
    Image { alt: Seq<InlineModel>, destination: Seq<char> },
    Autolink(Seq<char>),
    SoftBreak,
    HardBreak,
    Html(Seq<char>),
}

/// The mathematical value of a [`ListItem`].
pub struct ListItemModel {
    pub task: Option<bool>,
    pub blocks: Seq<BlockModel>,
}

/// The mathematical value of a [`Block`].
#[allow(inconsistent_fields)]
pub enum BlockModel {
    Heading { level: HeadingLevel, content: Seq<InlineModel> },
    Paragraph(Seq<InlineModel>),
    List { start: Option<u64>, items: Seq<ListItemModel> },
    BlockQuote(Seq<BlockModel>),
    CodeBlock { language: Option<Seq<char>>, content: Seq<char> },
    Table {
        header: Seq<Seq<InlineModel>>,
        rows: Seq<Seq<Seq<InlineModel>>>,
        alignments: Seq<TableAlignment>,
    },
    ThematicBreak,
    Html(Seq<char>),
}

pub open spec fn inline_model(inline: Inline) -> InlineModel
    decreases inline,
{
    match inline {
        Inline::Text(v) => InlineModel::Text(v@),
        Inline::Emphasis(c) => InlineModel::Emphasis(inlines_model(c@)),
        Inline::Strong(c) => InlineModel::Strong(inlines_model(c@)),
        Inline::Strikethrough(c) => InlineModel::Strikethrough(inlines_model(c@)),
        Inline::Code(v) => InlineModel::Code(v@),
        Inline::Link { content, destination } => InlineModel::Link {
            content: inlines_model(content@),
            destination: destination@,
        },
        Inline::Image { alt, destination } => InlineModel::Image {
            alt: inlines_model(alt@),
            destination: destination@,
        },
        Inline::Autolink(v) => InlineModel::Autolink(v@),
        Inline::SoftBreak => InlineModel::SoftBreak,
        Inline::HardBreak => InlineModel::HardBreak,
        Inline::Html(v) => InlineModel::Html(v@),
    }
}

pub open spec fn inlines_model(inlines: Seq<Inline>) -> Seq<InlineModel>
    decreases inlines,
{
    if inlines.len() == 0 {
        seq![]
    } else {
        inlines_model(inlines.drop_last()).push(inline_model(inlines.last()))
    }
}

pub open spec fn cells_model(cells: Seq<Vec<Inline>>) -> Seq<Seq<InlineModel>> {
    cells.map_values(|cell: Vec<Inline>| inlines_model(cell@))
}

pub open spec fn rows_model(rows: Seq<Vec<Vec<Inline>>>) -> Seq<Seq<Seq<InlineModel>>> {
    rows.map_values(|row: Vec<Vec<Inline>>| cells_model(row@))
}

pub open spec fn block_model(block: Block) -> BlockModel
    decreases block,
{
    match block {
        Block::Heading { level, content } => BlockModel::Heading {
            level,
            content: inlines_model(content@),
        },
        Block::Paragraph(content) => BlockModel::Paragraph(inlines_model(content@)),
        Block::List { start, items } => BlockModel::List { start, items: items_model(items@) },
        Block::BlockQuote(blocks) => BlockModel::BlockQuote(blocks_model(blocks@)),
        Block::CodeBlock { language, content } => BlockModel::CodeBlock {
            language: match language {
                Some(l) => Some(l@),
                None => None,
            },
            content: content@,
        },
        Block::Table { header, rows, alignments } => BlockModel::Table {
            header: cells_model(header@),
            rows: rows_model(rows@),
            alignments: alignments@,
        },
        Block::ThematicBreak => BlockModel::ThematicBreak,
        Block::Html(v) => BlockModel::Html(v@),
    }
}

pub open spec fn blocks_model(blocks: Seq<Block>) -> Seq<BlockModel>
    decreases blocks,
{
    if blocks.len() == 0 {
        seq![]
    } else {
        blocks_model(blocks.drop_last()).push(block_model(blocks.last()))
    }
}

pub open spec fn item_model(item: ListItem) -> ListItemModel
    decreases item,
{
    ListItemModel { task: item.task, blocks: blocks_model(item.blocks@) }
}

pub open spec fn items_model(items: Seq<ListItem>) -> Seq<ListItemModel>
    decreases items,
{
    if items.len() == 0 {
        seq![]
    } else {
        items_model(items.drop_last()).push(item_model(items.last()))
    }
}

/// The model of a document: the models of its blocks.
pub open spec fn document_model(document: Document) -> Seq<BlockModel> {
    blocks_model(document.spec_blocks())
}

pub proof fn lemma_inlines_model(inlines: Seq<Inline>)
    ensures
        inlines_model(inlines).len() == inlines.len(),
        forall|i: int|
            0 <= i < inlines.len() ==> #[trigger] inlines_model(inlines)[i] == inline_model(
                inlines[i],
            ),
    decreases inlines.len(),
{
    if inlines.len() > 0 {
        lemma_inlines_model(inlines.drop_last());
    }
}

pub proof fn lemma_blocks_model(blocks: Seq<Block>)
    ensures
        blocks_model(blocks).len() == blocks.len(),
        forall|i: int|
            0 <= i < blocks.len() ==> #[trigger] blocks_model(blocks)[i] == block_model(
                blocks[i],
            ),
    decreases blocks.len(),
{
    if blocks.len() > 0 {
        lemma_blocks_model(blocks.drop_last());
    }
}

pub proof fn lemma_items_model(items: Seq<ListItem>)
    ensures
        items_model(items).len() == items.len(),
        forall|i: int|
            0 <= i < items.len() ==> #[trigger] items_model(items)[i] == item_model(items[i]),
    decreases items.len(),
{
    if items.len() > 0 {
        lemma_items_model(items.drop_last());
    }
}


// ---------------------------------------------------------------------------
// The builder, as a function of the events

/// A list being built: its items so far and the item being filled.
pub struct ListModel {
    pub start: Option<u64>,
    pub items: Seq<ListItemModel>,
    pub current: Option<ListItemModel>,
}

/// The heading or paragraph that receives inline content.
pub enum ActiveModel {
    Heading { level: HeadingLevel, content: Seq<InlineModel> },
    Paragraph(Seq<InlineModel>),
}

/// A table being built.
pub struct TableModel {
    pub alignments: Seq<TableAlignment>,
    pub header: Seq<Seq<InlineModel>>,
    pub rows: Seq<Seq<Seq<InlineModel>>>,
    pub current_row: Option<Seq<Seq<InlineModel>>>,
    pub current_cell: Option<Seq<InlineModel>>,
    pub in_header: bool,
}

/// The element an open inline span becomes when it ends.
pub enum SpanKind {
    Emphasis,
    Strong,
    Strikethrough,
    Link(Seq<char>),
    Image(Seq<char>),
    Autolink(Seq<char>),
}

/// An open inline span: its kind and where its content starts.
pub struct SpanModel {
    pub kind: SpanKind,
    pub start: nat,
}

/// Everything the builder holds between two events.
pub struct BuildState {
    pub blocks: Seq<BlockModel>,
    pub active: Option<ActiveModel>,
    pub code: Option<(Option<Seq<char>>, Seq<char>)>,
    pub lists: Seq<ListModel>,
    pub quotes: Seq<Seq<BlockModel>>,
    pub table: Option<TableModel>,
    pub spans: Seq<SpanModel>,
}

/// The content `span` ends in: the inlines from its start on become the
/// span's element (an autolink keeps only its destination).
pub open spec fn wrap(span: SpanModel, content: Seq<InlineModel>) -> Seq<InlineModel> {
    let start = if span.start <= content.len() { span.start as int } else { content.len() as int };
    let nested = content.subrange(start, content.len() as int);
    content.take(start).push(
        match span.kind {
            SpanKind::Emphasis => InlineModel::Emphasis(nested),
            SpanKind::Strong => InlineModel::Strong(nested),
            SpanKind::Strikethrough => InlineModel::Strikethrough(nested),
            SpanKind::Link(d) => InlineModel::Link { content: nested, destination: d },
            SpanKind::Image(d) => InlineModel::Image { alt: nested, destination: d },
            SpanKind::Autolink(d) => InlineModel::Autolink(d),
        },
    )
}

impl BuildState {
    pub open spec fn initial() -> BuildState {
        BuildState {
            blocks: seq![],
            active: None,
            code: None,
            lists: seq![],
            quotes: seq![],
            table: None,
            spans: seq![],
        }
    }

    /// A finished block goes to the innermost open quote, else to the item
    /// being filled in the innermost list, else to the document.
    pub open spec fn push_block(self, block: BlockModel) -> BuildState {
        if self.quotes.len() > 0 {
            BuildState {
                quotes: self.quotes.update(
                    self.quotes.len() - 1,
                    self.quotes.last().push(block),
                ),
                ..self
            }
        } else if self.lists.len() > 0 && self.lists.last().current is Some {
            let list = self.lists.last();
            let item = list.current->0;
            BuildState {
                lists: self.lists.update(
                    self.lists.len() - 1,
                    ListModel {
                        current: Some(ListItemModel { blocks: item.blocks.push(block), ..item }),
                        ..list
                    },
                ),
                ..self
            }
        } else {
            BuildState { blocks: self.blocks.push(block), ..self }
        }
    }

    /// Closes the active heading or (non-empty) paragraph.
    pub open spec fn flush_active(self) -> BuildState {
        let cleared = BuildState { active: None, ..self };
        match self.active {
            Some(ActiveModel::Heading { level, content }) => cleared.push_block(
                BlockModel::Heading { level, content },
            ),
            Some(ActiveModel::Paragraph(content)) => if content.len() > 0 {
                cleared.push_block(BlockModel::Paragraph(content))
            } else {
                cleared
            },
            None => cleared,
        }
    }

    pub open spec fn in_table_cell(self) -> bool {
        self.table is Some && self.table->0.current_cell is Some
    }

    /// Where inline elements go: the open table cell, else the active block.
    pub open spec fn active_content(self) -> Option<Seq<InlineModel>> {
        if self.in_table_cell() {
            self.table->0.current_cell
        } else {
            match self.active {
                Some(ActiveModel::Heading { content, .. }) => Some(content),
                Some(ActiveModel::Paragraph(content)) => Some(content),
                None => None,
            }
        }
    }

    pub open spec fn with_active_content(self, content: Seq<InlineModel>) -> BuildState {
        if self.in_table_cell() {
            BuildState {
                table: Some(TableModel { current_cell: Some(content), ..self.table->0 }),
                ..self
            }
        } else {
            match self.active {
                Some(ActiveModel::Heading { level, .. }) => BuildState {
                    active: Some(ActiveModel::Heading { level, content }),
                    ..self
                },
                Some(ActiveModel::Paragraph(_)) => BuildState {
                    active: Some(ActiveModel::Paragraph(content)),
                    ..self
                },
                None => self,
            }
        }
    }

    /// Text-level content that only the active block receives.
    pub open spec fn push_inline(self, inline: InlineModel) -> BuildState {
        match self.active {
            Some(ActiveModel::Heading { level, content }) => BuildState {
                active: Some(ActiveModel::Heading { level, content: content.push(inline) }),
                ..self
            },
            Some(ActiveModel::Paragraph(content)) => BuildState {
                active: Some(ActiveModel::Paragraph(content.push(inline))),
                ..self
            },
            None => self,
        }
    }

    pub open spec fn start_span(self, kind: SpanKind) -> BuildState {
        match self.active_content() {
            Some(content) => BuildState {
                spans: self.spans.push(SpanModel { kind, start: content.len() }),
                ..self
            },
            None => self,
        }
    }

    pub open spec fn end_span(self) -> BuildState {
        if self.spans.len() == 0 {
            self
        } else {
            let popped = BuildState { spans: self.spans.drop_last(), ..self };
            match popped.active_content() {
                Some(content) => popped.with_active_content(wrap(self.spans.last(), content)),
                None => popped,
            }
        }
    }

    pub open spec fn with_table(self, table: TableModel) -> BuildState {
        BuildState { table: Some(table), ..self }
    }

    pub open spec fn after_start(self, tag: StartTag) -> BuildState {
        match tag {
            StartTag::Paragraph => BuildState {
                active: Some(ActiveModel::Paragraph(seq![])),
                ..self
            },
            StartTag::Heading(level) => BuildState {
                active: Some(ActiveModel::Heading { level, content: seq![] }),
                ..self
            },
            StartTag::BlockQuote => {
                let flushed = self.flush_active();
                BuildState { quotes: flushed.quotes.push(seq![]), ..flushed }
            },
            StartTag::CodeBlock(fence) => BuildState {
                code: Some(
                    (
                        match fence {
                            CodeFence::Fenced(language) => if language@.len() > 0 {
                                Some(language@)
                            } else {
                                None
                            },
                            CodeFence::Indented => None,
                        },
                        seq![],
                    ),
                ),
                ..self
            },
            StartTag::List(start) => {
                let flushed = self.flush_active();
                BuildState {
                    lists: flushed.lists.push(ListModel { start, items: seq![], current: None }),
                    ..flushed
                }
            },
            StartTag::Item => if self.lists.len() > 0 {
                BuildState {
                    lists: self.lists.update(
                        self.lists.len() - 1,
                        ListModel {
                            current: Some(ListItemModel { task: None, blocks: seq![] }),
                            ..self.lists.last()
                        },
                    ),
                    active: Some(ActiveModel::Paragraph(seq![])),
                    ..self
                }
            } else {
                self
            },
            StartTag::Table(alignments) => self.with_table(
                TableModel {
                    alignments: alignments@,
                    header: seq![],
                    rows: seq![],
                    current_row: None,
                    current_cell: None,
                    in_header: false,
                },
            ),
            StartTag::TableHead => if self.table is Some {
                self.with_table(
                    TableModel { in_header: true, current_row: Some(seq![]), ..self.table->0 },
                )
            } else {
                self
            },
            StartTag::TableRow => if self.table is Some {
                self.with_table(TableModel { current_row: Some(seq![]), ..self.table->0 })
            } else {
                self
            },
            StartTag::TableCell => if self.table is Some {
                self.with_table(TableModel { current_cell: Some(seq![]), ..self.table->0 })
            } else {
                self
            },
            StartTag::Emphasis => self.start_span(SpanKind::Emphasis),
            StartTag::Strong => self.start_span(SpanKind::Strong),
            StartTag::Strikethrough => self.start_span(SpanKind::Strikethrough),
            StartTag::Link { kind, destination } => if kind == LinkKind::Written {
                self.start_span(SpanKind::Link(destination@))
            } else {
                self.start_span(SpanKind::Autolink(destination@))
            },
            StartTag::Image { destination } => self.start_span(SpanKind::Image(destination@)),
            StartTag::Unhandled => self,
        }
    }

    /// The end of a list item: its paragraph (if not empty) joins the item,
    /// and the item joins its list.
    pub open spec fn end_item(self) -> BuildState {
        let cleared = BuildState { active: None, ..self };
        let with_paragraph = match self.active {
            Some(ActiveModel::Paragraph(content)) => if self.lists.len() > 0
                && self.lists.last().current is Some && content.len() > 0 {
                let list = self.lists.last();
                let item = list.current->0;
                BuildState {
                    lists: self.lists.update(
                        self.lists.len() - 1,
                        ListModel {
                            current: Some(
                                ListItemModel {
                                    blocks: item.blocks.push(BlockModel::Paragraph(content)),
                                    ..item
                                },
                            ),
                            ..list
                        },
                    ),
                    ..cleared
                }
            } else {
                cleared
            },
            _ => cleared,
        };
        if with_paragraph.lists.len() > 0 && with_paragraph.lists.last().current is Some {
            let list = with_paragraph.lists.last();
            BuildState {
                lists: with_paragraph.lists.update(
                    with_paragraph.lists.len() - 1,
                    ListModel { items: list.items.push(list.current->0), current: None, ..list },
                ),
                ..with_paragraph
            }
        } else {
            with_paragraph
        }
    }

    pub open spec fn after_end(self, tag: EndTag) -> BuildState {
        match tag {
            EndTag::Link | EndTag::Image | EndTag::Emphasis | EndTag::Strong
            | EndTag::Strikethrough => self.end_span(),
            EndTag::TableHead => if self.table is Some {
                let table = self.table->0;
                self.with_table(
                    TableModel {
                        header: match table.current_row {
                            Some(row) => row,
                            None => table.header,
                        },
                        current_row: None,
                        in_header: false,
                        ..table
                    },
                )
            } else {
                self
            },
            EndTag::TableRow => if self.table is Some && self.table->0.current_row is Some {
                let table = self.table->0;
                let row = table.current_row->0;
                if table.in_header {
                    self.with_table(TableModel { header: row, current_row: None, ..table })
                } else {
                    self.with_table(
                        TableModel { rows: table.rows.push(row), current_row: None, ..table },
                    )
                }
            } else {
                self
            },
            EndTag::TableCell => if self.in_table_cell() {
                let table = self.table->0;
                let cell = table.current_cell->0;
                self.with_table(
                    TableModel {
                        current_cell: None,
                        current_row: match table.current_row {
                            Some(row) => Some(row.push(cell)),
                            None => None,
                        },
                        ..table
                    },
                )
            } else {
                self
            },
            EndTag::Table => match self.table {
                Some(table) => BuildState { table: None, ..self }.push_block(
                    BlockModel::Table {
                        header: table.header,
                        rows: table.rows,
                        alignments: table.alignments,
                    },
                ),
                None => self,
            },
            EndTag::Heading => match self.active {
                Some(ActiveModel::Heading { level, content }) => BuildState {
                    active: None,
                    ..self
                }.push_block(BlockModel::Heading { level, content }),
                _ => BuildState { active: None, ..self },
            },
            EndTag::Paragraph => match self.active {
                Some(ActiveModel::Paragraph(content)) => BuildState {
                    active: None,
                    ..self
                }.push_block(BlockModel::Paragraph(content)),
                _ => BuildState { active: None, ..self },
            },
            EndTag::Item => self.end_item(),
            EndTag::List => if self.lists.len() > 0 {
                let list = self.lists.last();
                BuildState { lists: self.lists.drop_last(), ..self }.push_block(
                    BlockModel::List { start: list.start, items: list.items },
                )
            } else {
                self
            },
            EndTag::BlockQuote => if self.quotes.len() > 0 {
                BuildState { quotes: self.quotes.drop_last(), ..self }.push_block(
                    BlockModel::BlockQuote(self.quotes.last()),
                )
            } else {
                self
            },
            EndTag::CodeBlock => match self.code {
                Some((language, content)) => BuildState { code: None, ..self }.push_block(
                    BlockModel::CodeBlock { language, content },
                ),
                None => self,
            },
            EndTag::Unhandled => self,
        }
    }

    /// The builder state after one event.
    pub open spec fn after_event(self, event: MarkdownEvent) -> BuildState {
        match event {
            MarkdownEvent::Start(tag) => self.after_start(tag),
            MarkdownEvent::End(tag) => self.after_end(tag),
            MarkdownEvent::Text(text) => match self.code {
                Some((language, content)) => BuildState {
                    code: Some((language, content + text@)),
                    ..self
                },
                None => if self.in_table_cell() {
                    let table = self.table->0;
                    self.with_table(
                        TableModel {
                            current_cell: Some(
                                table.current_cell->0.push(InlineModel::Text(text@)),
                            ),
                            ..table
                        },
                    )
                } else {
                    self.push_inline(InlineModel::Text(text@))
                },
            },
            MarkdownEvent::Code(code) => match self.active_content() {
                Some(content) => self.with_active_content(
                    content.push(InlineModel::Code(code@)),
                ),
                None => self,
            },
            MarkdownEvent::SoftBreak => self.push_inline(InlineModel::SoftBreak),
            MarkdownEvent::HardBreak => self.push_inline(InlineModel::HardBreak),
            MarkdownEvent::Html(html) => self.push_block(BlockModel::Html(html@)),
            MarkdownEvent::InlineHtml(html) => self.push_inline(InlineModel::Html(html@)),
            MarkdownEvent::Rule => self.push_block(BlockModel::ThematicBreak),
            MarkdownEvent::TaskListMarker(checked) => if self.lists.len() > 0
                && self.lists.last().current is Some {
                let list = self.lists.last();
                BuildState {
                    lists: self.lists.update(
                        self.lists.len() - 1,
                        ListModel {
                            current: Some(ListItemModel { task: Some(checked), ..list.current->0 }),
                            ..list
                        },
                    ),
                    ..self
                }
            } else {
                self
            },
            MarkdownEvent::Unhandled => self,
        }
    }
}

/// An inline code span is never lost: while a table cell is open it is
/// appended to that cell; otherwise it is appended to the heading or
/// paragraph being filled, and with neither open nothing changes. Nothing
/// else in the state changes.
pub proof fn law_code_spans_are_kept(state: BuildState, code: String)
    ensures
        state.table is Some && state.table->0.current_cell is Some ==> state.after_event(
            MarkdownEvent::Code(code),
        ) == (BuildState {
            table: Some(
                TableModel {
                    current_cell: Some(state.table->0.current_cell->0.push(InlineModel::Code(code@))),
                    ..state.table->0
                },
            ),
            ..state
        }),
        !(state.table is Some && state.table->0.current_cell is Some) ==> state.after_event(
            MarkdownEvent::Code(code),
        ) == match state.active {
            Some(ActiveModel::Heading { level, content }) => BuildState {
                active: Some(ActiveModel::Heading { level, content: content.push(InlineModel::Code(code@)) }),
                ..state
            },
            Some(ActiveModel::Paragraph(content)) => BuildState {
                active: Some(ActiveModel::Paragraph(content.push(InlineModel::Code(code@)))),
                ..state
            },
            None => state,
        },
{
}

/// The builder state after all of `events`, from the start.
pub open spec fn build_state(events: Seq<MarkdownEvent>) -> BuildState
    decreases events.len(),
{
    if events.len() == 0 {
        BuildState::initial()
    } else {
        build_state(events.drop_last()).after_event(events.last())
    }
}

/// The blocks of the document that `events` describe.
pub open spec fn built_blocks(events: Seq<MarkdownEvent>) -> Seq<BlockModel> {
    build_state(events).blocks
}


pub proof fn lemma_inlines_model_push(s: Seq<Inline>, x: Inline)
    ensures
        inlines_model(s.push(x)) == inlines_model(s).push(inline_model(x)),
{
    assert(s.push(x).drop_last() =~= s);
}

pub proof fn lemma_blocks_model_push(s: Seq<Block>, x: Block)
    ensures
        blocks_model(s.push(x)) == blocks_model(s).push(block_model(x)),
{
    assert(s.push(x).drop_last() =~= s);
}

pub proof fn lemma_items_model_push(s: Seq<ListItem>, x: ListItem)
    ensures
        items_model(s.push(x)) == items_model(s).push(item_model(x)),
{
    assert(s.push(x).drop_last() =~= s);
}

// ---------------------------------------------------------------------------
// The builder

enum ActiveBlock {
    Heading { level: HeadingLevel, content: Vec<Inline> },
    Paragraph(Vec<Inline>),
}

struct ListContext {
    start: Option<u64>,
    items: Vec<ListItem>,
    current: Option<ListItem>,
}

struct TableContext {
    alignments: Vec<TableAlignment>,
    header: Vec<Vec<Inline>>,
    rows: Vec<Vec<Vec<Inline>>>,
    current_row: Option<Vec<Vec<Inline>>>,
    current_cell: Option<Vec<Inline>>,
    in_header: bool,
}

enum InlineSpanKind {
    Emphasis,
    Strong,
    Strikethrough,
    Link(String),
    Image(String),
    Autolink(String),
}

struct InlineSpan {
    kind: InlineSpanKind,
    start: usize,
}

struct Builder {
    blocks: Vec<Block>,
    active: Option<ActiveBlock>,
    code: Option<(Option<String>, String)>,
    lists: Vec<ListContext>,
    quotes: Vec<Vec<Block>>,
    table: Option<TableContext>,
    spans: Vec<InlineSpan>,
}

spec fn active_model(active: Option<ActiveBlock>) -> Option<ActiveModel> {
    match active {
        Some(ActiveBlock::Heading { level, content }) => Some(
            ActiveModel::Heading { level, content: inlines_model(content@) },
        ),
        Some(ActiveBlock::Paragraph(content)) => Some(
            ActiveModel::Paragraph(inlines_model(content@)),
        ),
        None => None,
    }
}

spec fn option_item_model(item: Option<ListItem>) -> Option<ListItemModel> {
    match item {
        Some(i) => Some(item_model(i)),
        None => None,
    }
}

spec fn list_model(list: ListContext) -> ListModel {
    ListModel {
        start: list.start,
        items: items_model(list.items@),
        current: option_item_model(list.current),
    }
}

spec fn table_model(table: TableContext) -> TableModel {
    TableModel {
        alignments: table.alignments@,
        header: cells_model(table.header@),
        rows: rows_model(table.rows@),
        current_row: match table.current_row {
            Some(row) => Some(cells_model(row@)),
            None => None,
        },
        current_cell: match table.current_cell {
            Some(cell) => Some(inlines_model(cell@)),
            None => None,
        },
        in_header: table.in_header,
    }
}

spec fn span_model(span: InlineSpan) -> SpanModel {
    SpanModel {
        kind: match span.kind {
            InlineSpanKind::Emphasis => SpanKind::Emphasis,
            InlineSpanKind::Strong => SpanKind::Strong,
            InlineSpanKind::Strikethrough => SpanKind::Strikethrough,
            InlineSpanKind::Link(d) => SpanKind::Link(d@),
            InlineSpanKind::Image(d) => SpanKind::Image(d@),
            InlineSpanKind::Autolink(d) => SpanKind::Autolink(d@),
        },
        start: span.start as nat,
    }
}

spec fn code_model(code: Option<(Option<String>, String)>) -> Option<(Option<Seq<char>>, Seq<char>)> {
    match code {
        Some((language, content)) => Some(
            (
                match language {
                    Some(l) => Some(l@),
                    None => None,
                },
                content@,
            ),
        ),
        None => None,
    }
}

impl Builder {
    spec fn model(&self) -> BuildState {
        BuildState {
            blocks: blocks_model(self.blocks@),
            active: active_model(self.active),
            code: code_model(self.code),
            lists: self.lists@.map_values(|l: ListContext| list_model(l)),
            quotes: self.quotes@.map_values(|q: Vec<Block>| blocks_model(q@)),
            table: match self.table {
                Some(t) => Some(table_model(t)),
                None => None,
            },
            spans: self.spans@.map_values(|s: InlineSpan| span_model(s)),
        }
    }

    fn new() -> (builder: Self)
        ensures
            builder.model() == BuildState::initial(),
    {
        let builder = Builder {
            blocks: Vec::new(),
            active: None,
            code: None,
            lists: Vec::new(),
            quotes: Vec::new(),
            table: None,
            spans: Vec::new(),
        };
        assert(builder.model().lists =~= Seq::<ListModel>::empty());
        assert(builder.model().quotes =~= Seq::<Seq<BlockModel>>::empty());
        assert(builder.model().spans =~= Seq::<SpanModel>::empty());
        builder
    }

    fn push_block(&mut self, block: Block)
        ensures
            final(self).model() == old(self).model().push_block(block_model(block)),
    {
        let ghost old_model = self.model();
        if self.quotes.len() > 0 {
            let mut quoted = self.quotes.pop().unwrap();
            proof {
                lemma_blocks_model_push(quoted@, block);
            }
            quoted.push(block);
            self.quotes.push(quoted);
            assert(self.model().quotes =~= old_model.quotes.update(
                old_model.quotes.len() - 1,
                old_model.quotes.last().push(block_model(block)),
            ));
            return;
        }
        let has_item = self.lists.len() > 0 && self.lists[self.lists.len() - 1].current.is_some();
        if has_item {
            let mut list = self.lists.pop().unwrap();
            let mut item = list.current.take().unwrap();
            proof {
                lemma_blocks_model_push(item.blocks@, block);
            }
            item.blocks.push(block);
            list.current = Some(item);
            self.lists.push(list);
            assert(self.model().lists =~= old_model.push_block(block_model(block)).lists);
        } else {
            proof {
                lemma_blocks_model_push(self.blocks@, block);
            }
            self.blocks.push(block);
        }
    }

    fn flush_active_block(&mut self)
        ensures
            final(self).model() == old(self).model().flush_active(),
    {
        match self.active.take() {
            Some(ActiveBlock::Heading { level, content }) => {
                self.push_block(Block::Heading { level, content });
            },
            Some(ActiveBlock::Paragraph(content)) => {
                proof {
                    lemma_inlines_model(content@);
                }
                if content.len() > 0 {
                    self.push_block(Block::Paragraph(content));
                }
            },
            None => {},
        }
    }

    fn in_table_cell(&self) -> (in_cell: bool)
        ensures
            in_cell == self.model().in_table_cell(),
    {
        match &self.table {
            Some(table) => table.current_cell.is_some(),
            None => false,
        }
    }

    /// Takes the content that inline elements go to, leaving it empty.
    fn take_active_content(&mut self) -> (content: Option<Vec<Inline>>)
        ensures
            match old(self).model().active_content() {
                Some(c) => content matches Some(v) && inlines_model(v@) == c
                    && final(self).model() == old(self).model().with_active_content(seq![]),
                None => content is None && final(self).model() == old(self).model(),
            },
    {
        if self.in_table_cell() {
            let mut table = self.table.take().unwrap();
            let cell = table.current_cell.take().unwrap();
            table.current_cell = Some(Vec::new());
            self.table = Some(table);
            return Some(cell);
        }
        match self.active.take() {
            Some(ActiveBlock::Heading { level, content }) => {
                self.active = Some(ActiveBlock::Heading { level, content: Vec::new() });
                Some(content)
            },
            Some(ActiveBlock::Paragraph(content)) => {
                self.active = Some(ActiveBlock::Paragraph(Vec::new()));
                Some(content)
            },
            None => None,
        }
    }

    /// Puts back the content that inline elements go to.
    fn put_active_content(&mut self, content: Vec<Inline>)
        requires
            old(self).model().active_content() is Some,
        ensures
            final(self).model() == old(self).model().with_active_content(inlines_model(content@)),
    {
        if self.in_table_cell() {
            let mut table = self.table.take().unwrap();
            table.current_cell = Some(content);
            self.table = Some(table);
            return;
        }
        match self.active.take() {
            Some(ActiveBlock::Heading { level, .. }) => {
                self.active = Some(ActiveBlock::Heading { level, content });
            },
            Some(ActiveBlock::Paragraph(_)) => {
                self.active = Some(ActiveBlock::Paragraph(content));
            },
            None => {},
        }
    }

    fn push_inline(&mut self, inline: Inline)
        ensures
            final(self).model() == old(self).model().push_inline(inline_model(inline)),
    {
        match self.active.take() {
            Some(ActiveBlock::Heading { level, content }) => {
                let mut content = content;
                proof {
                    lemma_inlines_model_push(content@, inline);
                }
                content.push(inline);
                self.active = Some(ActiveBlock::Heading { level, content });
            },
            Some(ActiveBlock::Paragraph(content)) => {
                let mut content = content;
                proof {
                    lemma_inlines_model_push(content@, inline);
                }
                content.push(inline);
                self.active = Some(ActiveBlock::Paragraph(content));
            },
            None => {},
        }
    }

    fn start_inline_span(&mut self, kind: InlineSpanKind)
        ensures
            final(self).model() == old(self).model().start_span(
                span_model(InlineSpan { kind, start: 0 }).kind,
            ),
    {
        let ghost old_model = self.model();
        let content = self.take_active_content();
        match content {
            Some(c) => {
                proof {
                    lemma_inlines_model(c@);
                }
                let start = c.len();
                self.put_active_content(c);
                let ghost before = self.model();
                assert(before == old_model);
                self.spans.push(InlineSpan { kind, start });
                assert(self.model().spans =~= old_model.spans.push(
                    span_model(InlineSpan { kind, start }),
                ));
            },
            None => {},
        }
    }
}


impl InlineSpan {
    /// Turns the inlines of `content` from the span's start on into the
    /// span's element.
    fn wrap(self, content: &mut Vec<Inline>)
        ensures
            inlines_model(final(content)@) == wrap(span_model(self), inlines_model(old(content)@)),
    {
        proof {
            lemma_inlines_model(content@);
        }
        let ghost old_model = inlines_model(content@);
        let start = if self.start <= content.len() { self.start } else { content.len() };
        let nested = content.split_off(start);
        proof {
            lemma_inlines_model(nested@);
            lemma_inlines_model(content@);
            assert(inlines_model(nested@) =~= old_model.subrange(start as int, old_model.len() as int));
            assert(inlines_model(content@) =~= old_model.take(start as int));
        }
        let wrapped = match self.kind {
            InlineSpanKind::Emphasis => Inline::Emphasis(nested),
            InlineSpanKind::Strong => Inline::Strong(nested),
            InlineSpanKind::Strikethrough => Inline::Strikethrough(nested),
            InlineSpanKind::Link(destination) => Inline::Link { content: nested, destination },
            InlineSpanKind::Image(destination) => Inline::Image { alt: nested, destination },
            InlineSpanKind::Autolink(destination) => Inline::Autolink(destination),
        };
        proof {
            lemma_inlines_model_push(content@, wrapped);
        }
        content.push(wrapped);
    }
}

fn copy_alignments(alignments: &Vec<TableAlignment>) -> (copy: Vec<TableAlignment>)
    ensures
        copy@ == alignments@,
{
    let mut copy: Vec<TableAlignment> = Vec::new();
    let mut i: usize = 0;
    while i < alignments.len()
        invariant
            i <= alignments.len(),
            copy@ == alignments@.take(i as int),
        decreases alignments.len() - i,
    {
        copy.push(alignments[i]);
        i = i + 1;
        assert(copy@ =~= alignments@.take(i as int));
    }
    assert(alignments@.take(i as int) =~= alignments@);
    copy
}

impl Builder {
    fn end_inline_span(&mut self)
        ensures
            final(self).model() == old(self).model().end_span(),
    {
        let ghost old_model = self.model();
        if self.spans.len() == 0 {
            return;
        }
        let span = self.spans.pop().unwrap();
        assert(self.model().spans =~= old_model.spans.drop_last());
        let ghost popped = self.model();
        match self.take_active_content() {
            Some(content) => {
                let mut content = content;
                span.wrap(&mut content);
                self.put_active_content(content);
            },
            None => {},
        }
    }

    fn start_item(&mut self)
        ensures
            final(self).model() == old(self).model().after_start(StartTag::Item),
    {
        let ghost old_model = self.model();
        if self.lists.len() == 0 {
            return;
        }
        let mut list = self.lists.pop().unwrap();
        list.current = Some(ListItem { task: None, blocks: Vec::new() });
        self.lists.push(list);
        self.active = Some(ActiveBlock::Paragraph(Vec::new()));
        assert(self.model().lists =~= old_model.after_start(StartTag::Item).lists);
        assert(blocks_model(Seq::<Block>::empty()) =~= Seq::<BlockModel>::empty());
    }

    fn start_table_part(&mut self, head: bool, row: bool)
        ensures
            head ==> final(self).model() == old(self).model().after_start(StartTag::TableHead),
            !head && row ==> final(self).model() == old(self).model().after_start(
                StartTag::TableRow,
            ),
            !head && !row ==> final(self).model() == old(self).model().after_start(
                StartTag::TableCell,
            ),
    {
        match self.table.take() {
            Some(table) => {
                let mut table = table;
                if head {
                    table.in_header = true;
                    table.current_row = Some(Vec::new());
                } else if row {
                    table.current_row = Some(Vec::new());
                } else {
                    table.current_cell = Some(Vec::new());
                }
                self.table = Some(table);
                assert(cells_model(Seq::<Vec<Inline>>::empty()) =~= Seq::<Seq<InlineModel>>::empty());
            },
            None => {},
        }
    }

    fn start_tag(&mut self, tag: &StartTag)
        ensures
            final(self).model() == old(self).model().after_start(*tag),
    {
        let ghost old_model = self.model();
        match tag {
            StartTag::Paragraph => {
                self.active = Some(ActiveBlock::Paragraph(Vec::new()));
            },
            StartTag::Heading(level) => {
                self.active = Some(ActiveBlock::Heading { level: *level, content: Vec::new() });
            },
            StartTag::BlockQuote => {
                self.flush_active_block();
                let ghost flushed = self.model();
                self.quotes.push(Vec::new());
                assert(self.model().quotes =~= flushed.quotes.push(seq![]));
            },
            StartTag::CodeBlock(fence) => {
                let language = match fence {
                    CodeFence::Fenced(language) => {
                        if !language.as_str().is_empty() {
                            Some(copy_string(language))
                        } else {
                            None
                        }
                    },
                    CodeFence::Indented => None,
                };
                self.code = Some((language, String::new()));
            },
            StartTag::List(start) => {
                self.flush_active_block();
                let ghost flushed = self.model();
                self.lists.push(ListContext { start: *start, items: Vec::new(), current: None });
                assert(items_model(Seq::<ListItem>::empty()) =~= Seq::<ListItemModel>::empty());
                assert(self.model().lists =~= flushed.lists.push(
                    ListModel { start: *start, items: seq![], current: None },
                ));
            },
            StartTag::Item => self.start_item(),
            StartTag::Table(alignments) => {
                let alignments = copy_alignments(alignments);
                self.table = Some(
                    TableContext {
                        alignments,
                        header: Vec::new(),
                        rows: Vec::new(),
                        current_row: None,
                        current_cell: None,
                        in_header: false,
                    },
                );
                assert(cells_model(Seq::<Vec<Inline>>::empty()) =~= Seq::<Seq<InlineModel>>::empty());
                assert(rows_model(Seq::<Vec<Vec<Inline>>>::empty()) =~= Seq::<
                    Seq<Seq<InlineModel>>,
                >::empty());
            },
            StartTag::TableHead => self.start_table_part(true, false),
            StartTag::TableRow => self.start_table_part(false, true),
            StartTag::TableCell => self.start_table_part(false, false),
            StartTag::Emphasis => self.start_inline_span(InlineSpanKind::Emphasis),
            StartTag::Strong => self.start_inline_span(InlineSpanKind::Strong),
            StartTag::Strikethrough => self.start_inline_span(InlineSpanKind::Strikethrough),
            StartTag::Link { kind, destination } => {
                let destination = copy_string(destination);
                if *kind == LinkKind::Written {
                    self.start_inline_span(InlineSpanKind::Link(destination));
                } else {
                    self.start_inline_span(InlineSpanKind::Autolink(destination));
                }
            },
            StartTag::Image { destination } => {
                let destination = copy_string(destination);
                self.start_inline_span(InlineSpanKind::Image(destination));
            },
            StartTag::Unhandled => {},
        }
    }
}


impl Builder {
    fn end_table_head(&mut self)
        ensures
            final(self).model() == old(self).model().after_end(EndTag::TableHead),
    {
        match self.table.take() {
            Some(table) => {
                let mut table = table;
                match table.current_row.take() {
                    Some(row) => {
                        table.header = row;
                    },
                    None => {},
                }
                table.in_header = false;
                self.table = Some(table);
            },
            None => {},
        }
    }

    fn end_table_row(&mut self)
        ensures
            final(self).model() == old(self).model().after_end(EndTag::TableRow),
    {
        match self.table.take() {
            Some(table) => {
                let mut table = table;
                match table.current_row.take() {
                    Some(row) => {
                        if table.in_header {
                            table.header = row;
                        } else {
                            let ghost old_rows = rows_model(table.rows@);
                            table.rows.push(row);
                            assert(rows_model(table.rows@) =~= old_rows.push(cells_model(row@)));
                        }
                    },
                    None => {},
                }
                self.table = Some(table);
            },
            None => {},
        }
    }

    fn end_table_cell(&mut self)
        ensures
            final(self).model() == old(self).model().after_end(EndTag::TableCell),
    {
        match self.table.take() {
            Some(table) => {
                let mut table = table;
                match table.current_cell.take() {
                    Some(cell) => {
                        match table.current_row.take() {
                            Some(row) => {
                                let mut row = row;
                                let ghost old_row = cells_model(row@);
                                row.push(cell);
                                assert(cells_model(row@) =~= old_row.push(inlines_model(cell@)));
                                table.current_row = Some(row);
                            },
                            None => {},
                        }
                    },
                    None => {},
                }
                self.table = Some(table);
            },
            None => {},
        }
    }

    fn end_table(&mut self)
        ensures
            final(self).model() == old(self).model().after_end(EndTag::Table),
    {
        match self.table.take() {
            Some(table) => {
                self.push_block(
                    Block::Table {
                        header: table.header,
                        rows: table.rows,
                        alignments: table.alignments,
                    },
                );
            },
            None => {},
        }
    }

    fn end_heading(&mut self)
        ensures
            final(self).model() == old(self).model().after_end(EndTag::Heading),
    {
        match self.active.take() {
            Some(ActiveBlock::Heading { level, content }) => {
                self.push_block(Block::Heading { level, content });
            },
            _ => {},
        }
    }

    fn end_paragraph(&mut self)
        ensures
            final(self).model() == old(self).model().after_end(EndTag::Paragraph),
    {
        match self.active.take() {
            Some(ActiveBlock::Paragraph(content)) => {
                self.push_block(Block::Paragraph(content));
            },
            _ => {},
        }
    }

    fn end_item(&mut self)
        ensures
            final(self).model() == old(self).model().after_end(EndTag::Item),
    {
        let ghost old_model = self.model();
        let has_item = self.lists.len() > 0 && self.lists[self.lists.len() - 1].current.is_some();
        match self.active.take() {
            Some(ActiveBlock::Paragraph(content)) => {
                proof {
                    lemma_inlines_model(content@);
                }
                if has_item && content.len() > 0 {
                    let mut list = self.lists.pop().unwrap();
                    let mut item = list.current.take().unwrap();
                    proof {
                        lemma_blocks_model_push(item.blocks@, Block::Paragraph(content));
                    }
                    item.blocks.push(Block::Paragraph(content));
                    list.current = Some(item);
                    self.lists.push(list);
                }
            },
            _ => {},
        }
        let ghost with_paragraph = self.model();
        assert(with_paragraph.lists =~= (match old_model.active {
            Some(ActiveModel::Paragraph(content)) => if old_model.lists.len() > 0
                && old_model.lists.last().current is Some && content.len() > 0 {
                old_model.lists.update(
                    old_model.lists.len() - 1,
                    ListModel {
                        current: Some(
                            ListItemModel {
                                blocks: old_model.lists.last().current->0.blocks.push(
                                    BlockModel::Paragraph(content),
                                ),
                                ..old_model.lists.last().current->0
                            },
                        ),
                        ..old_model.lists.last()
                    },
                )
            } else {
                old_model.lists
            },
            _ => old_model.lists,
        }));
        let has_item = self.lists.len() > 0 && self.lists[self.lists.len() - 1].current.is_some();
        if has_item {
            let mut list = self.lists.pop().unwrap();
            let item = list.current.take().unwrap();
            proof {
                lemma_items_model_push(list.items@, item);
            }
            list.items.push(item);
            self.lists.push(list);
            assert(self.model().lists =~= with_paragraph.lists.update(
                with_paragraph.lists.len() - 1,
                ListModel {
                    items: with_paragraph.lists.last().items.push(
                        with_paragraph.lists.last().current->0,
                    ),
                    current: None,
                    ..with_paragraph.lists.last()
                },
            ));
        }
    }

    fn end_list(&mut self)
        ensures
            final(self).model() == old(self).model().after_end(EndTag::List),
    {
        let ghost old_model = self.model();
        match self.lists.pop() {
            Some(list) => {
                assert(self.model().lists =~= old_model.lists.drop_last());
                self.push_block(Block::List { start: list.start, items: list.items });
            },
            None => {},
        }
    }

    fn end_block_quote(&mut self)
        ensures
            final(self).model() == old(self).model().after_end(EndTag::BlockQuote),
    {
        let ghost old_model = self.model();
        match self.quotes.pop() {
            Some(quoted) => {
                assert(self.model().quotes =~= old_model.quotes.drop_last());
                self.push_block(Block::BlockQuote(quoted));
            },
            None => {},
        }
    }

    fn end_code_block(&mut self)
        ensures
            final(self).model() == old(self).model().after_end(EndTag::CodeBlock),
    {
        match self.code.take() {
            Some((language, content)) => {
                self.push_block(Block::CodeBlock { language, content });
            },
            None => {},
        }
    }

    fn end_tag(&mut self, tag: EndTag)
        ensures
            final(self).model() == old(self).model().after_end(tag),
    {
        match tag {
            EndTag::Link | EndTag::Image | EndTag::Emphasis | EndTag::Strong
            | EndTag::Strikethrough => self.end_inline_span(),
            EndTag::TableHead => self.end_table_head(),
            EndTag::TableRow => self.end_table_row(),
            EndTag::TableCell => self.end_table_cell(),
            EndTag::Table => self.end_table(),
            EndTag::Heading => self.end_heading(),
            EndTag::Paragraph => self.end_paragraph(),
            EndTag::Item => self.end_item(),
            EndTag::List => self.end_list(),
            EndTag::BlockQuote => self.end_block_quote(),
            EndTag::CodeBlock => self.end_code_block(),
            EndTag::Unhandled => {},
        }
    }

    fn text(&mut self, text: &String)
        ensures
            final(self).model() == old(self).model().after_event(MarkdownEvent::Text(*text)),
    {
        match self.code.take() {
            Some((language, content)) => {
                let mut content = content;
                crate::text::push_str(&mut content, text.as_str());
                self.code = Some((language, content));
                return;
            },
            None => {},
        }
        if self.in_table_cell() {
            let mut table = self.table.take().unwrap();
            let mut cell = table.current_cell.take().unwrap();
            let inline = Inline::Text(copy_string(text));
            proof {
                lemma_inlines_model_push(cell@, inline);
            }
            cell.push(inline);
            table.current_cell = Some(cell);
            self.table = Some(table);
        } else {
            self.push_inline(Inline::Text(copy_string(text)));
        }
    }

    fn code(&mut self, code: &String)
        ensures
            final(self).model() == old(self).model().after_event(MarkdownEvent::Code(*code)),
    {
        match self.take_active_content() {
            Some(content) => {
                let mut content = content;
                let inline = Inline::Code(copy_string(code));
                proof {
                    lemma_inlines_model_push(content@, inline);
                }
                content.push(inline);
                self.put_active_content(content);
            },
            None => {},
        }
    }

    fn task_list_marker(&mut self, checked: bool)
        ensures
            final(self).model() == old(self).model().after_event(
                MarkdownEvent::TaskListMarker(checked),
            ),
    {
        let ghost old_model = self.model();
        let has_item = self.lists.len() > 0 && self.lists[self.lists.len() - 1].current.is_some();
        if has_item {
            let mut list = self.lists.pop().unwrap();
            let mut item = list.current.take().unwrap();
            item.task = Some(checked);
            list.current = Some(item);
            self.lists.push(list);
            assert(self.model().lists =~= old_model.after_event(
                MarkdownEvent::TaskListMarker(checked),
            ).lists);
        }
    }

    fn event(&mut self, event: &MarkdownEvent)
        ensures
            final(self).model() == old(self).model().after_event(*event),
    {
        match event {
            MarkdownEvent::Start(tag) => self.start_tag(tag),
            MarkdownEvent::End(tag) => self.end_tag(*tag),
            MarkdownEvent::Text(text) => self.text(text),
            MarkdownEvent::Code(code) => self.code(code),
            MarkdownEvent::SoftBreak => self.push_inline(Inline::SoftBreak),
            MarkdownEvent::HardBreak => self.push_inline(Inline::HardBreak),
            MarkdownEvent::Html(html) => self.push_block(Block::Html(copy_string(html))),
            MarkdownEvent::InlineHtml(html) => self.push_inline(Inline::Html(copy_string(html))),
            MarkdownEvent::Rule => self.push_block(Block::ThematicBreak),
            MarkdownEvent::TaskListMarker(checked) => self.task_list_marker(*checked),
            MarkdownEvent::Unhandled => {},
        }
    }
}

/// The document that a Markdown event stream describes: headings and
/// paragraphs collect inline content, lists and quotes nest, tables collect
/// their cells, and inline spans wrap the content written inside them.
pub fn document_from_events(events: &Vec<MarkdownEvent>) -> (document: Document)
    ensures
        document_model(document) == built_blocks(events@),
{
    let mut builder = Builder::new();
    let mut i: usize = 0;
    while i < events.len()
        invariant
            i <= events.len(),
            builder.model() == build_state(events@.take(i as int)),
        decreases events.len() - i,
    {
        assert(events@.take(i + 1).drop_last() =~= events@.take(i as int));
        assert(events@.take(i + 1).last() == events@[i as int]);
        builder.event(&events[i]);
        i = i + 1;
    }
    assert(events@.take(i as int) =~= events@);
    Document::new(builder.blocks)
}


// ---------------------------------------------------------------------------
// pulldown-cmark

#[verifier::external_type_specification]
#[verifier::external_body]
pub struct ExParserEvent<'a>(Event<'a>);

#[verifier::external_type_specification]
#[verifier::external_body]
pub struct ExParserTag<'a>(Tag<'a>);

#[verifier::external_type_specification]
#[verifier::external_body]
pub struct ExParserTagEnd(TagEnd);

#[verifier::external_type_specification]
#[verifier::external_body]
pub struct ExParserHeadingLevel(ParserHeadingLevel);

#[verifier::external_type_specification]
#[verifier::external_body]
pub struct ExParserAlignment(Alignment);

#[verifier::external_type_specification]
#[verifier::external_body]
pub struct ExParserCodeBlockKind<'a>(CodeBlockKind<'a>);

/// The event stream that pulldown-cmark's `Parser::new_ext` yields for a
/// source with these characters, with task lists, tables and strikethrough
/// enabled, each event converted one for one into a [`MarkdownEvent`].
pub uninterp spec fn gfm_events(source: Seq<char>) -> Seq<MarkdownEvent>;

/// Runs pulldown-cmark's `Parser::new_ext` over `source` (task lists, tables,
/// strikethrough) and converts each event. The contract names the stream;
/// CommonMark and GFM parsing stay unstated.
#[verifier::external_body]
fn parse_events(source: &str) -> (events: Vec<MarkdownEvent>)
    ensures
        events@ == gfm_events(source@),
{
    let options = Options::ENABLE_TASKLISTS | Options::ENABLE_TABLES
        | Options::ENABLE_STRIKETHROUGH;
    let mut events = Vec::new();
    for event in Parser::new_ext(source, options) {
        events.push(event_from_parser(event));
    }
    events
}

/// Converts a pulldown-cmark `Event`, variant for variant.
#[verifier::external_body]
fn event_from_parser(event: Event<'_>) -> MarkdownEvent {
    match event {
        Event::Start(tag) => MarkdownEvent::Start(start_tag_from_parser(tag)),
        Event::End(tag) => MarkdownEvent::End(end_tag_from_parser(tag)),
        Event::Text(text) => MarkdownEvent::Text(text.into_string()),
        Event::Code(code) => MarkdownEvent::Code(code.into_string()),
        Event::Html(html) => MarkdownEvent::Html(html.into_string()),
        Event::InlineHtml(html) => MarkdownEvent::InlineHtml(html.into_string()),
        Event::SoftBreak => MarkdownEvent::SoftBreak,
        Event::HardBreak => MarkdownEvent::HardBreak,
        Event::Rule => MarkdownEvent::Rule,
        Event::TaskListMarker(checked) => MarkdownEvent::TaskListMarker(checked),
        _ => MarkdownEvent::Unhandled,
    }
}

/// Converts a pulldown-cmark block-level `Tag`, variant for variant.
#[verifier::external_body]
fn start_tag_from_parser(tag: Tag<'_>) -> StartTag {
    match tag {
        Tag::Paragraph => StartTag::Paragraph,
        Tag::Heading { level, .. } => StartTag::Heading(heading_level(level)),
        Tag::BlockQuote(_) => StartTag::BlockQuote,
        Tag::CodeBlock(kind) => StartTag::CodeBlock(code_fence(kind)),
        Tag::List(start) => StartTag::List(start),
        Tag::Item => StartTag::Item,
        Tag::Table(alignments) => StartTag::Table(alignments.into_iter().map(table_alignment).collect()),
        Tag::TableHead => StartTag::TableHead,
        Tag::TableRow => StartTag::TableRow,
        Tag::TableCell => StartTag::TableCell,
        inline => inline_start_tag_from_parser(inline),
    }
}

/// Converts a pulldown-cmark inline-level `Tag`, variant for variant.
#[verifier::external_body]
fn inline_start_tag_from_parser(tag: Tag<'_>) -> StartTag {
    match tag {
        Tag::Emphasis => StartTag::Emphasis,
        Tag::Strong => StartTag::Strong,
        Tag::Strikethrough => StartTag::Strikethrough,
        Tag::Link { link_type: LinkType::Autolink, dest_url, .. } => StartTag::Link { kind: LinkKind::Autolink, destination: dest_url.into_string() },
        Tag::Link { link_type: LinkType::Email, dest_url, .. } => StartTag::Link { kind: LinkKind::Email, destination: dest_url.into_string() },
        Tag::Link { dest_url, .. } => StartTag::Link { kind: LinkKind::Written, destination: dest_url.into_string() },
        Tag::Image { dest_url, .. } => StartTag::Image { destination: dest_url.into_string() },
        _ => StartTag::Unhandled,
    }
}

/// Converts a pulldown-cmark block-level `TagEnd`, variant for variant.
#[verifier::external_body]
fn end_tag_from_parser(tag: TagEnd) -> EndTag {
    match tag {
        TagEnd::Paragraph => EndTag::Paragraph,
        TagEnd::Heading(_) => EndTag::Heading,
        TagEnd::BlockQuote(_) => EndTag::BlockQuote,
        TagEnd::CodeBlock => EndTag::CodeBlock,
        TagEnd::List(_) => EndTag::List,
        TagEnd::Item => EndTag::Item,
        TagEnd::Table => EndTag::Table,
        TagEnd::TableHead => EndTag::TableHead,
        TagEnd::TableRow => EndTag::TableRow,
        TagEnd::TableCell => EndTag::TableCell,
        inline => inline_end_tag_from_parser(inline),
    }
}

/// Converts a pulldown-cmark inline-level `TagEnd`, variant for variant.
#[verifier::external_body]
fn inline_end_tag_from_parser(tag: TagEnd) -> EndTag {
    match tag {
        TagEnd::Emphasis => EndTag::Emphasis,
        TagEnd::Strong => EndTag::Strong,
        TagEnd::Strikethrough => EndTag::Strikethrough,
        TagEnd::Link => EndTag::Link,
        TagEnd::Image => EndTag::Image,
        _ => EndTag::Unhandled,
    }
}

/// Converts a pulldown-cmark `HeadingLevel`, variant for variant.
#[verifier::external_body]
fn heading_level(level: ParserHeadingLevel) -> HeadingLevel {
    match level {
        ParserHeadingLevel::H1 => HeadingLevel::One,
        ParserHeadingLevel::H2 => HeadingLevel::Two,
        ParserHeadingLevel::H3 => HeadingLevel::Three,
        ParserHeadingLevel::H4 => HeadingLevel::Four,
        ParserHeadingLevel::H5 => HeadingLevel::Five,
        ParserHeadingLevel::H6 => HeadingLevel::Six,
    }
}

/// Converts a pulldown-cmark `Alignment`, variant for variant.
#[verifier::external_body]
fn table_alignment(alignment: Alignment) -> TableAlignment {
    match alignment {
        Alignment::None => TableAlignment::Unaligned,
        Alignment::Left => TableAlignment::Left,
        Alignment::Center => TableAlignment::Center,
        Alignment::Right => TableAlignment::Right,
    }
}

/// Converts a pulldown-cmark `CodeBlockKind`, variant for variant.
#[verifier::external_body]
fn code_fence(kind: CodeBlockKind<'_>) -> CodeFence {
    match kind {
        CodeBlockKind::Indented => CodeFence::Indented,
        CodeBlockKind::Fenced(info) => CodeFence::Fenced(info.into_string()),
    }
}

/// Parses Markdown (CommonMark with GFM tables, task lists and
/// strikethrough) into the document model.
pub fn parse(source: &str) -> (document: Document)
    ensures
        document_model(document) == built_blocks(gfm_events(source@)),
{
    let events = parse_events(source);
    document_from_events(&events)
}

} // verus!
