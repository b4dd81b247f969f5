//! The Markdown document model (blocks and inlines, free of any rendering
//! types) and the queries the viewer makes of it: plain text, headings with
//! their anchors, link destinations and case-insensitive search.

use vstd::prelude::*;

use crate::text::{
    char_is_alphanumeric, char_is_whitespace, char_lowercase, char_to_lowercase, chars_of,
    contains_chars, decimal, decimal_string, digit_char, is_alphanumeric, is_whitespace, push_char, push_str,
    occurs_at, seq_contains, str_lowercase, string_from_chars, to_lowercase,
};

verus! {

#[derive(Clone, Copy, Debug, PartialEq, Eq, Structural)]
pub enum HeadingLevel {
    One,
    Two,
    Three,
    Four,
    Five,
    Six,
}

#[derive(Clone, Copy, Debug, PartialEq, Eq, Structural)]
pub enum TableAlignment {
    Unaligned,
    Left,
    Center,
    Right,
}

#[derive(Debug, PartialEq, Eq)]
pub enum Inline {
    Text(String),
    Emphasis(Vec<Inline>),
    Strong(Vec<Inline>),
    Strikethrough(Vec<Inline>),
    Code(String),
    Link { content: Vec<Inline>, destination: String },
    Image { alt: Vec<Inline>, destination: String },
    Autolink(String),
    SoftBreak,
    HardBreak,
    Html(String),
}

#[derive(Debug, PartialEq, Eq)]
#[allow(inconsistent_fields)]
pub enum Block {
    Heading { level: HeadingLevel, content: Vec<Inline> },
    Paragraph(Vec<Inline>),
    List { start: Option<u64>, items: Vec<ListItem> },
    BlockQuote(Vec<Block>),
    CodeBlock { language: Option<String>, content: String },
    Table {
        header: Vec<Vec<Inline>>,
        rows: Vec<Vec<Vec<Inline>>>,
        alignments: Vec<TableAlignment>,
    },
    ThematicBreak,
    Html(String),
}

#[derive(Debug, PartialEq, Eq)]
pub struct ListItem {
    pub task: Option<bool>,
    pub blocks: Vec<Block>,
}

/// A parsed document: its top-level blocks in order.
#[derive(Debug, Default, PartialEq, Eq)]
pub struct Document {
    blocks: Vec<Block>,
}

// ---------------------------------------------------------------------------
// Plain text

/// The text of an inline, with markup removed and line breaks as spaces.
pub open spec fn inline_text(inline: Inline) -> Seq<char>
    decreases inline,
{
    match inline {
        Inline::Text(v) => v@,
        Inline::Autolink(v) => v@,
        Inline::Code(v) => v@,
        Inline::Html(v) => v@,
        Inline::Link { content, .. } => inlines_text(content@),
        Inline::Image { alt, .. } => inlines_text(alt@),
        Inline::Emphasis(c) => inlines_text(c@),
        Inline::Strong(c) => inlines_text(c@),
        Inline::Strikethrough(c) => inlines_text(c@),
        Inline::SoftBreak => seq![' '],
        Inline::HardBreak => seq![' '],
    }
}

/// The text of a run of inlines: their texts one after another.
pub open spec fn inlines_text(inlines: Seq<Inline>) -> Seq<char>
    decreases inlines,
{
    if inlines.len() == 0 {
        seq![]
    } else {
        inlines_text(inlines.drop_last()) + inline_text(inlines.last())
    }
}

/// `parts` joined with single spaces between them.
pub open spec fn join_with_spaces(parts: Seq<Seq<char>>) -> Seq<char>
    decreases parts.len(),
{
    if parts.len() == 0 {
        seq![]
    } else if parts.len() == 1 {
        parts[0]
    } else {
        join_with_spaces(parts.drop_last()) + seq![' '] + parts.last()
    }
}

/// The searchable text of a block. Nested blocks and table cells are joined
/// with single spaces; code and HTML keep their source text.
pub open spec fn block_text(block: Block) -> Seq<char>
    decreases block,
{
    match block {
        Block::Heading { content, .. } => inlines_text(content@),
        Block::Paragraph(content) => inlines_text(content@),
        Block::List { items, .. } => join_with_spaces(items_texts(items@)),
        Block::BlockQuote(blocks) => join_with_spaces(blocks_texts(blocks@)),
        Block::CodeBlock { content, .. } => content@,
        Block::Html(content) => content@,
        Block::Table { header, rows, .. } => join_with_spaces(
            cells_texts(header@) + rows_texts(rows@),
        ),
        Block::ThematicBreak => seq![],
    }
}

/// The texts of a sequence of blocks.
pub open spec fn blocks_texts(blocks: Seq<Block>) -> Seq<Seq<char>>
    decreases blocks,
{
    if blocks.len() == 0 {
        seq![]
    } else {
        blocks_texts(blocks.drop_last()).push(block_text(blocks.last()))
    }
}

/// The texts of all blocks of all list items, item after item.
pub open spec fn items_texts(items: Seq<ListItem>) -> Seq<Seq<char>>
    decreases items,
{
    if items.len() == 0 {
        seq![]
    } else {
        items_texts(items.drop_last()) + blocks_texts(items.last().blocks@)
    }
}

/// The texts of a row of table cells.
pub open spec fn cells_texts(cells: Seq<Vec<Inline>>) -> Seq<Seq<char>>
    decreases cells.len(),
{
    if cells.len() == 0 {
        seq![]
    } else {
        cells_texts(cells.drop_last()).push(inlines_text(cells.last()@))
    }
}

/// The texts of the cells of table rows, row after row.
pub open spec fn rows_texts(rows: Seq<Vec<Vec<Inline>>>) -> Seq<Seq<char>>
    decreases rows.len(),
{
    if rows.len() == 0 {
        seq![]
    } else {
        rows_texts(rows.drop_last()) + cells_texts(rows.last()@)
    }
}

pub open spec fn string_views(strings: Seq<String>) -> Seq<Seq<char>> {
    strings.map_values(|s: String| s@)
}

/// The text of inline content; see [`inlines_text`].
pub fn inline_plain_text(inlines: &Vec<Inline>) -> (text: String)
    ensures
        text@ == inlines_text(inlines@),
    decreases inlines@,
{
    let mut text = String::new();
    let mut i: usize = 0;
    while i < inlines.len()
        invariant
            i <= inlines.len(),
            text@ == inlines_text(inlines@.take(i as int)),
        decreases inlines.len() - i,
    {
        assert(inlines@.take(i + 1).drop_last() =~= inlines@.take(i as int));
        assert(inlines@.take(i + 1).last() == inlines@[i as int]);
        let piece: String = match &inlines[i] {
            Inline::Text(v) => copy_string(v),
            Inline::Autolink(v) => copy_string(v),
            Inline::Code(v) => copy_string(v),
            Inline::Html(v) => copy_string(v),
            Inline::Link { content, .. } => inline_plain_text(content),
            Inline::Image { alt, .. } => inline_plain_text(alt),
            Inline::Emphasis(c) => inline_plain_text(c),
            Inline::Strong(c) => inline_plain_text(c),
            Inline::Strikethrough(c) => inline_plain_text(c),
            Inline::SoftBreak => single_char_string(' '),
            Inline::HardBreak => single_char_string(' '),
        };
        assert(piece@ == inline_text(inlines@[i as int]));
        push_str(&mut text, &piece);
        i = i + 1;
    }
    assert(inlines@.take(i as int) =~= inlines@);
    text
}

/// `parts` joined with single spaces; see [`join_with_spaces`].
pub fn join_strings_with_spaces(parts: &Vec<String>) -> (joined: String)
    ensures
        joined@ == join_with_spaces(string_views(parts@)),
{
    let mut joined = String::new();
    let mut i: usize = 0;
    while i < parts.len()
        invariant
            i <= parts.len(),
            joined@ == join_with_spaces(string_views(parts@.take(i as int))),
        decreases parts.len() - i,
    {
        assert(string_views(parts@.take(i + 1)).drop_last() =~= string_views(
            parts@.take(i as int),
        ));
        if i > 0 {
            push_char(&mut joined, ' ');
        }
        push_str(&mut joined, &parts[i]);
        i = i + 1;
    }
    assert(parts@.take(i as int) =~= parts@);
    joined
}

/// Appends the texts of `blocks` to `parts`.
fn push_blocks_texts(blocks: &Vec<Block>, parts: &mut Vec<String>)
    ensures
        string_views(final(parts)@) == string_views(old(parts)@) + blocks_texts(blocks@),
    decreases blocks@, 0nat,
{
    let mut i: usize = 0;
    while i < blocks.len()
        invariant
            i <= blocks.len(),
            string_views(parts@) == string_views(old(parts)@) + blocks_texts(
                blocks@.take(i as int),
            ),
        decreases blocks.len() - i,
    {
        assert(blocks@.take(i + 1).drop_last() =~= blocks@.take(i as int));
        assert(blocks@.take(i + 1).last() == blocks@[i as int]);
        let text = block_plain_text(&blocks[i]);
        let ghost before = string_views(parts@);
        parts.push(text);
        assert(string_views(parts@) =~= before.push(text@));
        i = i + 1;
        assert(string_views(parts@) =~= string_views(old(parts)@) + blocks_texts(
            blocks@.take(i as int),
        ));
    }
    assert(blocks@.take(i as int) =~= blocks@);
}

/// Appends the texts of a row of cells to `parts`.
fn push_cells_texts(cells: &Vec<Vec<Inline>>, parts: &mut Vec<String>)
    ensures
        string_views(final(parts)@) == string_views(old(parts)@) + cells_texts(cells@),
{
    let mut i: usize = 0;
    while i < cells.len()
        invariant
            i <= cells.len(),
            string_views(parts@) == string_views(old(parts)@) + cells_texts(
                cells@.take(i as int),
            ),
        decreases cells.len() - i,
    {
        assert(cells@.take(i + 1).drop_last() =~= cells@.take(i as int));
        assert(cells@.take(i + 1).last() == cells@[i as int]);
        let text = inline_plain_text(&cells[i]);
        let ghost before = string_views(parts@);
        parts.push(text);
        assert(string_views(parts@) =~= before.push(text@));
        i = i + 1;
        assert(string_views(parts@) =~= string_views(old(parts)@) + cells_texts(
            cells@.take(i as int),
        ));
    }
    assert(cells@.take(i as int) =~= cells@);
}

/// The searchable text of a block; see [`block_text`].
#[verifier::loop_isolation(false)]
pub fn block_plain_text(block: &Block) -> (text: String)
    ensures
        text@ == block_text(*block),
    decreases *block, 1nat,
{
    match block {
        Block::Heading { content, .. } => inline_plain_text(content),
        Block::Paragraph(content) => inline_plain_text(content),
        Block::List { items, .. } => {
            let mut parts: Vec<String> = Vec::new();
            let mut i: usize = 0;
            while i < items.len()
                invariant
                    i <= items.len(),
                    string_views(parts@) == items_texts(items@.take(i as int)),
                decreases items.len() - i,
            {
                assert(items@.take(i + 1).drop_last() =~= items@.take(i as int));
                assert(items@.take(i + 1).last() == items@[i as int]);
                proof {
                    let item = items@[i as int];
                    assert(decreases_to!(*block => (*block)->items));
                    assert((*block)->items == *items);
                    assert(decreases_to!(*items => items@));
                    assert(decreases_to!(items@ => item));
                    assert(decreases_to!(item => item.blocks));
                    assert(decreases_to!(item.blocks => item.blocks@));
                    assert(decreases_to!(*block => item.blocks@));
                }
                push_blocks_texts(&items[i].blocks, &mut parts);
                i = i + 1;
            }
            assert(items@.take(i as int) =~= items@);
            join_strings_with_spaces(&parts)
        },
        Block::BlockQuote(blocks) => {
            let mut parts: Vec<String> = Vec::new();
            push_blocks_texts(blocks, &mut parts);
            assert(string_views(parts@) =~= blocks_texts(blocks@));
            join_strings_with_spaces(&parts)
        },
        Block::CodeBlock { content, .. } => copy_string(content),
        Block::Html(content) => copy_string(content),
        Block::Table { header, rows, .. } => {
            let mut parts: Vec<String> = Vec::new();
            push_cells_texts(header, &mut parts);
            assert(string_views(parts@) =~= cells_texts(header@));
            let mut i: usize = 0;
            while i < rows.len()
                invariant
                    i <= rows.len(),
                    string_views(parts@) == cells_texts(header@) + rows_texts(
                        rows@.take(i as int),
                    ),
                decreases rows.len() - i,
            {
                assert(rows@.take(i + 1).drop_last() =~= rows@.take(i as int));
                push_cells_texts(&rows[i], &mut parts);
                i = i + 1;
            }
            assert(rows@.take(i as int) =~= rows@);
            join_strings_with_spaces(&parts)
        },
        Block::ThematicBreak => String::new(),
    }
}

/// The string of one character.
pub fn single_char_string(c: char) -> (s: String)
    ensures
        s@ == seq![c],
{
    let mut s = String::new();
    push_char(&mut s, c);
    assert(s@ =~= seq![c]);
    s
}

/// A fresh string with the same characters.
pub fn copy_string(s: &String) -> (copy: String)
    ensures
        copy@ == s@,
{
    let mut copy = String::new();
    push_str(&mut copy, s);
    copy
}

// ---------------------------------------------------------------------------
// Search

/// Block `block` matches an already lowercased query.
pub open spec fn block_matches(block: Block, lower_query: Seq<char>) -> bool {
    seq_contains(str_lowercase(block_text(block)), lower_query)
}

/// The indices of the blocks that match, in order.
pub open spec fn matching_blocks(blocks: Seq<Block>, lower_query: Seq<char>) -> Seq<usize>
    decreases blocks.len(),
{
    if blocks.len() == 0 {
        seq![]
    } else {
        let earlier = matching_blocks(blocks.drop_last(), lower_query);
        if block_matches(blocks.last(), lower_query) {
            earlier.push((blocks.len() - 1) as usize)
        } else {
            earlier
        }
    }
}

/// Case-insensitive search: the blocks whose lowercased text contains the
/// lowercased query; an empty query matches nothing.
pub open spec fn search(blocks: Seq<Block>, query: Seq<char>) -> Seq<usize> {
    if str_lowercase(query).len() == 0 {
        seq![]
    } else {
        matching_blocks(blocks, str_lowercase(query))
    }
}

/// Page search ignores case: queries that lowercase alike find the same blocks.
pub proof fn law_search_ignores_case(blocks: Seq<Block>, q1: Seq<char>, q2: Seq<char>)
    requires
        str_lowercase(q1) == str_lowercase(q2),
    ensures
        search(blocks, q1) == search(blocks, q2),
{
}

/// Each part stands whole in the parts joined with spaces, at the offset
/// returned.
proof fn lemma_join_holds_part(parts: Seq<Seq<char>>, m: int) -> (k: int)
    requires
        0 <= m < parts.len(),
    ensures
        occurs_at(join_with_spaces(parts), parts[m], k),
    decreases parts.len(),
{
    if parts.len() == 1 {
        assert(join_with_spaces(parts).subrange(0, parts[m].len() as int) =~= parts[m]);
        0
    } else {
        let earlier = join_with_spaces(parts.drop_last());
        let joined = join_with_spaces(parts);
        assert(joined == earlier + seq![' '] + parts.last());
        if m == parts.len() - 1 {
            let k: int = earlier.len() as int + 1;
            assert(joined.subrange(k, k + parts[m].len()) =~= parts[m]);
            k
        } else {
            let k = lemma_join_holds_part(parts.drop_last(), m);
            assert(parts.drop_last()[m] == parts[m]);
            assert(joined.subrange(k, k + parts[m].len()) =~= earlier.subrange(k, k + parts[m].len()));
            k
        }
    }
}

/// The texts of blocks are the blocks' texts, one for each block.
proof fn lemma_blocks_texts(blocks: Seq<Block>)
    ensures
        blocks_texts(blocks).len() == blocks.len(),
        forall|j: int| 0 <= j < blocks.len() ==> #[trigger] blocks_texts(blocks)[j] == block_text(blocks[j]),
    decreases blocks.len(),
{
    if blocks.len() > 0 {
        lemma_blocks_texts(blocks.drop_last());
        assert forall|j: int| 0 <= j < blocks.len() implies #[trigger] blocks_texts(blocks)[j] == block_text(
            blocks[j],
        ) by {
            if j < blocks.len() - 1 {
                assert(blocks.drop_last()[j] == blocks[j]);
            }
        }
    }
}

/// The text of block `j` of item `i` is among the texts of the items, at
/// the position returned.
proof fn lemma_items_texts_hold(items: Seq<ListItem>, i: int, j: int) -> (n: int)
    requires
        0 <= i < items.len(),
        0 <= j < items[i].blocks@.len(),
    ensures
        0 <= n < items_texts(items).len(),
        items_texts(items)[n] == block_text(items[i].blocks@[j]),
    decreases items.len(),
{
    let earlier = items_texts(items.drop_last());
    lemma_blocks_texts(items.last().blocks@);
    if i == items.len() - 1 {
        earlier.len() as int + j
    } else {
        assert(items.drop_last()[i] == items[i]);
        lemma_items_texts_hold(items.drop_last(), i, j)
    }
}

/// The searchable text of a list holds the text of every block of every
/// item whole, so whatever occurs in an item's text occurs in the list's.
pub proof fn law_list_text_holds_item_texts(start: Option<u64>, items: Vec<ListItem>, i: int, j: int, needle: Seq<char>)
    requires
        0 <= i < items@.len(),
        0 <= j < items@[i].blocks@.len(),
    ensures
        seq_contains(block_text(Block::List { start, items }), block_text(items@[i].blocks@[j])),
        seq_contains(block_text(items@[i].blocks@[j]), needle) ==> seq_contains(
            block_text(Block::List { start, items }),
            needle,
        ),
{
    let list_text = block_text(Block::List { start, items });
    let part = block_text(items@[i].blocks@[j]);
    let n = lemma_items_texts_hold(items@, i, j);
    let k = lemma_join_holds_part(items_texts(items@), n);
    assert(list_text == join_with_spaces(items_texts(items@)));
    assert(occurs_at(list_text, part, k));
    if seq_contains(part, needle) {
        let p = choose|p: int| occurs_at(part, needle, p);
        assert(list_text.subrange(k + p, k + p + needle.len()) =~= part.subrange(p, p + needle.len()));
        assert(occurs_at(list_text, needle, k + p));
    }
}

// ---------------------------------------------------------------------------
// Links

pub open spec fn inline_links(inline: Inline) -> Seq<Seq<char>>
    decreases inline,
{
    match inline {
        Inline::Link { content, destination } => seq![destination@] + inlines_links(content@),
        Inline::Image { alt, .. } => inlines_links(alt@),
        Inline::Emphasis(c) => inlines_links(c@),
        Inline::Strong(c) => inlines_links(c@),
        Inline::Strikethrough(c) => inlines_links(c@),
        _ => seq![],
    }
}

/// The destinations of the links in a run of inlines, outer before nested,
/// in reading order. Autolinks and images contribute none of their own.
pub open spec fn inlines_links(inlines: Seq<Inline>) -> Seq<Seq<char>>
    decreases inlines,
{
    if inlines.len() == 0 {
        seq![]
    } else {
        inlines_links(inlines.drop_last()) + inline_links(inlines.last())
    }
}

pub open spec fn block_links(block: Block) -> Seq<Seq<char>>
    decreases block,
{
    match block {
        Block::Heading { content, .. } => inlines_links(content@),
        Block::Paragraph(content) => inlines_links(content@),
        Block::List { items, .. } => items_links(items@),
        Block::BlockQuote(blocks) => blocks_links(blocks@),
        Block::Table { header, rows, .. } => cells_links(header@) + rows_links(rows@),
        _ => seq![],
    }
}

/// The link destinations of a sequence of blocks, in document order.
pub open spec fn blocks_links(blocks: Seq<Block>) -> Seq<Seq<char>>
    decreases blocks,
{
    if blocks.len() == 0 {
        seq![]
    } else {
        blocks_links(blocks.drop_last()) + block_links(blocks.last())
    }
}

pub open spec fn items_links(items: Seq<ListItem>) -> Seq<Seq<char>>
    decreases items,
{
    if items.len() == 0 {
        seq![]
    } else {
        items_links(items.drop_last()) + blocks_links(items.last().blocks@)
    }
}

pub open spec fn cells_links(cells: Seq<Vec<Inline>>) -> Seq<Seq<char>>
    decreases cells.len(),
{
    if cells.len() == 0 {
        seq![]
    } else {
        cells_links(cells.drop_last()) + inlines_links(cells.last()@)
    }
}

pub open spec fn rows_links(rows: Seq<Vec<Vec<Inline>>>) -> Seq<Seq<char>>
    decreases rows.len(),
{
    if rows.len() == 0 {
        seq![]
    } else {
        rows_links(rows.drop_last()) + cells_links(rows.last()@)
    }
}

pub open spec fn str_views(strs: Seq<&str>) -> Seq<Seq<char>> {
    strs.map_values(|s: &str| s@)
}

fn collect_inline_links<'a>(inlines: &'a Vec<Inline>, destinations: &mut Vec<&'a str>)
    ensures
        str_views(final(destinations)@) == str_views(old(destinations)@) + inlines_links(
            inlines@,
        ),
    decreases inlines@,
{
    let mut i: usize = 0;
    while i < inlines.len()
        invariant
            i <= inlines.len(),
            str_views(destinations@) == str_views(old(destinations)@) + inlines_links(
                inlines@.take(i as int),
            ),
        decreases inlines.len() - i,
    {
        assert(inlines@.take(i + 1).drop_last() =~= inlines@.take(i as int));
        assert(inlines@.take(i + 1).last() == inlines@[i as int]);
        let ghost before = str_views(destinations@);
        match &inlines[i] {
            Inline::Link { content, destination } => {
                destinations.push(destination.as_str());
                assert(str_views(destinations@) =~= before.push(destination@));
                collect_inline_links(content, destinations);
                assert(str_views(destinations@) =~= before + inline_links(inlines@[i as int]));
            },
            Inline::Image { alt, .. } => collect_inline_links(alt, destinations),
            Inline::Emphasis(c) => collect_inline_links(c, destinations),
            Inline::Strong(c) => collect_inline_links(c, destinations),
            Inline::Strikethrough(c) => collect_inline_links(c, destinations),
            _ => {
                assert(str_views(destinations@) =~= before + inline_links(inlines@[i as int]));
            },
        }
        i = i + 1;
        assert(str_views(destinations@) =~= str_views(old(destinations)@) + inlines_links(
            inlines@.take(i as int),
        ));
    }
    assert(inlines@.take(i as int) =~= inlines@);
}

fn collect_cells_links<'a>(cells: &'a Vec<Vec<Inline>>, destinations: &mut Vec<&'a str>)
    ensures
        str_views(final(destinations)@) == str_views(old(destinations)@) + cells_links(cells@),
{
    let mut i: usize = 0;
    while i < cells.len()
        invariant
            i <= cells.len(),
            str_views(destinations@) == str_views(old(destinations)@) + cells_links(
                cells@.take(i as int),
            ),
        decreases cells.len() - i,
    {
        assert(cells@.take(i + 1).drop_last() =~= cells@.take(i as int));
        assert(cells@.take(i + 1).last() == cells@[i as int]);
        collect_inline_links(&cells[i], destinations);
        i = i + 1;
        assert(str_views(destinations@) =~= str_views(old(destinations)@) + cells_links(
            cells@.take(i as int),
        ));
    }
    assert(cells@.take(i as int) =~= cells@);
}

fn collect_blocks_links<'a>(blocks: &'a Vec<Block>, destinations: &mut Vec<&'a str>)
    ensures
        str_views(final(destinations)@) == str_views(old(destinations)@) + blocks_links(blocks@),
    decreases blocks@, 0nat,
{
    let mut i: usize = 0;
    while i < blocks.len()
        invariant
            i <= blocks.len(),
            str_views(destinations@) == str_views(old(destinations)@) + blocks_links(
                blocks@.take(i as int),
            ),
        decreases blocks.len() - i,
    {
        assert(blocks@.take(i + 1).drop_last() =~= blocks@.take(i as int));
        assert(blocks@.take(i + 1).last() == blocks@[i as int]);
        collect_block_links(&blocks[i], destinations);
        i = i + 1;
        assert(str_views(destinations@) =~= str_views(old(destinations)@) + blocks_links(
            blocks@.take(i as int),
        ));
    }
    assert(blocks@.take(i as int) =~= blocks@);
}

#[verifier::loop_isolation(false)]
fn collect_block_links<'a>(block: &'a Block, destinations: &mut Vec<&'a str>)
    ensures
        str_views(final(destinations)@) == str_views(old(destinations)@) + block_links(*block),
    decreases *block, 1nat,
{
    let ghost start = str_views(destinations@);
    match block {
        Block::Heading { content, .. } => collect_inline_links(content, destinations),
        Block::Paragraph(content) => collect_inline_links(content, destinations),
        Block::List { items, .. } => {
            let mut i: usize = 0;
            while i < items.len()
                invariant
                    i <= items.len(),
                    str_views(destinations@) == start + items_links(items@.take(i as int)),
                decreases items.len() - i,
            {
                assert(items@.take(i + 1).drop_last() =~= items@.take(i as int));
                assert(items@.take(i + 1).last() == items@[i as int]);
                proof {
                    let item = items@[i as int];
                    assert(decreases_to!(*block => (*block)->items));
                    assert(decreases_to!(*items => items@));
                    assert(decreases_to!(items@ => item));
                    assert(decreases_to!(item => item.blocks));
                    assert(decreases_to!(item.blocks => item.blocks@));
                }
                collect_blocks_links(&items[i].blocks, destinations);
                i = i + 1;
                assert(str_views(destinations@) =~= start + items_links(items@.take(i as int)));
            }
            assert(items@.take(i as int) =~= items@);
        },
        Block::BlockQuote(blocks) => collect_blocks_links(blocks, destinations),
        Block::Table { header, rows, .. } => {
            collect_cells_links(header, destinations);
            let mut i: usize = 0;
            while i < rows.len()
                invariant
                    i <= rows.len(),
                    str_views(destinations@) == start + cells_links(header@) + rows_links(
                        rows@.take(i as int),
                    ),
                decreases rows.len() - i,
            {
                assert(rows@.take(i + 1).drop_last() =~= rows@.take(i as int));
                assert(rows@.take(i + 1).last() == rows@[i as int]);
                collect_cells_links(&rows[i], destinations);
                i = i + 1;
                assert(str_views(destinations@) =~= start + cells_links(header@) + rows_links(
                    rows@.take(i as int),
                ));
            }
            assert(rows@.take(i as int) =~= rows@);
            assert(str_views(destinations@) =~= start + block_links(*block));
        },
        _ => {
            assert(str_views(destinations@) =~= start + block_links(*block));
        },
    }
}

// ---------------------------------------------------------------------------
// Heading anchors

/// What one lowercased character of a title becomes in its anchor: letters,
/// digits, `-` and `_` stay; whitespace and the ideographic space become `-`;
/// everything else is dropped.
pub open spec fn slug_char(c: char) -> Option<char> {
    if char_is_alphanumeric(c) || c == '-' || c == '_' || c == '\u{3000}' {
        Some(if c == '\u{3000}' { '-' } else { c })
    } else if char_is_whitespace(c) {
        Some('-')
    } else {
        None
    }
}

/// The anchor characters of already lowercased characters.
pub open spec fn slug_chars(chars: Seq<char>) -> Seq<char>
    decreases chars.len(),
{
    if chars.len() == 0 {
        seq![]
    } else {
        slug_chars(chars.drop_last()) + match slug_char(chars.last()) {
            Some(c) => seq![c],
            None => seq![],
        }
    }
}

/// The anchor characters of a title, before trimming: each character is
/// lowercased (possibly into several) and then filtered.
pub open spec fn untrimmed_slug(title: Seq<char>) -> Seq<char>
    decreases title.len(),
{
    if title.len() == 0 {
        seq![]
    } else {
        untrimmed_slug(title.drop_last()) + slug_chars(char_lowercase(title.last()))
    }
}

/// `s` without its leading `-` characters.
pub open spec fn trim_leading_dashes(s: Seq<char>) -> Seq<char>
    decreases s.len(),
{
    if s.len() > 0 && s[0] == '-' {
        trim_leading_dashes(s.skip(1))
    } else {
        s
    }
}

/// `s` without its trailing `-` characters.
pub open spec fn trim_trailing_dashes(s: Seq<char>) -> Seq<char>
    decreases s.len(),
{
    if s.len() > 0 && s.last() == '-' {
        trim_trailing_dashes(s.drop_last())
    } else {
        s
    }
}

/// The GitHub-style anchor of a heading title.
pub open spec fn slug(title: Seq<char>) -> Seq<char> {
    trim_trailing_dashes(trim_leading_dashes(untrimmed_slug(title)))
}

fn push_slug_chars(chars: &Vec<char>, out: &mut Vec<char>)
    ensures
        final(out)@ == old(out)@ + slug_chars(chars@),
{
    let mut i: usize = 0;
    while i < chars.len()
        invariant
            i <= chars.len(),
            out@ == old(out)@ + slug_chars(chars@.take(i as int)),
        decreases chars.len() - i,
    {
        assert(chars@.take(i + 1).drop_last() =~= chars@.take(i as int));
        assert(chars@.take(i + 1).last() == chars@[i as int]);
        let c = chars[i];
        if is_alphanumeric(c) || c == '-' || c == '_' || c == '\u{3000}' {
            out.push(if c == '\u{3000}' { '-' } else { c });
        } else if is_whitespace(c) {
            out.push('-');
        }
        i = i + 1;
        assert(out@ =~= old(out)@ + slug_chars(chars@.take(i as int)));
    }
    assert(chars@.take(i as int) =~= chars@);
}

/// The GitHub-style anchor of a heading title: lowercased, with whitespace as
/// `-`, punctuation removed, and no `-` at either end.
pub fn heading_slug(title: &str) -> (slug_text: String)
    ensures
        slug_text@ == slug(title@),
{
    let chars = chars_of(title);
    let mut out: Vec<char> = Vec::new();
    let mut i: usize = 0;
    while i < chars.len()
        invariant
            i <= chars.len(),
            chars@ == title@,
            out@ == untrimmed_slug(chars@.take(i as int)),
        decreases chars.len() - i,
    {
        assert(chars@.take(i + 1).drop_last() =~= chars@.take(i as int));
        assert(chars@.take(i + 1).last() == chars@[i as int]);
        let lower = char_to_lowercase(chars[i]);
        push_slug_chars(&lower, &mut out);
        i = i + 1;
    }
    assert(chars@.take(i as int) =~= chars@);
    let mut start: usize = 0;
    assert(out@.skip(0) =~= out@);
    while start < out.len() && out[start] == '-'
        invariant
            start <= out.len(),
            trim_leading_dashes(out@) == trim_leading_dashes(out@.skip(start as int)),
        decreases out.len() - start,
    {
        assert(out@.skip(start as int).skip(1) =~= out@.skip(start + 1));
        start = start + 1;
    }
    let mut end: usize = out.len();
    assert(out@.skip(start as int) =~= out@.subrange(start as int, end as int));
    while end > start && out[end - 1] == '-'
        invariant
            start <= end <= out.len(),
            trim_trailing_dashes(trim_leading_dashes(out@)) == trim_trailing_dashes(
                out@.subrange(start as int, end as int),
            ),
        decreases end,
    {
        assert(out@.subrange(start as int, end as int).drop_last() =~= out@.subrange(
            start as int,
            end - 1,
        ));
        end = end - 1;
    }
    let mut trimmed: Vec<char> = Vec::new();
    let mut k: usize = start;
    while k < end
        invariant
            start <= k <= end <= out.len(),
            trimmed@ == out@.subrange(start as int, k as int),
        decreases end - k,
    {
        trimmed.push(out[k]);
        k = k + 1;
        assert(trimmed@ =~= out@.subrange(start as int, k as int));
    }
    string_from_chars(&trimmed)
}

/// A heading as the table of contents lists it.
#[derive(Clone, Debug, PartialEq, Eq)]
pub struct Heading {
    pub level: HeadingLevel,
    pub title: String,
    pub id: String,
    pub block_index: usize,
}

pub struct HeadingView {
    pub level: HeadingLevel,
    pub title: Seq<char>,
    pub id: Seq<char>,
    pub block_index: usize,
}

impl View for Heading {
    type V = HeadingView;

    open spec fn view(&self) -> HeadingView {
        HeadingView {
            level: self.level,
            title: self.title@,
            id: self.id@,
            block_index: self.block_index,
        }
    }
}

/// How often `x` occurs in `s`.
pub open spec fn count_of(s: Seq<Seq<char>>, x: Seq<char>) -> nat
    decreases s.len(),
{
    if s.len() == 0 {
        0
    } else {
        count_of(s.drop_last(), x) + if s.last() == x { 1nat } else { 0nat }
    }
}

/// The anchors (before numbering) of the headings among `blocks`, in order.
pub open spec fn heading_slugs(blocks: Seq<Block>) -> Seq<Seq<char>>
    decreases blocks.len(),
{
    if blocks.len() == 0 {
        seq![]
    } else {
        match blocks.last() {
            Block::Heading { content, .. } => heading_slugs(blocks.drop_last()).push(
                slug(inlines_text(content@)),
            ),
            _ => heading_slugs(blocks.drop_last()),
        }
    }
}

/// The id of a heading whose anchor `base` appeared `n` times before: the
/// first keeps `base`, later ones get `-1`, `-2`, ...
pub open spec fn numbered_id(base: Seq<char>, n: nat) -> Seq<char> {
    if n == 0 {
        base
    } else {
        base + seq!['-'] + decimal(n)
    }
}

/// The headings among `blocks` with titles, unique ids and block indices.
pub open spec fn headings_of(blocks: Seq<Block>) -> Seq<HeadingView>
    decreases blocks.len(),
{
    if blocks.len() == 0 {
        seq![]
    } else {
        match blocks.last() {
            Block::Heading { level, content } => {
                let title = inlines_text(content@);
                let base = slug(title);
                headings_of(blocks.drop_last()).push(
                    HeadingView {
                        level,
                        title,
                        id: numbered_id(base, count_of(heading_slugs(blocks.drop_last()), base)),
                        block_index: (blocks.len() - 1) as usize,
                    },
                )
            },
            _ => headings_of(blocks.drop_last()),
        }
    }
}

pub open spec fn heading_views(headings: Seq<Heading>) -> Seq<HeadingView> {
    headings.map_values(|h: Heading| h@)
}

/// Whether a heading's title has the anchor `base`.
pub open spec fn has_anchor(base: Seq<char>) -> spec_fn(HeadingView) -> bool {
    |h: HeadingView| slug(h.title) == base
}

/// The anchors of headings, one for each.
pub open spec fn anchors_of(headings: Seq<HeadingView>) -> Seq<Seq<char>> {
    headings.map_values(|h: HeadingView| slug(h.title))
}

proof fn lemma_slugs_are_anchors(blocks: Seq<Block>)
    ensures
        heading_slugs(blocks) == anchors_of(headings_of(blocks)),
    decreases blocks.len(),
{
    if blocks.len() > 0 {
        lemma_slugs_are_anchors(blocks.drop_last());
        let prev = headings_of(blocks.drop_last());
        match blocks.last() {
            Block::Heading { .. } => {
                assert(anchors_of(headings_of(blocks)) =~= anchors_of(prev).push(
                    slug(headings_of(blocks).last().title),
                ));
            },
            _ => {},
        }
    }
}

proof fn lemma_count_is_filter(headings: Seq<HeadingView>, base: Seq<char>)
    ensures
        count_of(anchors_of(headings), base) == headings.filter(has_anchor(base)).len(),
    decreases headings.len(),
{
    reveal(Seq::filter);
    if headings.len() > 0 {
        lemma_count_is_filter(headings.drop_last(), base);
        assert(anchors_of(headings).drop_last() =~= anchors_of(headings.drop_last()));
    }
}

proof fn lemma_filter_grows(headings: Seq<HeadingView>, base: Seq<char>, i: int, j: int)
    requires
        0 <= i < j <= headings.len(),
        slug(headings[i].title) == base,
    ensures
        headings.take(j).filter(has_anchor(base)).len() >= headings.take(i).filter(has_anchor(base)).len() + 1,
    decreases j - i,
{
    reveal(Seq::filter);
    assert(headings.take(j).drop_last() =~= headings.take(j - 1));
    if j == i + 1 {
        assert(headings.take(j).last() == headings[i]);
    } else {
        lemma_filter_grows(headings, base, i, j - 1);
    }
}

proof fn lemma_decimal_nonempty(n: nat)
    ensures
        decimal(n).len() >= 1,
        n >= 10 ==> decimal(n).len() >= 2,
    decreases n,
{
    if n >= 10 {
        lemma_decimal_nonempty(n / 10);
    }
}

proof fn lemma_digit_char(d: nat)
    requires
        d < 10,
    ensures
        digit_char(d) as int == 48 + d,
{
    assert((48 + d) as u8 == 48 + d);
}

proof fn lemma_decimal_injective(a: nat, b: nat)
    requires
        decimal(a) == decimal(b),
    ensures
        a == b,
    decreases a,
{
    lemma_decimal_nonempty(a);
    lemma_decimal_nonempty(b);
    if a < 10 && b < 10 {
        assert(decimal(a) == seq![digit_char(a)]);
        assert(decimal(b) == seq![digit_char(b)]);
        assert(decimal(a)[0] == digit_char(a));
        assert(decimal(b)[0] == digit_char(b));
        assert(digit_char(a) == digit_char(b));
        lemma_digit_char(a);
        lemma_digit_char(b);
        assert(digit_char(a) as int == digit_char(b) as int);
    } else if a >= 10 && b >= 10 {
        assert(decimal(a) == decimal(a / 10).push(digit_char(a % 10)));
        assert(decimal(b) == decimal(b / 10).push(digit_char(b % 10)));
        assert(decimal(a).last() == digit_char(a % 10));
        assert(decimal(b).last() == digit_char(b % 10));
        lemma_digit_char(a % 10);
        lemma_digit_char(b % 10);
        assert(a % 10 == b % 10);
        assert(decimal(a).drop_last() =~= decimal(a / 10));
        assert(decimal(b).drop_last() =~= decimal(b / 10));
        lemma_decimal_injective(a / 10, b / 10);
        assert(a == 10 * (a / 10) + a % 10);
        assert(b == 10 * (b / 10) + b % 10);
    } else {
        assert(decimal(a).len() != decimal(b).len());
    }
}

proof fn lemma_numbered_ids_differ(base: Seq<char>, a: nat, b: nat)
    requires
        a < b,
    ensures
        numbered_id(base, a) != numbered_id(base, b),
{
    lemma_decimal_nonempty(a);
    lemma_decimal_nonempty(b);
    if a == 0 {
        assert(numbered_id(base, b).len() > base.len());
    } else if numbered_id(base, a) == numbered_id(base, b) {
        let n = base.len() + 1;
        assert(numbered_id(base, a).len() == numbered_id(base, b).len());
        assert(numbered_id(base, a).subrange(n as int, numbered_id(base, a).len() as int) =~= decimal(a));
        assert(numbered_id(base, b).subrange(n as int, numbered_id(base, b).len() as int) =~= decimal(b));
        lemma_decimal_injective(a, b);
    }
}

proof fn lemma_heading_ids_numbered(blocks: Seq<Block>)
    ensures
        forall|i: int| 0 <= i < headings_of(blocks).len() ==> #[trigger] headings_of(blocks)[i].id == numbered_id(
            slug(headings_of(blocks)[i].title),
            headings_of(blocks).take(i).filter(has_anchor(slug(headings_of(blocks)[i].title))).len(),
        ),
    decreases blocks.len(),
{
    if blocks.len() > 0 {
        lemma_heading_ids_numbered(blocks.drop_last());
        let prev = headings_of(blocks.drop_last());
        let hs = headings_of(blocks);
        match blocks.last() {
            Block::Heading { .. } => {
                assert forall|i: int| 0 <= i < hs.len() implies #[trigger] hs[i].id == numbered_id(
                    slug(hs[i].title),
                    hs.take(i).filter(has_anchor(slug(hs[i].title))).len(),
                ) by {
                    if i < prev.len() {
                        assert(hs[i] == prev[i]);
                        assert(hs.take(i) =~= prev.take(i));
                    } else {
                        assert(hs.take(i) =~= prev);
                        lemma_slugs_are_anchors(blocks.drop_last());
                        lemma_count_is_filter(prev, slug(hs[i].title));
                    }
                }
            },
            _ => {},
        }
    }
}

/// GitHub-style heading ids: a heading whose anchor no earlier heading has
/// keeps the anchor, and one whose anchor `k` earlier headings have gets
/// the suffix `-k`; so headings with the same anchor never share an id.
pub proof fn law_heading_ids(blocks: Seq<Block>)
    ensures
        forall|i: int| 0 <= i < headings_of(blocks).len() ==> {
            let h = #[trigger] headings_of(blocks)[i];
            let earlier = headings_of(blocks).take(i).filter(has_anchor(slug(h.title))).len();
            &&& earlier == 0 ==> h.id == slug(h.title)
            &&& earlier > 0 ==> h.id == slug(h.title) + seq!['-'] + decimal(earlier)
        },
        forall|i: int, j: int|
            0 <= i < j < headings_of(blocks).len() && slug(#[trigger] headings_of(blocks)[i].title) == slug(
                #[trigger] headings_of(blocks)[j].title,
            ) ==> headings_of(blocks)[i].id != headings_of(blocks)[j].id,
{
    let hs = headings_of(blocks);
    lemma_heading_ids_numbered(blocks);
    assert forall|i: int, j: int|
        0 <= i < j < hs.len() && slug(#[trigger] hs[i].title) == slug(#[trigger] hs[j].title) implies hs[i].id
        != hs[j].id by {
        let base = slug(hs[i].title);
        assert(hs[i].id == numbered_id(base, hs.take(i).filter(has_anchor(base)).len()));
        assert(hs[j].id == numbered_id(base, hs.take(j).filter(has_anchor(base)).len()));
        lemma_filter_grows(hs, base, i, j);
        lemma_numbered_ids_differ(
            base,
            hs.take(i).filter(has_anchor(base)).len(),
            hs.take(j).filter(has_anchor(base)).len(),
        );
    }
}

impl Document {
    pub closed spec fn spec_blocks(&self) -> Seq<Block> {
        self.blocks@
    }

    pub fn new(blocks: Vec<Block>) -> (document: Self)
        ensures
            document.spec_blocks() == blocks@,
    {
        Document { blocks }
    }

    pub fn blocks(&self) -> (blocks: &[Block])
        ensures
            blocks@ == self.spec_blocks(),
    {
        self.blocks.as_slice()
    }

    /// The headings of the document with GitHub-style ids; a repeated
    /// anchor gets `-1`, `-2`, ... in order of appearance.
    pub fn headings(&self) -> (headings: Vec<Heading>)
        ensures
            heading_views(headings@) == headings_of(self.spec_blocks()),
    {
        let mut headings: Vec<Heading> = Vec::new();
        let mut slugs: Vec<String> = Vec::new();
        let mut i: usize = 0;
        while i < self.blocks.len()
            invariant
                i <= self.blocks.len(),
                heading_views(headings@) == headings_of(self.blocks@.take(i as int)),
                string_views(slugs@) == heading_slugs(self.blocks@.take(i as int)),
            decreases self.blocks.len() - i,
        {
            let ghost prefix = self.blocks@.take(i as int);
            assert(self.blocks@.take(i + 1).drop_last() =~= prefix);
            assert(self.blocks@.take(i + 1).last() == self.blocks@[i as int]);
            if let Block::Heading { level, content } = &self.blocks[i] {
                let title = inline_plain_text(content);
                let base = heading_slug(title.as_str());
                let mut occurrence: usize = 0;
                let mut j: usize = 0;
                while j < slugs.len()
                    invariant
                        j <= slugs.len(),
                        occurrence <= j,
                        occurrence == count_of(string_views(slugs@).take(j as int), base@),
                    decreases slugs.len() - j,
                {
                    assert(string_views(slugs@).take(j + 1).drop_last() =~= string_views(
                        slugs@,
                    ).take(j as int));
                    if slugs[j] == base {
                        occurrence = occurrence + 1;
                    }
                    j = j + 1;
                }
                assert(string_views(slugs@).take(j as int) =~= string_views(slugs@));
                let id = if occurrence == 0 {
                    copy_string(&base)
                } else {
                    let mut id = copy_string(&base);
                    push_char(&mut id, '-');
                    let number = decimal_string(occurrence as u128);
                    push_str(&mut id, number.as_str());
                    assert(id@ =~= base@ + seq!['-'] + decimal(occurrence as nat));
                    id
                };
                assert(id@ == numbered_id(base@, count_of(heading_slugs(prefix), base@)));
                let ghost before_headings = heading_views(headings@);
                let ghost before_slugs = string_views(slugs@);
                headings.push(Heading { level: *level, title, id, block_index: i });
                slugs.push(base);
                assert(heading_views(headings@) =~= before_headings.push(headings@.last()@));
                assert(string_views(slugs@) =~= before_slugs.push(slugs@.last()@));
            }
            i = i + 1;
        }
        assert(self.blocks@.take(i as int) =~= self.blocks@);
        headings
    }

    /// The indices of the blocks whose text contains `query`, ignoring case.
    /// An empty query finds nothing.
    pub fn search_blocks(&self, query: &str) -> (indices: Vec<usize>)
        ensures
            indices@ == search(self.spec_blocks(), query@),
    {
        let lower_query = to_lowercase(query);
        let needle = chars_of(lower_query.as_str());
        if needle.len() == 0 {
            return Vec::new();
        }
        let mut indices: Vec<usize> = Vec::new();
        let mut i: usize = 0;
        while i < self.blocks.len()
            invariant
                i <= self.blocks.len(),
                needle@ == str_lowercase(query@),
                indices@ == matching_blocks(self.blocks@.take(i as int), needle@),
            decreases self.blocks.len() - i,
        {
            assert(self.blocks@.take(i + 1).drop_last() =~= self.blocks@.take(i as int));
            assert(self.blocks@.take(i + 1).last() == self.blocks@[i as int]);
            let text = block_plain_text(&self.blocks[i]);
            let lower = to_lowercase(text.as_str());
            let haystack = chars_of(lower.as_str());
            if contains_chars(&haystack, &needle) {
                indices.push(i);
            }
            i = i + 1;
        }
        assert(self.blocks@.take(i as int) =~= self.blocks@);
        indices
    }

    /// The destinations of all links in the document, in document order.
    pub fn link_destinations(&self) -> (destinations: Vec<&str>)
        ensures
            str_views(destinations@) == blocks_links(self.spec_blocks()),
    {
        let mut destinations: Vec<&str> = Vec::new();
        collect_blocks_links(&self.blocks, &mut destinations);
        assert(str_views(destinations@) =~= str_views(Seq::<&str>::empty()) + blocks_links(
            self.blocks@,
        ));
        destinations
    }

    /// The searchable text of block `index`, if there is such a block.
    pub fn block_text(&self, index: usize) -> (text: Option<String>)
        ensures
            index < self.spec_blocks().len() ==> (text matches Some(t) && t@ == block_text(
                self.spec_blocks()[index as int],
            )),
            index >= self.spec_blocks().len() ==> text is None,
    {
        if index < self.blocks.len() {
            Some(block_plain_text(&self.blocks[index]))
        } else {
            None
        }
    }
}

} // verus!
