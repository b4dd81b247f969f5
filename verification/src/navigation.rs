//! What the viewer does between key presses: fuzzy file search, labels for
//! page-search results, cycling through page matches, the overlay result
//! lists, and the back/forward history of visited locations.

use vstd::prelude::*;
use vstd::string::StringSliceAdditionalSpecFns;

use crate::app::{pred_sat, App, AppView, Overlay};
use crate::markdown::{
    block_text, copy_string, heading_views, headings_of, join_strings_with_spaces, join_with_spaces,
    search, string_views, Block, Document, HeadingLevel, HeadingView,
};
use crate::text::{
    char_is_whitespace, char_utf8_width, chars_of, is_whitespace, lemma_str_len,
    lemma_utf8_len_prefix, lemma_utf8_len_take_next, push_char, push_str, str_lowercase,
    string_from_chars, to_lowercase, utf8_len, contains_chars, seq_contains,
};
use crate::ui::{preview_scroll_for_block, repeat_char, scroll_for_block};
use crate::diagram::starts_with_chars;

verus! {

// ---------------------------------------------------------------------------
// Fuzzy matching

/// The first position at or after `start` where `c` stands in `v`.
pub open spec fn first_from(v: Seq<char>, c: char, start: int) -> Option<int>
    decreases v.len() - start,
{
    if start < 0 || start >= v.len() {
        None
    } else if v[start] == c {
        Some(start)
    } else {
        first_from(v, c, start + 1)
    }
}

/// Matches the characters of `q` in order in `v`, each at its first
/// occurrence after the previous match, starting at position `start`. The
/// score is the number of bytes skipped over between the matches.
pub open spec fn fuzzy_from(v: Seq<char>, q: Seq<char>, start: int) -> Option<nat>
    decreases q.len(),
{
    if q.len() == 0 {
        Some(0)
    } else {
        match first_from(v, q[0], start) {
            None => None,
            Some(i) => match fuzzy_from(v, q.drop_first(), i + 1) {
                None => None,
                Some(rest) => Some(utf8_len(v.subrange(start, i)) + rest),
            },
        }
    }
}

/// The fuzzy score of `query` against `value`: lower is closer. An empty
/// query scores `usize::MAX / 2`; a query whose characters do not all occur
/// in order scores nothing.
pub open spec fn fuzzy(value: Seq<char>, query: Seq<char>) -> Option<nat> {
    if query.len() == 0 {
        Some((usize::MAX / 2) as nat)
    } else {
        fuzzy_from(value, query, 0)
    }
}

/// An optional `usize` read as an optional natural number.
pub open spec fn nat_of(o: Option<usize>) -> Option<nat> {
    match o {
        Some(n) => Some(n as nat),
        None => None,
    }
}

pub open spec fn plus(a: nat, o: Option<nat>) -> Option<nat> {
    match o {
        Some(n) => Some(a + n),
        None => None,
    }
}

proof fn lemma_first_from_step(v: Seq<char>, c: char, j: int)
    requires
        0 <= j < v.len(),
        v[j] != c,
    ensures
        first_from(v, c, j) == first_from(v, c, j + 1),
{
}

/// The fuzzy score of `query` in `value`, as the file search ranks paths:
/// each query character is found at its first occurrence after the previous
/// one, and the bytes skipped over are added up.
pub fn fuzzy_score(value: &str, query: &str) -> (score: Option<usize>)
    ensures
        nat_of(score) == fuzzy(value@, query@),
{
    let q = chars_of(query);
    if q.len() == 0 {
        return Some(usize::MAX / 2);
    }
    let v = chars_of(value);
    let byte_count = value.as_bytes().len();
    proof {
        lemma_str_len(value);
    }
    let mut pos: usize = 0;
    let mut score: usize = 0;
    let mut k: usize = 0;
    assert(q@.skip(0) =~= q@);
    while k < q.len()
        invariant
            q@ == query@,
            v@ == value@,
            q@.len() > 0,
            utf8_len(v@) == byte_count,
            k <= q.len(),
            pos <= v.len(),
            score <= utf8_len(v@.take(pos as int)),
            fuzzy_from(v@, q@, 0) == plus(score as nat, fuzzy_from(v@, q@.skip(k as int), pos as int)),
        decreases q.len() - k,
    {
        let c = q[k];
        let mut j: usize = pos;
        let mut found: usize = 0;
        while j < v.len() && v[j] != c
            invariant
                v@ == value@,
                utf8_len(v@) == byte_count,
                pos <= j <= v.len(),
                found == utf8_len(v@.subrange(pos as int, j as int)),
                first_from(v@, c, pos as int) == first_from(v@, c, j as int),
                score + found <= utf8_len(v@.take(j as int)),
            decreases v.len() - j,
        {
            proof {
                lemma_first_from_step(v@, c, j as int);
                lemma_utf8_len_take_next(v@, j as int);
                lemma_utf8_len_prefix(v@, j + 1);
                assert(v@.subrange(pos as int, j + 1).drop_last() =~= v@.subrange(pos as int, j as int));
            }
            found = found + char_utf8_width(v[j]);
            j = j + 1;
        }
        assert(q@.skip(k as int)[0] == c);
        assert(q@.skip(k as int).drop_first() =~= q@.skip(k + 1));
        if j == v.len() {
            return None;
        }
        proof {
            lemma_utf8_len_take_next(v@, j as int);
            lemma_utf8_len_prefix(v@, j as int);
        }
        score = score + found;
        pos = j + 1;
        k = k + 1;
    }
    assert(q@.skip(k as int).len() == 0);
    Some(score)
}

// ---------------------------------------------------------------------------
// Page-search labels

/// The longest label, in characters, before it is cut off.
pub const MAX_LABEL_CHARACTERS: usize = 72;

/// The words of `t`: its maximal runs of non-whitespace characters, in order.
pub open spec fn words(t: Seq<char>) -> Seq<Seq<char>>
    decreases t.len(),
{
    if t.len() == 0 {
        seq![]
    } else {
        let p = t.drop_last();
        let c = t.last();
        let w = words(p);
        if char_is_whitespace(c) {
            w
        } else if p.len() > 0 && !char_is_whitespace(p.last()) {
            w.update(w.len() - 1, w.last().push(c))
        } else {
            w.push(seq![c])
        }
    }
}

/// The label of a page-search result: the words of the block's text joined
/// by single spaces, cut to `MAX_LABEL_CHARACTERS` characters and then
/// marked with `…` when it was longer.
pub open spec fn result_label(t: Seq<char>) -> Seq<char> {
    let n = join_with_spaces(words(t));
    if n.len() > MAX_LABEL_CHARACTERS {
        n.take(MAX_LABEL_CHARACTERS as int).push('…')
    } else {
        n
    }
}

/// The text of a line that ends in a word has words.
proof fn lemma_words_nonempty(t: Seq<char>)
    requires
        t.len() > 0,
        !char_is_whitespace(t.last()),
    ensures
        words(t).len() > 0,
    decreases t.len(),
{
    let p = t.drop_last();
    if p.len() > 0 && !char_is_whitespace(p.last()) {
        lemma_words_nonempty(p);
    }
}

/// The words of `text` as separate strings.
fn split_words(text: &str) -> (parts: Vec<String>)
    ensures
        string_views(parts@) == words(text@),
{
    let t = chars_of(text);
    let mut parts: Vec<String> = Vec::new();
    let mut current: Vec<char> = Vec::new();
    let mut i: usize = 0;
    while i < t.len()
        invariant
            t@ == text@,
            i <= t.len(),
            (i == 0 || char_is_whitespace(t@[i - 1])) ==> current@.len() == 0 && string_views(
                parts@,
            ) == words(t@.take(i as int)),
            !(i == 0 || char_is_whitespace(t@[i - 1])) ==> current@.len() > 0 && string_views(
                parts@,
            ).push(current@) == words(t@.take(i as int)),
        decreases t.len() - i,
    {
        let c = t[i];
        let ghost p = t@.take(i as int);
        assert(t@.take(i + 1).drop_last() =~= p);
        assert(t@.take(i + 1).last() == c);
        if i > 0 {
            assert(p.last() == t@[i - 1]);
        }
        if is_whitespace(c) {
            if current.len() > 0 {
                let word = string_from_chars(&current);
                let ghost before = string_views(parts@);
                parts.push(word);
                assert(string_views(parts@) =~= before.push(current@));
                current = Vec::new();
            }
        } else {
            if current.len() == 0 {
                current.push(c);
                assert(current@ =~= seq![c]);
            } else {
                let ghost w = string_views(parts@).push(current@);
                current.push(c);
                assert(string_views(parts@).push(current@) =~= w.update(w.len() - 1, w.last().push(c)));
            }
        }
        i = i + 1;
    }
    assert(t@.take(i as int) =~= t@);
    if current.len() > 0 {
        let word = string_from_chars(&current);
        let ghost before = string_views(parts@);
        parts.push(word);
        assert(string_views(parts@) =~= before.push(current@));
    }
    parts
}

/// The label that the page-search overlay shows for a block with `text`.
pub fn search_result_label(text: &str) -> (label: String)
    ensures
        label@ == result_label(text@),
{
    let parts = split_words(text);
    let normalized = join_strings_with_spaces(&parts);
    let characters = chars_of(normalized.as_str());
    if characters.len() > MAX_LABEL_CHARACTERS {
        let mut kept: Vec<char> = Vec::new();
        let mut i: usize = 0;
        while i < MAX_LABEL_CHARACTERS
            invariant
                i <= MAX_LABEL_CHARACTERS < characters.len(),
                kept@ == characters@.take(i as int),
            decreases MAX_LABEL_CHARACTERS - i,
        {
            kept.push(characters[i]);
            i = i + 1;
            assert(kept@ =~= characters@.take(i as int));
        }
        let mut label = string_from_chars(&kept);
        push_char(&mut label, '…');
        label
    } else {
        normalized
    }
}

// ---------------------------------------------------------------------------
// Cycling through page matches

/// The last of the blocks `ms` whose scroll offset lies above `current`.
pub open spec fn last_before(blocks: Seq<Block>, ms: Seq<usize>, current: usize) -> Option<usize>
    decreases ms.len(),
{
    if ms.len() == 0 {
        None
    } else if scroll_for_block(blocks, ms.last() as nat) < current {
        Some(ms.last())
    } else {
        last_before(blocks, ms.drop_last(), current)
    }
}

/// The first of the blocks `ms` whose scroll offset lies below `current`.
pub open spec fn first_after(blocks: Seq<Block>, ms: Seq<usize>, current: usize) -> Option<usize>
    decreases ms.len(),
{
    if ms.len() == 0 {
        None
    } else if scroll_for_block(blocks, ms[0] as nat) > current {
        Some(ms[0])
    } else {
        first_after(blocks, ms.drop_first(), current)
    }
}

/// The page match to jump to from scroll offset `current`: the next match
/// below it (or, going back, the previous one above it), wrapping around to
/// the first (or last) match.
pub open spec fn page_match(blocks: Seq<Block>, query: Seq<char>, current: usize, previous: bool) -> Option<usize> {
    let ms = search(blocks, query);
    if ms.len() == 0 {
        None
    } else if previous {
        match last_before(blocks, ms, current) {
            Some(b) => Some(b),
            None => Some(ms.last()),
        }
    } else {
        match first_after(blocks, ms, current) {
            Some(b) => Some(b),
            None => Some(ms[0]),
        }
    }
}

proof fn lemma_last_before_take(blocks: Seq<Block>, ms: Seq<usize>, current: usize, i: int)
    requires
        0 <= i < ms.len(),
        scroll_for_block(blocks, ms[i] as nat) >= current,
    ensures
        last_before(blocks, ms.take(i + 1), current) == last_before(blocks, ms.take(i), current),
{
    assert(ms.take(i + 1).drop_last() =~= ms.take(i));
}

proof fn lemma_first_after_skip(blocks: Seq<Block>, ms: Seq<usize>, current: usize, i: int)
    requires
        0 <= i < ms.len(),
        scroll_for_block(blocks, ms[i] as nat) <= current,
    ensures
        first_after(blocks, ms.skip(i), current) == first_after(blocks, ms.skip(i + 1), current),
{
    assert(ms.skip(i).drop_first() =~= ms.skip(i + 1));
}

/// The block of the next page-search match after scroll offset
/// `current_scroll`, or of the previous one before it when `previous`,
/// wrapping around at either end.
pub fn next_page_match(document: &Document, query: &str, current_scroll: usize, previous: bool) -> (block: Option<usize>)
    ensures
        block == page_match(document.spec_blocks(), query@, current_scroll, previous),
{
    let matches = document.search_blocks(query);
    let ghost blocks = document.spec_blocks();
    if matches.len() == 0 {
        return None;
    }
    if previous {
        let mut i: usize = matches.len();
        assert(matches@.take(i as int) =~= matches@);
        while i > 0
            invariant
                i <= matches.len(),
                last_before(blocks, matches@, current_scroll) == last_before(
                    blocks,
                    matches@.take(i as int),
                    current_scroll,
                ),
                blocks == document.spec_blocks(),
                matches@ == search(blocks, query@),
                matches.len() > 0,
                previous,
            decreases i,
        {
            let block = matches[i - 1];
            if preview_scroll_for_block(document, block) < current_scroll {
                assert(matches@.take(i as int).last() == block);
                assert(last_before(blocks, matches@.take(i as int), current_scroll) == Some(block));
                return Some(block);
            }
            proof {
                lemma_last_before_take(blocks, matches@, current_scroll, i - 1);
            }
            i = i - 1;
        }
        Some(matches[matches.len() - 1])
    } else {
        let mut i: usize = 0;
        assert(matches@.skip(0) =~= matches@);
        while i < matches.len()
            invariant
                i <= matches.len(),
                first_after(blocks, matches@, current_scroll) == first_after(
                    blocks,
                    matches@.skip(i as int),
                    current_scroll,
                ),
                blocks == document.spec_blocks(),
                matches@ == search(blocks, query@),
                matches.len() > 0,
                !previous,
            decreases matches.len() - i,
        {
            let block = matches[i];
            if preview_scroll_for_block(document, block) > current_scroll {
                assert(matches@.skip(i as int)[0] == block);
                assert(first_after(blocks, matches@.skip(i as int), current_scroll) == Some(block));
                return Some(block);
            }
            proof {
                lemma_first_after_skip(blocks, matches@, current_scroll, i as int);
            }
            i = i + 1;
        }
        Some(matches[0])
    }
}

// ---------------------------------------------------------------------------
// File search

/// The score of file `i` (by its path) for `query`, both lowercased.
pub open spec fn path_score(paths: Seq<Seq<char>>, query: Seq<char>, i: int) -> Option<nat> {
    fuzzy(str_lowercase(paths[i]), str_lowercase(query))
}

/// `(score_a, a)` comes before `(score_b, b)`: a lower score, or the same
/// score and an earlier file.
pub open spec fn ranks_before(score_a: nat, a: usize, score_b: nat, b: usize) -> bool {
    score_a < score_b || (score_a == score_b && a < b)
}

/// `ranking` lists each file that matches `query` once, best score first and
/// files with equal scores in tree order.
pub open spec fn is_ranking(paths: Seq<Seq<char>>, query: Seq<char>, ranking: Seq<usize>) -> bool {
    &&& forall|k: int|
        0 <= k < ranking.len() ==> #[trigger] ranking[k] < paths.len() && path_score(
            paths,
            query,
            ranking[k] as int,
        ) is Some
    &&& forall|i: int|
        0 <= i < paths.len() && #[trigger] path_score(paths, query, i) is Some ==> exists|k: int|
            0 <= k < ranking.len() && ranking[k] == i
    &&& forall|k1: int, k2: int|
        0 <= k1 < k2 < ranking.len() ==> ranks_before(
            path_score(paths, query, ranking[k1] as int)->0,
            #[trigger] ranking[k1],
            path_score(paths, query, ranking[k2] as int)->0,
            #[trigger] ranking[k2],
        )
}

/// The ranking of the files for `query` (there is exactly one; see
/// [`law_ranking_is_unique`]).
pub open spec fn file_ranking(paths: Seq<Seq<char>>, query: Seq<char>) -> Seq<usize> {
    choose|ranking: Seq<usize>| is_ranking(paths, query, ranking)
}

/// The files whose lowercased path fuzzily contains the lowercased query,
/// best score first, ties in tree order.
pub fn file_search_results(paths: &Vec<String>, query: &str) -> (ranking: Vec<usize>)
    ensures
        is_ranking(string_views(paths@), query@, ranking@),
        ranking@ == file_ranking(string_views(paths@), query@),
{
    let ghost views = string_views(paths@);
    let lower_query = to_lowercase(query);
    let mut entries: Vec<(usize, usize)> = Vec::new();
    let mut i: usize = 0;
    while i < paths.len()
        invariant
            i <= paths.len(),
            views == string_views(paths@),
            lower_query@ == str_lowercase(query@),
            forall|k: int|
                0 <= k < entries.len() ==> #[trigger] entries[k].1 < i && path_score(
                    views,
                    query@,
                    entries[k].1 as int,
                ) == Some(entries[k].0 as nat),
            forall|j: int|
                0 <= j < i && #[trigger] path_score(views, query@, j) is Some ==> exists|k: int|
                    0 <= k < entries.len() && entries[k].1 == j,
            forall|k1: int, k2: int|
                0 <= k1 < k2 < entries.len() ==> ranks_before(
                    #[trigger] entries[k1].0 as nat,
                    entries[k1].1,
                    #[trigger] entries[k2].0 as nat,
                    entries[k2].1,
                ),
        decreases paths.len() - i,
    {
        let lower_path = to_lowercase(paths[i].as_str());
        let scored = fuzzy_score(lower_path.as_str(), lower_query.as_str());
        assert(views[i as int] == paths@[i as int]@);
        if let Some(score) = scored {
            let mut p: usize = 0;
            while p < entries.len() && entries[p].0 <= score
                invariant
                    p <= entries.len(),
                    forall|k: int| 0 <= k < p ==> #[trigger] entries[k].0 <= score,
                decreases entries.len() - p,
            {
                p = p + 1;
            }
            proof {
                assert forall|k: int| p <= k < entries.len() implies #[trigger] entries[k].0 > score by {
                    if k > p {
                        assert(ranks_before(entries[p as int].0 as nat, entries[p as int].1, entries[k].0 as nat, entries[k].1));
                    }
                }
            }
            let ghost old_entries = entries@;
            entries.insert(p, (score, i));
            proof {
                assert forall|k: int| 0 <= k < entries.len() implies #[trigger] entries[k] == (if k < p {
                    old_entries[k]
                } else if k == p {
                    (score, i)
                } else {
                    old_entries[k - 1]
                }) by {}
                assert forall|j: int|
                    0 <= j < i + 1 && #[trigger] path_score(views, query@, j) is Some implies exists|k: int|
                        0 <= k < entries.len() && entries[k].1 == j by {
                    if j == i {
                        assert(entries[p as int].1 == j);
                    } else {
                        let k0 = choose|k: int| 0 <= k < old_entries.len() && old_entries[k].1 == j;
                        if k0 < p {
                            assert(entries[k0].1 == j);
                        } else {
                            assert(entries[k0 + 1].1 == j);
                        }
                    }
                }
            }
        }
        i = i + 1;
    }
    let mut ranking: Vec<usize> = Vec::new();
    let mut k: usize = 0;
    while k < entries.len()
        invariant
            k <= entries.len(),
            ranking@.len() == k,
            forall|m: int| 0 <= m < k ==> #[trigger] ranking@[m] == entries[m].1,
        decreases entries.len() - k,
    {
        ranking.push(entries[k].1);
        k = k + 1;
    }
    proof {
        assert forall|j: int|
            0 <= j < views.len() && #[trigger] path_score(views, query@, j) is Some implies exists|m: int|
                0 <= m < ranking@.len() && ranking@[m] == j by {
            let m = choose|m: int| 0 <= m < entries.len() && entries[m].1 == j;
            assert(ranking@[m] == j);
        }
        assert forall|k1: int, k2: int| 0 <= k1 < k2 < ranking@.len() implies ranks_before(
            path_score(views, query@, ranking@[k1] as int)->0,
            #[trigger] ranking@[k1],
            path_score(views, query@, ranking@[k2] as int)->0,
            #[trigger] ranking@[k2],
        ) by {
            assert(ranks_before(entries[k1].0 as nat, entries[k1].1, entries[k2].0 as nat, entries[k2].1));
        }
        assert forall|m: int| 0 <= m < ranking@.len() implies #[trigger] ranking@[m] < views.len() && path_score(
            views,
            query@,
            ranking@[m] as int,
        ) is Some by {
            assert(ranking@[m] == entries[m].1);
        }
        assert(is_ranking(views, query@, ranking@));
        law_ranking_is_unique(views, query@, ranking@, file_ranking(views, query@));
    }
    ranking
}

// ---------------------------------------------------------------------------
// Overlay results

/// How deep a heading of `level` is indented in the table of contents.
pub open spec fn level_depth(level: HeadingLevel) -> nat {
    match level {
        HeadingLevel::One => 0,
        HeadingLevel::Two => 1,
        HeadingLevel::Three => 2,
        HeadingLevel::Four => 3,
        HeadingLevel::Five => 4,
        HeadingLevel::Six => 5,
    }
}

/// A table-of-contents entry: two spaces per level below the first, then the title.
pub open spec fn toc_entry(heading: HeadingView) -> Seq<char> {
    repeat_char(' ', 2 * level_depth(heading.level)) + heading.title
}

/// The table of contents of `blocks`.
pub open spec fn toc_entries(blocks: Seq<Block>) -> Seq<Seq<char>> {
    headings_of(blocks).map_values(|h: HeadingView| toc_entry(h))
}

/// The labels of the blocks that match `query`, in document order.
pub open spec fn page_labels(blocks: Seq<Block>, query: Seq<char>) -> Seq<Seq<char>> {
    search(blocks, query).map_values(|i: usize| result_label(block_text(blocks[i as int])))
}

/// The paths of the files in `ranking`.
pub open spec fn ranked_paths(paths: Seq<Seq<char>>, ranking: Seq<usize>) -> Seq<Seq<char>> {
    ranking.map_values(|i: usize| paths[i as int])
}

fn level_depth_of(level: HeadingLevel) -> (depth: usize)
    ensures
        depth == level_depth(level),
{
    match level {
        HeadingLevel::One => 0,
        HeadingLevel::Two => 1,
        HeadingLevel::Three => 2,
        HeadingLevel::Four => 3,
        HeadingLevel::Five => 4,
        HeadingLevel::Six => 5,
    }
}

fn toc_lines(document: &Document) -> (lines: Vec<String>)
    ensures
        string_views(lines@) == toc_entries(document.spec_blocks()),
{
    let headings = document.headings();
    let mut lines: Vec<String> = Vec::new();
    let mut i: usize = 0;
    while i < headings.len()
        invariant
            i <= headings.len(),
            heading_views(headings@) == headings_of(document.spec_blocks()),
            string_views(lines@) == heading_views(headings@).take(i as int).map_values(
                |h: HeadingView| toc_entry(h),
            ),
        decreases headings.len() - i,
    {
        let depth = level_depth_of(headings[i].level);
        let mut line = String::new();
        let mut j: usize = 0;
        while j < 2 * depth
            invariant
                depth <= 5,
                j <= 2 * depth,
                line@ == repeat_char(' ', j as nat),
            decreases 2 * depth - j,
        {
            push_char(&mut line, ' ');
            j = j + 1;
            assert(line@ =~= repeat_char(' ', j as nat));
        }
        push_str(&mut line, headings[i].title.as_str());
        let ghost before = string_views(lines@);
        lines.push(line);
        assert(heading_views(headings@)[i as int] == headings@[i as int]@);
        assert(string_views(lines@) =~= before.push(toc_entry(headings@[i as int]@)));
        assert(heading_views(headings@).take(i + 1).map_values(|h: HeadingView| toc_entry(h))
            =~= heading_views(headings@).take(i as int).map_values(|h: HeadingView| toc_entry(h)).push(
            toc_entry(headings@[i as int]@),
        ));
        i = i + 1;
    }
    assert(heading_views(headings@).take(i as int) =~= heading_views(headings@));
    lines
}

fn page_search_lines(document: &Document, query: &str) -> (lines: Vec<String>)
    ensures
        string_views(lines@) == page_labels(document.spec_blocks(), query@),
{
    let matches = document.search_blocks(query);
    let ghost blocks = document.spec_blocks();
    proof {
        lemma_search_in_range(blocks, query@);
    }
    let mut lines: Vec<String> = Vec::new();
    let mut i: usize = 0;
    while i < matches.len()
        invariant
            i <= matches.len(),
            blocks == document.spec_blocks(),
            matches@ == search(blocks, query@),
            forall|k: int| 0 <= k < matches@.len() ==> #[trigger] matches@[k] < blocks.len(),
            string_views(lines@) == matches@.take(i as int).map_values(
                |b: usize| result_label(block_text(blocks[b as int])),
            ),
        decreases matches.len() - i,
    {
        let text = document.block_text(matches[i]);
        let label = match text {
            Some(t) => search_result_label(t.as_str()),
            None => String::new(),
        };
        let ghost before = string_views(lines@);
        lines.push(label);
        assert(string_views(lines@) =~= before.push(label@));
        assert(matches@.take(i + 1).map_values(|b: usize| result_label(block_text(blocks[b as int])))
            =~= matches@.take(i as int).map_values(|b: usize| result_label(block_text(blocks[b as int]))).push(
            result_label(block_text(blocks[matches@[i as int] as int])),
        ));
        i = i + 1;
    }
    assert(matches@.take(i as int) =~= matches@);
    lines
}

/// Every block that the search finds is a block of the document.
pub proof fn lemma_search_in_range(blocks: Seq<Block>, query: Seq<char>)
    ensures
        forall|k: int| 0 <= k < search(blocks, query).len() ==> #[trigger] search(blocks, query)[k] < blocks.len(),
{
    if str_lowercase(query).len() > 0 {
        lemma_matching_in_range(blocks, str_lowercase(query));
    }
}

proof fn lemma_matching_in_range(blocks: Seq<Block>, lower: Seq<char>)
    ensures
        forall|k: int|
            0 <= k < crate::markdown::matching_blocks(blocks, lower).len() ==> #[trigger] crate::markdown::matching_blocks(
                blocks,
                lower,
            )[k] < blocks.len(),
    decreases blocks.len(),
{
    if blocks.len() > 0 {
        lemma_matching_in_range(blocks.drop_last(), lower);
        let earlier = crate::markdown::matching_blocks(blocks.drop_last(), lower);
        let all = crate::markdown::matching_blocks(blocks, lower);
        assert forall|k: int| 0 <= k < all.len() implies #[trigger] all[k] < blocks.len() by {
            if k < earlier.len() {
                assert(all[k] == earlier[k]);
            }
        }
    }
}

/// The lines listed by the open overlay: the table of contents, the ranked
/// file paths, or the labels of the page-search matches; nothing when no
/// overlay is open.
pub fn overlay_results(paths: &Vec<String>, document: &Document, overlay: Option<Overlay>, query: &str) -> (results: Vec<String>)
    ensures
        overlay is None ==> results@.len() == 0,
        overlay == Some(Overlay::Toc) ==> string_views(results@) == toc_entries(document.spec_blocks()),
        overlay == Some(Overlay::FileSearch) ==> string_views(results@) == ranked_paths(
            string_views(paths@),
            file_ranking(string_views(paths@), query@),
        ),
        overlay == Some(Overlay::PageSearch) ==> string_views(results@) == page_labels(
            document.spec_blocks(),
            query@,
        ),
{
    match overlay {
        None => Vec::new(),
        Some(Overlay::Toc) => toc_lines(document),
        Some(Overlay::PageSearch) => page_search_lines(document, query),
        Some(Overlay::FileSearch) => {
            let ranking = file_search_results(paths, query);
            let ghost views = string_views(paths@);
            let mut lines: Vec<String> = Vec::new();
            let mut i: usize = 0;
            while i < ranking.len()
                invariant
                    i <= ranking.len(),
                    views == string_views(paths@),
                    is_ranking(views, query@, ranking@),
                    string_views(lines@) == ranked_paths(views, ranking@.take(i as int)),
                decreases ranking.len() - i,
            {
                assert(ranking@[i as int] < views.len());
                let path = copy_string(&paths[ranking[i]]);
                let ghost before = string_views(lines@);
                lines.push(path);
                assert(string_views(lines@) =~= before.push(path@));
                assert(ranked_paths(views, ranking@.take(i + 1)) =~= ranked_paths(views, ranking@.take(i as int)).push(
                    views[ranking@[i as int] as int],
                ));
                i = i + 1;
            }
            assert(ranking@.take(i as int) =~= ranking@);
            lines
        },
    }
}

// ---------------------------------------------------------------------------
// Where to go

/// A place in the workspace: a file and the preview's scroll offset in it.
#[derive(Clone, Copy, Debug, PartialEq, Eq, Structural)]
pub struct Location {
    pub file_index: usize,
    pub scroll: usize,
}

/// The location that the viewer shows.
pub open spec fn location_of(v: AppView) -> Location {
    Location { file_index: v.selected_file_index, scroll: v.preview_scroll }
}

impl Location {
    /// The location that `app` shows.
    pub fn from_app(app: &App) -> (location: Location)
        ensures
            location == location_of(app@),
    {
        Location { file_index: app.selected_file_index(), scroll: app.preview_scroll() }
    }
}

/// The first heading among `headings` with id `anchor`.
pub open spec fn heading_with_id(headings: Seq<HeadingView>, anchor: Seq<char>) -> Option<HeadingView>
    decreases headings.len(),
{
    if headings.len() == 0 {
        None
    } else if headings[0].id == anchor {
        Some(headings[0])
    } else {
        heading_with_id(headings.drop_first(), anchor)
    }
}

/// The scroll offset that a link with `anchor` opens `blocks` at: that of
/// the first heading with that id, or the top.
pub open spec fn anchor_scroll_of(blocks: Seq<Block>, anchor: Option<Seq<char>>) -> usize {
    match anchor {
        None => 0,
        Some(a) => match heading_with_id(headings_of(blocks), a) {
            None => 0,
            Some(h) => scroll_for_block(blocks, h.block_index as nat),
        },
    }
}

/// The scroll offset at which a link into `document` with `anchor` opens it.
pub fn anchor_scroll(document: &Document, anchor: Option<&str>) -> (scroll: usize)
    ensures
        scroll == anchor_scroll_of(
            document.spec_blocks(),
            match anchor {
                Some(a) => Some(a@),
                None => None,
            },
        ),
{
    let wanted: String = match anchor {
        None => {
            return 0;
        },
        Some(a) => a.to_owned(),
    };
    let headings = document.headings();
    let ghost views = heading_views(headings@);
    let mut i: usize = 0;
    assert(views.skip(0) =~= views);
    while i < headings.len()
        invariant
            i <= headings.len(),
            views == heading_views(headings@),
            views == headings_of(document.spec_blocks()),
            anchor matches Some(a) && wanted@ == a@,
            heading_with_id(views, wanted@) == heading_with_id(views.skip(i as int), wanted@),
        decreases headings.len() - i,
    {
        assert(views.skip(i as int)[0] == headings@[i as int]@);
        assert(views.skip(i as int).drop_first() =~= views.skip(i + 1));
        if headings[i].id == wanted {
            return preview_scroll_for_block(document, headings[i].block_index);
        }
        i = i + 1;
    }
    0
}

/// Where submitting `overlay` with the `selected` result leads from file
/// `current_file`: the chosen heading or page match in the same file, or the
/// chosen file at its top.
pub open spec fn submission_of(
    blocks: Seq<Block>,
    current_file: usize,
    overlay: Overlay,
    query: Seq<char>,
    selected: usize,
    ranking: Seq<usize>,
) -> Option<Location> {
    match overlay {
        Overlay::Toc => if selected < headings_of(blocks).len() {
            Some(
                Location {
                    file_index: current_file,
                    scroll: scroll_for_block(blocks, headings_of(blocks)[selected as int].block_index as nat),
                },
            )
        } else {
            None
        },
        Overlay::FileSearch => if selected < ranking.len() {
            Some(Location { file_index: ranking[selected as int], scroll: 0 })
        } else {
            None
        },
        Overlay::PageSearch => if selected < search(blocks, query).len() {
            Some(
                Location {
                    file_index: current_file,
                    scroll: scroll_for_block(blocks, search(blocks, query)[selected as int] as nat),
                },
            )
        } else {
            None
        },
    }
}

/// Where submitting `overlay` with its `selected` result leads.
pub fn submission_target(
    paths: &Vec<String>,
    document: &Document,
    current_file: usize,
    overlay: Overlay,
    query: &str,
    selected: usize,
) -> (target: Option<Location>)
    ensures
        target == submission_of(
            document.spec_blocks(),
            current_file,
            overlay,
            query@,
            selected,
            file_ranking(string_views(paths@), query@),
        ),
{
    let ranking = file_search_results(paths, query);
    let target = match overlay {
        Overlay::Toc => {
            let headings = document.headings();
            if selected < headings.len() {
                assert(heading_views(headings@)[selected as int] == headings@[selected as int]@);
                Some(
                    Location {
                        file_index: current_file,
                        scroll: preview_scroll_for_block(document, headings[selected].block_index),
                    },
                )
            } else {
                None
            }
        },
        Overlay::FileSearch => {
            if selected < ranking.len() {
                Some(Location { file_index: ranking[selected], scroll: 0 })
            } else {
                None
            }
        },
        Overlay::PageSearch => {
            let matches = document.search_blocks(query);
            if selected < matches.len() {
                Some(
                    Location {
                        file_index: current_file,
                        scroll: preview_scroll_for_block(document, matches[selected]),
                    },
                )
            } else {
                None
            }
        },
    };
    assert(target == submission_of(
        document.spec_blocks(),
        current_file,
        overlay,
        query@,
        selected,
        ranking@,
    ));
    target
}

// ---------------------------------------------------------------------------
// History

/// Visiting `target`: when it differs from where the viewer is, the current
/// location is pushed on the back history, the forward history is cleared,
/// and the viewer moves there; otherwise nothing changes.
pub open spec fn visited(
    v: AppView,
    back: Seq<Location>,
    forward: Seq<Location>,
    target: Location,
) -> (AppView, Seq<Location>, Seq<Location>) {
    if location_of(v) != target {
        (v.after_navigate(target.file_index, target.scroll), back.push(location_of(v)), seq![])
    } else {
        (v, back, forward)
    }
}

/// Going back: the last location of the back history is shown and the
/// current one is pushed on the forward history; nothing happens when the
/// back history is empty.
pub open spec fn went_back(v: AppView, back: Seq<Location>, forward: Seq<Location>) -> (
    AppView,
    Seq<Location>,
    Seq<Location>,
) {
    if back.len() == 0 {
        (v, back, forward)
    } else {
        let target = back.last();
        (v.after_navigate(target.file_index, target.scroll), back.drop_last(), forward.push(location_of(v)))
    }
}

/// Going forward: the mirror image of [`went_back`].
pub open spec fn went_forward(v: AppView, back: Seq<Location>, forward: Seq<Location>) -> (
    AppView,
    Seq<Location>,
    Seq<Location>,
) {
    if forward.len() == 0 {
        (v, back, forward)
    } else {
        let target = forward.last();
        (v.after_navigate(target.file_index, target.scroll), back.push(location_of(v)), forward.drop_last())
    }
}

/// Moves the viewer to `file_index` at `scroll`, recording the move in the history.
pub fn visit(app: &mut App, back: &mut Vec<Location>, forward: &mut Vec<Location>, file_index: usize, scroll: usize)
    requires
        old(app).wf(),
    ensures
        final(app).wf(),
        (final(app)@, final(back)@, final(forward)@) == visited(
            old(app)@,
            old(back)@,
            old(forward)@,
            Location { file_index, scroll },
        ),
{
    let current = Location::from_app(app);
    if current.file_index != file_index || current.scroll != scroll {
        back.push(current);
        forward.clear();
        app.navigate_to(file_index, scroll);
    }
}

/// Shows the previous location of the back history, if there is one.
pub fn go_back(app: &mut App, back: &mut Vec<Location>, forward: &mut Vec<Location>)
    requires
        old(app).wf(),
    ensures
        final(app).wf(),
        (final(app)@, final(back)@, final(forward)@) == went_back(old(app)@, old(back)@, old(forward)@),
{
    if let Some(location) = back.pop() {
        forward.push(Location::from_app(app));
        app.navigate_to(location.file_index, location.scroll);
    }
}

/// Shows the next location of the forward history, if there is one.
pub fn go_forward(app: &mut App, back: &mut Vec<Location>, forward: &mut Vec<Location>)
    requires
        old(app).wf(),
    ensures
        final(app).wf(),
        (final(app)@, final(back)@, final(forward)@) == went_forward(old(app)@, old(back)@, old(forward)@),
{
    if let Some(location) = forward.pop() {
        back.push(Location::from_app(app));
        app.navigate_to(location.file_index, location.scroll);
    }
}

/// Going back right after a visit returns to where the viewer was, with the
/// back history as it was and the visited location as the only way forward.
pub proof fn law_back_undoes_visit(v: AppView, back: Seq<Location>, forward: Seq<Location>, target: Location)
    requires
        v.selected_file_index <= pred_sat(v.file_count),
        location_of(v) != target,
    ensures
        ({
            let (v1, b1, f1) = visited(v, back, forward, target);
            let (v2, b2, f2) = went_back(v1, b1, f1);
            location_of(v2) == location_of(v) && b2 == back && f2 == seq![location_of(v1)]
        }),
{
    let (v1, b1, f1) = visited(v, back, forward, target);
    assert(b1.drop_last() =~= back);
    assert(seq![].push(location_of(v1)) =~= seq![location_of(v1)]);
}

/// Going forward right after going back returns to where the viewer was,
/// with the forward history as it was, and the back history too when the
/// location gone back to names one of the files.
pub proof fn law_forward_undoes_back(v: AppView, back: Seq<Location>, forward: Seq<Location>)
    requires
        v.selected_file_index <= pred_sat(v.file_count),
        back.len() > 0,
    ensures
        ({
            let (v1, b1, f1) = went_back(v, back, forward);
            let (v2, b2, f2) = went_forward(v1, b1, f1);
            location_of(v2) == location_of(v) && f2 == forward
        }),
        back.last().file_index <= pred_sat(v.file_count) ==> ({
            let (v1, b1, f1) = went_back(v, back, forward);
            went_forward(v1, b1, f1).1 == back
        }),
{
    let (v1, b1, f1) = went_back(v, back, forward);
    assert(f1.drop_last() =~= forward);
    assert(back.drop_last().push(back.last()) =~= back);
}

/// Going forward keeps the way back: the location that was shown becomes
/// the last of the back history, one longer than before, and going back
/// right away returns there with both histories as they were (when the
/// location gone forward to names one of the files).
pub proof fn law_back_undoes_forward(v: AppView, back: Seq<Location>, forward: Seq<Location>)
    requires
        v.selected_file_index <= pred_sat(v.file_count),
        forward.len() > 0,
        forward.last().file_index <= pred_sat(v.file_count),
    ensures
        ({
            let (v1, b1, f1) = went_forward(v, back, forward);
            let (v2, b2, f2) = went_back(v1, b1, f1);
            &&& b1.len() == back.len() + 1
            &&& b1.last() == location_of(v)
            &&& b1.take(back.len() as int) == back
            &&& f1.len() + 1 == forward.len()
            &&& location_of(v2) == location_of(v)
            &&& b2 == back
            &&& f2 == forward
        }),
{
    let (v1, b1, f1) = went_forward(v, back, forward);
    assert(b1.take(back.len() as int) =~= back);
    assert(b1.drop_last() =~= back);
    assert(forward.drop_last().push(forward.last()) =~= forward);
}

/// Visiting the location that is already shown changes nothing.
pub proof fn law_visit_here_is_still(v: AppView, back: Seq<Location>, forward: Seq<Location>)
    ensures
        visited(v, back, forward, location_of(v)) == (v, back, forward),
{
}

// ---------------------------------------------------------------------------
// Laws of search

/// A page-search label never runs past the cut-off and its ellipsis.
pub proof fn law_label_is_bounded(text: Seq<char>)
    ensures
        result_label(text).len() <= MAX_LABEL_CHARACTERS + 1,
{
}

/// File search ignores case: queries that lowercase alike rank the files alike.
pub proof fn law_file_search_ignores_case(paths: Seq<Seq<char>>, q1: Seq<char>, q2: Seq<char>, ranking: Seq<usize>)
    requires
        str_lowercase(q1) == str_lowercase(q2),
    ensures
        is_ranking(paths, q1, ranking) == is_ranking(paths, q2, ranking),
{
    assert forall|i: int| path_score(paths, q1, i) == path_score(paths, q2, i) by {}
}

/// With an empty query every file matches with the same score, so the
/// ranking lists all files in tree order.
pub proof fn law_empty_query_lists_files_in_order(paths: Seq<Seq<char>>, query: Seq<char>, ranking: Seq<usize>)
    requires
        str_lowercase(query).len() == 0,
        is_ranking(paths, query, ranking),
    ensures
        ranking.len() == paths.len(),
        forall|k: int| 0 <= k < ranking.len() ==> ranking[k] == k,
{
    assert forall|i: int| 0 <= i < paths.len() implies #[trigger] path_score(paths, query, i) == Some(
        (usize::MAX / 2) as nat,
    ) by {}
    assert forall|k1: int, k2: int| 0 <= k1 < k2 < ranking.len() implies #[trigger] ranking[k1] < #[trigger] ranking[k2] by {
        assert(ranks_before(
            path_score(paths, query, ranking[k1] as int)->0,
            ranking[k1],
            path_score(paths, query, ranking[k2] as int)->0,
            ranking[k2],
        ));
    }
    assert forall|p: int| 0 <= p < paths.len() implies #[trigger] holds_position(ranking, p) by {
        assert(path_score(paths, query, p) is Some);
    }
    lemma_increasing_cover(paths.len() as int, ranking);
}

/// Position `p` occurs in `s`.
pub open spec fn holds_position(s: Seq<usize>, p: int) -> bool {
    exists|k: int| 0 <= k < s.len() && s[k] == p
}

/// A strictly increasing sequence of positions below `n` that holds every
/// position below `n` is `0, 1, ..., n - 1`.
proof fn lemma_increasing_cover(n: int, s: Seq<usize>)
    requires
        n >= 0,
        forall|k: int| 0 <= k < s.len() ==> #[trigger] s[k] < n,
        forall|p: int| 0 <= p < n ==> #[trigger] holds_position(s, p),
        forall|k1: int, k2: int| 0 <= k1 < k2 < s.len() ==> #[trigger] s[k1] < #[trigger] s[k2],
    ensures
        s.len() == n,
        forall|k: int| 0 <= k < s.len() ==> s[k] == k,
{
    if s.len() > 0 {
        lemma_entries_fixed(n, s, s.len() - 1);
    }
    if s.len() < n {
        let m = s.len() as int;
        assert(holds_position(s, m));
        let w = choose|k: int| 0 <= k < s.len() && s[k] == m;
        assert(s[w] == w);
    }
    if s.len() > n {
        lemma_increasing_lower(s, n);
        assert(s[n] < n);
    }
}

proof fn lemma_increasing_lower(s: Seq<usize>, k: int)
    requires
        0 <= k < s.len(),
        forall|k1: int, k2: int| 0 <= k1 < k2 < s.len() ==> #[trigger] s[k1] < #[trigger] s[k2],
    ensures
        s[k] >= k,
    decreases k,
{
    if k > 0 {
        lemma_increasing_lower(s, k - 1);
        assert(s[k - 1] < s[k]);
    }
}

/// Each entry up to `i` is its own position: position `i` is held somewhere,
/// not before `i` (those entries are their own positions) and not after it
/// (those entries exceed `s[i] >= i`).
proof fn lemma_entries_fixed(n: int, s: Seq<usize>, i: int)
    requires
        0 <= i < s.len(),
        forall|k: int| 0 <= k < s.len() ==> #[trigger] s[k] < n,
        forall|p: int| 0 <= p < n ==> #[trigger] holds_position(s, p),
        forall|k1: int, k2: int| 0 <= k1 < k2 < s.len() ==> #[trigger] s[k1] < #[trigger] s[k2],
    ensures
        forall|j: int| 0 <= j <= i ==> s[j] == j,
    decreases i,
{
    if i > 0 {
        lemma_entries_fixed(n, s, i - 1);
    }
    lemma_increasing_lower(s, i);
    assert(i < n);
    assert(holds_position(s, i));
    let j = choose|j: int| 0 <= j < s.len() && s[j] == i;
    if j < i {
        assert(s[j] == j);
    } else if j > i {
        assert(s[i] < s[j]);
    }
    assert(s[i] == i);
}

/// `x` comes before `y` in the order of `rank`, ties broken by position.
pub open spec fn ranked_before(rank: spec_fn(usize) -> nat, x: usize, y: usize) -> bool {
    ranks_before(rank(x), x, rank(y), y)
}

/// `s` is strictly increasing in the order of `rank`.
pub open spec fn strictly_ranked(s: Seq<usize>, rank: spec_fn(usize) -> nat) -> bool {
    forall|i: int, j: int| 0 <= i < j < s.len() ==> ranked_before(rank, #[trigger] s[i], #[trigger] s[j])
}

/// Two sequences that are strictly increasing in the same order and hold
/// the same elements are equal.
proof fn lemma_sorted_unique(a: Seq<usize>, b: Seq<usize>, rank: spec_fn(usize) -> nat)
    requires
        forall|x: usize| a.contains(x) <==> b.contains(x),
        strictly_ranked(a, rank),
        strictly_ranked(b, rank),
    ensures
        a == b,
    decreases a.len(),
{
    if a.len() == 0 {
        if b.len() > 0 {
            assert(b.contains(b[0]));
        }
        assert(a =~= b);
    } else {
        assert(a.contains(a[0]));
        let j = choose|j: int| 0 <= j < b.len() && b[j] == a[0];
        if j > 0 {
            assert(ranked_before(rank, b[0], b[j]));
            assert(b.contains(b[0]));
            let i = choose|i: int| 0 <= i < a.len() && a[i] == b[0];
            if i > 0 {
                assert(ranked_before(rank, a[0], a[i]));
            }
        }
        assert(b[0] == a[0]);
        let a1 = a.drop_first();
        let b1 = b.drop_first();
        assert forall|x: usize| a1.contains(x) <==> b1.contains(x) by {
            if a1.contains(x) {
                let i = choose|i: int| 0 <= i < a1.len() && a1[i] == x;
                assert(ranked_before(rank, a[0], a[i + 1]));
                assert(b.contains(x));
                let k = choose|k: int| 0 <= k < b.len() && b[k] == x;
                assert(k != 0);
                assert(b1[k - 1] == x);
            }
            if b1.contains(x) {
                let i = choose|i: int| 0 <= i < b1.len() && b1[i] == x;
                assert(ranked_before(rank, b[0], b[i + 1]));
                assert(a.contains(x));
                let k = choose|k: int| 0 <= k < a.len() && a[k] == x;
                assert(k != 0);
                assert(a1[k - 1] == x);
            }
        }
        assert forall|i: int, j: int| 0 <= i < j < a1.len() implies ranked_before(rank, #[trigger] a1[i], #[trigger] a1[j]) by {
            assert(ranked_before(rank, a[i + 1], a[j + 1]));
        }
        assert forall|i: int, j: int| 0 <= i < j < b1.len() implies ranked_before(rank, #[trigger] b1[i], #[trigger] b1[j]) by {
            assert(ranked_before(rank, b[i + 1], b[j + 1]));
        }
        lemma_sorted_unique(a1, b1, rank);
        assert(a =~= seq![a[0]] + a1);
        assert(b =~= seq![b[0]] + b1);
    }
}

/// The file ranking is determined by the paths and the query: two rankings
/// of the same files for the same query are the same list.
pub proof fn law_ranking_is_unique(paths: Seq<Seq<char>>, query: Seq<char>, r1: Seq<usize>, r2: Seq<usize>)
    requires
        is_ranking(paths, query, r1),
        is_ranking(paths, query, r2),
    ensures
        r1 == r2,
{
    let rank = |i: usize| -> nat { path_score(paths, query, i as int)->0 };
    assert forall|x: usize| r1.contains(x) <==> r2.contains(x) by {
        if r1.contains(x) {
            let k = choose|k: int| 0 <= k < r1.len() && r1[k] == x;
            assert(r1[k] < paths.len() && path_score(paths, query, r1[k] as int) is Some);
            assert(path_score(paths, query, x as int) is Some);
            let m = choose|m: int| 0 <= m < r2.len() && r2[m] == x as int;
            assert(r2[m] == x);
        }
        if r2.contains(x) {
            let k = choose|k: int| 0 <= k < r2.len() && r2[k] == x;
            assert(r2[k] < paths.len() && path_score(paths, query, r2[k] as int) is Some);
            assert(path_score(paths, query, x as int) is Some);
            let m = choose|m: int| 0 <= m < r1.len() && r1[m] == x as int;
            assert(r1[m] == x);
        }
    }
    assert forall|i: int, j: int| 0 <= i < j < r1.len() implies ranked_before(rank, #[trigger] r1[i], #[trigger] r1[j]) by {
        assert(ranks_before(
            path_score(paths, query, r1[i] as int)->0,
            r1[i],
            path_score(paths, query, r1[j] as int)->0,
            r1[j],
        ));
    }
    assert forall|i: int, j: int| 0 <= i < j < r2.len() implies ranked_before(rank, #[trigger] r2[i], #[trigger] r2[j]) by {
        assert(ranks_before(
            path_score(paths, query, r2[i] as int)->0,
            r2[i],
            path_score(paths, query, r2[j] as int)->0,
            r2[j],
        ));
    }
    lemma_sorted_unique(r1, r2, rank);
}

proof fn lemma_last_before_member(blocks: Seq<Block>, ms: Seq<usize>, current: usize)
    ensures
        last_before(blocks, ms, current) matches Some(b) ==> ms.contains(b),
    decreases ms.len(),
{
    if ms.len() > 0 {
        lemma_last_before_member(blocks, ms.drop_last(), current);
        if let Some(b) = last_before(blocks, ms.drop_last(), current) {
            if ms.drop_last().contains(b) {
                let k = choose|k: int| 0 <= k < ms.drop_last().len() && ms.drop_last()[k] == b;
                assert(ms[k] == b);
            }
        }
        assert(ms[ms.len() - 1] == ms.last());
    }
}

proof fn lemma_first_after_member(blocks: Seq<Block>, ms: Seq<usize>, current: usize)
    ensures
        first_after(blocks, ms, current) matches Some(b) ==> ms.contains(b),
    decreases ms.len(),
{
    if ms.len() > 0 {
        lemma_first_after_member(blocks, ms.drop_first(), current);
        if let Some(b) = first_after(blocks, ms.drop_first(), current) {
            if ms.drop_first().contains(b) {
                let k = choose|k: int| 0 <= k < ms.drop_first().len() && ms.drop_first()[k] == b;
                assert(ms[k + 1] == b);
            }
        }
        assert(ms.contains(ms[0]));
    }
}

/// Jumping to the next or previous page match lands on a block that matches
/// the query, and there is somewhere to land exactly when something matches.
pub proof fn law_page_match_is_a_match(blocks: Seq<Block>, query: Seq<char>, current: usize, previous: bool)
    ensures
        page_match(blocks, query, current, previous) is Some <==> search(blocks, query).len() > 0,
        page_match(blocks, query, current, previous) matches Some(b) ==> search(blocks, query).contains(b),
{
    let ms = search(blocks, query);
    lemma_last_before_member(blocks, ms, current);
    lemma_first_after_member(blocks, ms, current);
    if ms.len() > 0 {
        assert(ms.contains(ms[0]));
        assert(ms[ms.len() - 1] == ms.last());
        assert(ms.contains(ms.last()));
    }
}

// ---------------------------------------------------------------------------
// Links between pages

/// How a link destination names a page of the workspace: its path and the
/// heading anchor after the first `#`, if any. Destinations with a scheme
/// (`://`) and mail addresses (`mailto:`) name no page.
pub open spec fn link_parts(destination: Seq<char>) -> Option<(Seq<char>, Option<Seq<char>>)> {
    if seq_contains(destination, "://"@) || "mailto:"@.is_prefix_of(destination) {
        None
    } else {
        match first_from(destination, '#', 0) {
            Some(i) => Some((destination.take(i), Some(destination.skip(i + 1)))),
            None => Some((destination, None)),
        }
    }
}

fn subrange_string(chars: &Vec<char>, start: usize, end: usize) -> (s: String)
    requires
        start <= end <= chars.len(),
    ensures
        s@ == chars@.subrange(start as int, end as int),
{
    let mut part: Vec<char> = Vec::new();
    let mut i: usize = start;
    while i < end
        invariant
            start <= i <= end <= chars.len(),
            part@ == chars@.subrange(start as int, i as int),
        decreases end - i,
    {
        part.push(chars[i]);
        i = i + 1;
        assert(part@ =~= chars@.subrange(start as int, i as int));
    }
    string_from_chars(&part)
}

/// The path and anchor of a link destination that may name a page of the
/// workspace; `None` for links with a scheme and for mail addresses.
pub fn link_target(destination: &str) -> (parts: Option<(String, Option<String>)>)
    ensures
        link_parts(destination@) is None ==> parts is None,
        link_parts(destination@) matches Some((p, a)) ==> (parts matches Some((path, anchor)) && path@
            == p && (a is None ==> anchor is None) && (a matches Some(y) ==> (anchor matches Some(x)
            && x@ == y))),
{
    let chars = chars_of(destination);
    let scheme = chars_of("://");
    if contains_chars(&chars, &scheme) || starts_with_chars(&chars, "mailto:") {
        return None;
    }
    let mut i: usize = 0;
    while i < chars.len()
        invariant
            i <= chars.len(),
            chars@ == destination@,
            !seq_contains(destination@, "://"@),
            !"mailto:"@.is_prefix_of(destination@),
            first_from(chars@, '#', 0) == first_from(chars@, '#', i as int),
        decreases chars.len() - i,
    {
        if chars[i] == '#' {
            let path = subrange_string(&chars, 0, i);
            let anchor = subrange_string(&chars, i + 1, chars.len());
            assert(chars@.subrange(0, i as int) =~= chars@.take(i as int));
            assert(chars@.subrange(i + 1, chars@.len() as int) =~= chars@.skip(i + 1));
            return Some((path, Some(anchor)));
        }
        proof {
            lemma_first_from_step(chars@, '#', i as int);
        }
        i = i + 1;
    }
    let path = subrange_string(&chars, 0, chars.len());
    assert(chars@.subrange(0, chars@.len() as int) =~= chars@);
    Some((path, None))
}

} // verus!
