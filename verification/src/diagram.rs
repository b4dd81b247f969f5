//! Mermaid diagrams in the preview: which code blocks are diagrams, which
//! diagram families the renderer takes, and the ledger of the rendered-image
//! cache (what is cached, in which order it was used, what it weighs, and
//! what is pending or failed).

use vstd::prelude::*;

use crate::markdown::{Block, Document};
use crate::text::{char_is_whitespace, chars_of, is_whitespace};
use crate::ui::{sat_add, sat_sub, split_lines, text_lines};

verus! {

/// The most bytes of rendered images that the cache keeps, unless a single
/// image weighs more on its own.
pub const MAX_CACHE_BYTES: usize = 32 * 1024 * 1024;

/// The number of terminal rows that a rendered diagram takes.
pub const DISPLAY_HEIGHT: u16 = 24;

/// Whether Mermaid code blocks show their rendered image or their source.
#[derive(Clone, Copy, Debug, Default, PartialEq, Eq, Structural)]
pub enum DisplayMode {
    #[default]
    Rendered,
    Source,
}

// ---------------------------------------------------------------------------
// Trimming

/// `s` without its leading whitespace.
pub open spec fn trim_start(s: Seq<char>) -> Seq<char>
    decreases s.len(),
{
    if s.len() > 0 && char_is_whitespace(s[0]) {
        trim_start(s.drop_first())
    } else {
        s
    }
}

/// `s` without its trailing whitespace.
pub open spec fn trim_end(s: Seq<char>) -> Seq<char>
    decreases s.len(),
{
    if s.len() > 0 && char_is_whitespace(s.last()) {
        trim_end(s.drop_last())
    } else {
        s
    }
}

/// `s` without leading and trailing whitespace, as `str::trim` gives it.
pub open spec fn trim(s: Seq<char>) -> Seq<char> {
    trim_end(trim_start(s))
}

proof fn lemma_trim_start_skip(s: Seq<char>, i: int)
    requires
        0 <= i <= s.len(),
        forall|k: int| 0 <= k < i ==> char_is_whitespace(#[trigger] s[k]),
        i == s.len() || !char_is_whitespace(s[i]),
    ensures
        trim_start(s) == s.skip(i),
    decreases i,
{
    if i == 0 {
        assert(s.skip(0) =~= s);
    } else {
        assert(char_is_whitespace(s[0]));
        lemma_trim_start_skip(s.drop_first(), i - 1);
        assert(s.drop_first().skip(i - 1) =~= s.skip(i));
    }
}

proof fn lemma_trim_end_take(s: Seq<char>, j: int)
    requires
        0 <= j <= s.len(),
        forall|k: int| j <= k < s.len() ==> char_is_whitespace(#[trigger] s[k]),
        j == 0 || !char_is_whitespace(s[j - 1]),
    ensures
        trim_end(s) == s.take(j),
    decreases s.len() - j,
{
    if j == s.len() {
        assert(s.take(j) =~= s);
    } else {
        assert(char_is_whitespace(s.last()));
        lemma_trim_end_take(s.drop_last(), j);
        assert(s.drop_last().take(j) =~= s.take(j));
    }
}

/// The characters of `s` without leading whitespace.
fn trim_start_chars(s: &Vec<char>) -> (t: Vec<char>)
    ensures
        t@ == trim_start(s@),
{
    let mut i: usize = 0;
    while i < s.len() && is_whitespace(s[i])
        invariant
            i <= s.len(),
            forall|k: int| 0 <= k < i ==> char_is_whitespace(#[trigger] s@[k]),
        decreases s.len() - i,
    {
        i = i + 1;
    }
    proof {
        lemma_trim_start_skip(s@, i as int);
    }
    let mut t: Vec<char> = Vec::new();
    let mut k: usize = i;
    while k < s.len()
        invariant
            i <= k <= s.len(),
            t@ == s@.subrange(i as int, k as int),
        decreases s.len() - k,
    {
        t.push(s[k]);
        k = k + 1;
        assert(t@ =~= s@.subrange(i as int, k as int));
    }
    assert(s@.subrange(i as int, s.len() as int) =~= s@.skip(i as int));
    t
}

/// The characters of `s` without leading and trailing whitespace.
fn trim_chars(s: &Vec<char>) -> (t: Vec<char>)
    ensures
        t@ == trim(s@),
{
    let mut t = trim_start_chars(s);
    let ghost start = t@;
    let mut j: usize = t.len();
    while j > 0 && is_whitespace(t[j - 1])
        invariant
            j <= t.len(),
            t@ == start,
            forall|k: int| j <= k < t.len() ==> char_is_whitespace(#[trigger] t@[k]),
        decreases j,
    {
        j = j - 1;
    }
    proof {
        lemma_trim_end_take(t@, j as int);
    }
    t.truncate(j);
    assert(t@ =~= start.take(j as int));
    t
}

// ---------------------------------------------------------------------------
// Mermaid fences

/// ASCII lowercase of `c`; other characters stay as they are.
pub open spec fn ascii_lower(c: char) -> char {
    if 65 <= (c as u32) <= 90 {
        (((c as u32) + 32) as u8) as char
    } else {
        c
    }
}

/// `a` and `b` are equal when ASCII letters are compared without case, as
/// `str::eq_ignore_ascii_case` compares them.
pub open spec fn eq_ignore_ascii_case(a: Seq<char>, b: Seq<char>) -> bool {
    a.len() == b.len() && forall|i: int| 0 <= i < a.len() ==> ascii_lower(#[trigger] a[i]) == ascii_lower(b[i])
}

/// A fence language that names Mermaid: `mermaid` in any ASCII case, with
/// surrounding whitespace.
pub open spec fn names_mermaid(language: Seq<char>) -> bool {
    eq_ignore_ascii_case(trim(language), "mermaid"@)
}

/// A code block with this language is a Mermaid diagram.
pub open spec fn mermaid_language(language: Option<Seq<char>>) -> bool {
    match language {
        Some(l) => names_mermaid(l),
        None => false,
    }
}

fn ascii_lower_char(c: char) -> (lower: char)
    ensures
        lower == ascii_lower(c),
{
    let code = c as u32;
    if 65 <= code && code <= 90 {
        ((code + 32) as u8) as char
    } else {
        c
    }
}

fn eq_ignore_ascii_case_chars(a: &Vec<char>, b: &Vec<char>) -> (equal: bool)
    ensures
        equal == eq_ignore_ascii_case(a@, b@),
{
    if a.len() != b.len() {
        return false;
    }
    let mut i: usize = 0;
    while i < a.len()
        invariant
            a.len() == b.len(),
            i <= a.len(),
            forall|k: int| 0 <= k < i ==> ascii_lower(#[trigger] a@[k]) == ascii_lower(b@[k]),
        decreases a.len() - i,
    {
        if ascii_lower_char(a[i]) != ascii_lower_char(b[i]) {
            return false;
        }
        i = i + 1;
    }
    true
}

/// Whether a fence with this language holds a Mermaid diagram.
pub fn is_mermaid(language: Option<&str>) -> (mermaid: bool)
    ensures
        mermaid == mermaid_language(
            match language {
                Some(l) => Some(l@),
                None => None,
            },
        ),
{
    match language {
        None => false,
        Some(l) => {
            let chars = chars_of(l);
            let trimmed = trim_chars(&chars);
            let name = chars_of("mermaid");
            eq_ignore_ascii_case_chars(&trimmed, &name)
        },
    }
}

// ---------------------------------------------------------------------------
// Supported diagram families

/// The first line of `lines` that holds more than whitespace.
pub open spec fn first_non_blank(lines: Seq<Seq<char>>) -> Option<Seq<char>>
    decreases lines.len(),
{
    if lines.len() == 0 {
        None
    } else if trim(lines[0]).len() > 0 {
        Some(lines[0])
    } else {
        first_non_blank(lines.drop_first())
    }
}

/// The renderer takes a diagram whose first non-blank line starts, after its
/// indentation, with `flowchart`, `graph` or `sequenceDiagram`.
pub open spec fn supported_source(source: Seq<char>) -> bool {
    match first_non_blank(text_lines(source)) {
        None => false,
        Some(line) => {
            let first = trim_start(line);
            "flowchart"@.is_prefix_of(first) || "graph"@.is_prefix_of(first)
                || "sequenceDiagram"@.is_prefix_of(first)
        },
    }
}

pub(crate) fn starts_with_chars(text: &Vec<char>, prefix: &str) -> (starts: bool)
    ensures
        starts == prefix@.is_prefix_of(text@),
{
    let p = chars_of(prefix);
    if p.len() > text.len() {
        return false;
    }
    let mut i: usize = 0;
    while i < p.len()
        invariant
            p@ == prefix@,
            p.len() <= text.len(),
            i <= p.len(),
            forall|k: int| 0 <= k < i ==> #[trigger] p@[k] == text@[k],
        decreases p.len() - i,
    {
        if p[i] != text[i] {
            assert(text@.subrange(0, p@.len() as int)[i as int] == text@[i as int]);
            return false;
        }
        i = i + 1;
    }
    assert(p@ =~= text@.subrange(0, p@.len() as int));
    true
}

/// Whether the renderer takes this diagram source.
pub fn is_supported_source(source: &str) -> (supported: bool)
    ensures
        supported == supported_source(source@),
{
    let chars = chars_of(source);
    let lines = split_lines(&chars);
    let ghost views = lines@.map_values(|l: Vec<char>| l@);
    let mut i: usize = 0;
    assert(views.skip(0) =~= views);
    while i < lines.len()
        invariant
            i <= lines.len(),
            views == lines@.map_values(|l: Vec<char>| l@),
            views == text_lines(source@),
            first_non_blank(views) == first_non_blank(views.skip(i as int)),
        decreases lines.len() - i,
    {
        assert(views.skip(i as int)[0] == lines@[i as int]@);
        assert(views.skip(i as int).drop_first() =~= views.skip(i + 1));
        let trimmed = trim_chars(&lines[i]);
        if trimmed.len() > 0 {
            let first = trim_start_chars(&lines[i]);
            return starts_with_chars(&first, "flowchart") || starts_with_chars(&first, "graph")
                || starts_with_chars(&first, "sequenceDiagram");
        }
        i = i + 1;
    }
    false
}

// ---------------------------------------------------------------------------
// Diagram blocks of a document

/// The Mermaid code blocks among `blocks`: their indices and sources.
pub open spec fn mermaid_blocks(blocks: Seq<Block>) -> Seq<(usize, Seq<char>)>
    decreases blocks.len(),
{
    if blocks.len() == 0 {
        seq![]
    } else {
        let earlier = mermaid_blocks(blocks.drop_last());
        match blocks.last() {
            Block::CodeBlock { language, content } => if mermaid_language(
                match language {
                    Some(l) => Some(l@),
                    None => None,
                },
            ) {
                earlier.push(((blocks.len() - 1) as usize, content@))
            } else {
                earlier
            },
            _ => earlier,
        }
    }
}

pub open spec fn source_views(blocks: Seq<(usize, &str)>) -> Seq<(usize, Seq<char>)> {
    blocks.map_values(|b: (usize, &str)| (b.0, b.1@))
}

/// The blocks that show as rendered diagrams in `mode`: the Mermaid code
/// blocks, with their indices and sources, when diagrams are rendered;
/// none when sources are shown.
pub fn rendered_blocks(document: &Document, mode: DisplayMode) -> (diagrams: Vec<(usize, &str)>)
    ensures
        mode == DisplayMode::Source ==> diagrams@.len() == 0,
        mode == DisplayMode::Rendered ==> source_views(diagrams@) == mermaid_blocks(document.spec_blocks()),
{
    let mut diagrams: Vec<(usize, &str)> = Vec::new();
    if mode == DisplayMode::Source {
        return diagrams;
    }
    let blocks = document.blocks();
    let mut i: usize = 0;
    while i < blocks.len()
        invariant
            i <= blocks.len(),
            blocks@ == document.spec_blocks(),
            source_views(diagrams@) == mermaid_blocks(blocks@.take(i as int)),
        decreases blocks.len() - i,
    {
        assert(blocks@.take(i + 1).drop_last() =~= blocks@.take(i as int));
        assert(blocks@.take(i + 1).last() == blocks@[i as int]);
        if let Block::CodeBlock { language, content } = &blocks[i] {
            let language_str: Option<&str> = match language {
                Some(l) => Some(l.as_str()),
                None => None,
            };
            if is_mermaid(language_str) {
                let ghost before = source_views(diagrams@);
                diagrams.push((i, content.as_str()));
                assert(source_views(diagrams@) =~= before.push((i, content@)));
            }
        }
        i = i + 1;
    }
    assert(blocks@.take(i as int) =~= blocks@);
    diagrams
}

// ---------------------------------------------------------------------------
// The cache ledger

/// A rendered image is cached per diagram source and size in cells.
#[derive(Debug)]
pub struct CacheKey {
    pub source: String,
    pub width: u16,
    pub height: u16,
}

impl View for CacheKey {
    type V = (Seq<char>, u16, u16);

    open spec fn view(&self) -> (Seq<char>, u16, u16) {
        (self.source@, self.width, self.height)
    }
}

impl CacheKey {
    pub fn new(source: &str, width: u16, height: u16) -> (key: CacheKey)
        ensures
            key@ == (source@, width, height),
    {
        CacheKey { source: source.to_owned(), width, height }
    }

    /// The same key as `self`.
    pub fn copy(&self) -> (key: CacheKey)
        ensures
            key@ == self@,
    {
        CacheKey { source: self.source.clone(), width: self.width, height: self.height }
    }

    pub fn same_as(&self, other: &CacheKey) -> (same: bool)
        ensures
            same == (self@ == other@),
    {
        self.width == other.width && self.height == other.height && self.source == other.source
    }
}

pub type KeyView = (Seq<char>, u16, u16);

/// What to do about a diagram that the preview wants to show.
#[derive(Clone, Copy, Debug, PartialEq, Eq, Structural)]
pub enum RequestAction {
    /// Its image is cached (and now counts as the most recently used).
    Cached,
    /// It is being rendered, or rendering it failed before: wait or show the source.
    Wait,
    /// Hand it to the renderer.
    Render,
}

/// How handing a job to the renderer went.
#[derive(Clone, Copy, Debug, PartialEq, Eq, Structural)]
pub enum SendOutcome {
    Sent,
    /// The renderer is busy; the job is asked for again later.
    Full,
    /// The renderer has stopped.
    Disconnected,
}

/// The bookkeeping of the diagram cache: the cached keys with their sizes in
/// bytes, least recently used first; the keys being rendered; the keys whose
/// rendering failed; and the bytes counted so far.
pub struct DiagramLedger {
    entries: Vec<(CacheKey, usize)>,
    pending: Vec<CacheKey>,
    failures: Vec<CacheKey>,
    bytes: usize,
}

pub struct LedgerView {
    pub entries: Seq<(KeyView, usize)>,
    pub pending: Seq<KeyView>,
    pub failures: Seq<KeyView>,
    pub bytes: usize,
}

pub open spec fn entry_views(entries: Seq<(CacheKey, usize)>) -> Seq<(KeyView, usize)> {
    entries.map_values(|e: (CacheKey, usize)| (e.0@, e.1))
}

pub open spec fn key_views(keys: Seq<CacheKey>) -> Seq<KeyView> {
    keys.map_values(|k: CacheKey| k@)
}

impl View for DiagramLedger {
    type V = LedgerView;

    closed spec fn view(&self) -> LedgerView {
        LedgerView {
            entries: entry_views(self.entries@),
            pending: key_views(self.pending@),
            failures: key_views(self.failures@),
            bytes: self.bytes,
        }
    }
}

/// The keys of `entries`, in order.
pub open spec fn keys_of(entries: Seq<(KeyView, usize)>) -> Seq<KeyView> {
    entries.map_values(|e: (KeyView, usize)| e.0)
}

/// No key occurs twice in `s`.
pub open spec fn distinct(s: Seq<KeyView>) -> bool {
    forall|i: int, j: int| 0 <= i < j < s.len() ==> s[i] != s[j]
}

/// The position of `key` in `s`, if it occurs.
pub open spec fn position_of(s: Seq<KeyView>, key: KeyView) -> Option<int> {
    if s.contains(key) {
        Some(choose|i: int| 0 <= i < s.len() && s[i] == key)
    } else {
        None
    }
}

/// `s` with `key` added when it is missing.
pub open spec fn with_key(s: Seq<KeyView>, key: KeyView) -> Seq<KeyView> {
    if s.contains(key) {
        s
    } else {
        s.push(key)
    }
}

/// `s` without `key`.
pub open spec fn without_key(s: Seq<KeyView>, key: KeyView) -> Seq<KeyView> {
    match position_of(s, key) {
        Some(i) => s.remove(i),
        None => s,
    }
}

/// `entries` with the entry of `key` moved to the end (the most recently used).
pub open spec fn touched(entries: Seq<(KeyView, usize)>, key: KeyView) -> Seq<(KeyView, usize)> {
    match position_of(keys_of(entries), key) {
        Some(i) => entries.remove(i).push(entries[i]),
        None => entries,
    }
}

/// `entries` with `(key, size)` as the most recently used entry, in place of
/// an older entry for `key`.
pub open spec fn placed(entries: Seq<(KeyView, usize)>, key: KeyView, size: usize) -> Seq<(KeyView, usize)> {
    match position_of(keys_of(entries), key) {
        Some(i) => entries.remove(i).push((key, size)),
        None => entries.push((key, size)),
    }
}

/// Drops the least recently used entries while the count is over the budget
/// and more than one entry is left; each dropped entry's size is taken off
/// the count.
pub open spec fn evicted(entries: Seq<(KeyView, usize)>, bytes: usize) -> (Seq<(KeyView, usize)>, usize)
    decreases entries.len(),
{
    if bytes > MAX_CACHE_BYTES && entries.len() > 1 {
        evicted(entries.drop_first(), sat_sub(bytes, entries[0].1))
    } else {
        (entries, bytes)
    }
}

impl LedgerView {
    /// The ledger is consistent: no key is listed twice anywhere.
    pub open spec fn is_consistent(self) -> bool {
        &&& distinct(keys_of(self.entries))
        &&& distinct(self.pending)
        &&& distinct(self.failures)
    }

    /// The key is cached.
    pub open spec fn caches(self, key: KeyView) -> bool {
        keys_of(self.entries).contains(key)
    }

    /// The ledger after a request for `key`: a cached key becomes the most
    /// recently used.
    pub open spec fn after_request(self, key: KeyView) -> LedgerView {
        if self.caches(key) {
            LedgerView { entries: touched(self.entries, key), ..self }
        } else {
            self
        }
    }

    /// What a request for `key` calls for.
    pub open spec fn request_action(self, key: KeyView) -> RequestAction {
        if self.caches(key) {
            RequestAction::Cached
        } else if self.pending.contains(key) || self.failures.contains(key) {
            RequestAction::Wait
        } else {
            RequestAction::Render
        }
    }

    /// The ledger after a render job for `key` was handed over with `outcome`.
    pub open spec fn after_send(self, key: KeyView, outcome: SendOutcome) -> LedgerView {
        match outcome {
            SendOutcome::Sent => LedgerView { pending: with_key(self.pending, key), ..self },
            SendOutcome::Full => self,
            SendOutcome::Disconnected => LedgerView { failures: with_key(self.failures, key), ..self },
        }
    }

    /// The ledger after caching an image of `size` bytes for `key`: the entry
    /// becomes the most recently used (replacing an older one for the same
    /// key), its size is added to the count (saturating), and then the least
    /// recently used entries are dropped while over the budget.
    pub open spec fn after_insert(self, key: KeyView, size: usize) -> LedgerView {
        let (kept, bytes) = evicted(placed(self.entries, key, size), sat_add(self.bytes, size));
        LedgerView { entries: kept, bytes, ..self }
    }

    /// The ledger after the renderer answered for `key`: with the size of the
    /// image, or with nothing when rendering failed.
    pub open spec fn after_finish(self, key: KeyView, rendered: Option<usize>) -> LedgerView {
        let waiting = LedgerView { pending: without_key(self.pending, key), ..self };
        match rendered {
            Some(size) => waiting.after_insert(key, size),
            None => LedgerView { failures: with_key(waiting.failures, key), ..waiting },
        }
    }
}

proof fn lemma_position_of(s: Seq<KeyView>, key: KeyView)
    requires
        distinct(s),
    ensures
        position_of(s, key) matches Some(i) ==> 0 <= i < s.len() && s[i] == key && forall|j: int|
            0 <= j < s.len() && j != i ==> s[j] != key,
        position_of(s, key) is None ==> forall|j: int| 0 <= j < s.len() ==> s[j] != key,
{
}

proof fn lemma_distinct_remove(s: Seq<KeyView>, i: int)
    requires
        distinct(s),
        0 <= i < s.len(),
    ensures
        distinct(s.remove(i)),
        forall|x: KeyView| s.remove(i).contains(x) ==> s.contains(x),
{
    assert forall|x: KeyView| s.remove(i).contains(x) implies s.contains(x) by {
        let k = choose|k: int| 0 <= k < s.remove(i).len() && s.remove(i)[k] == x;
        if k < i {
            assert(s[k] == x);
        } else {
            assert(s[k + 1] == x);
        }
    }
}

proof fn lemma_evicted(entries: Seq<(KeyView, usize)>, bytes: usize)
    requires
        distinct(keys_of(entries)),
    ensures
        ({
            let (kept, left) = evicted(entries, bytes);
            &&& kept.len() <= entries.len()
            &&& kept == entries.skip(entries.len() - kept.len())
            &&& (entries.len() > 0 ==> kept.len() > 0)
            &&& left <= MAX_CACHE_BYTES || kept.len() <= 1
            &&& distinct(keys_of(kept))
        }),
    decreases entries.len(),
{
    if bytes > MAX_CACHE_BYTES && entries.len() > 1 {
        let rest = entries.drop_first();
        assert(keys_of(rest) =~= keys_of(entries).drop_first());
        lemma_evicted(rest, sat_sub(bytes, entries[0].1));
        let (kept, left) = evicted(rest, sat_sub(bytes, entries[0].1));
        assert(rest.skip(rest.len() - kept.len()) =~= entries.skip(entries.len() - kept.len()));
    } else {
        assert(entries.skip(0) =~= entries);
    }
}

/// After an image is cached, the count is within the budget unless that
/// image is all that the cache holds, and the image just cached stays cached
/// as the most recently used.
pub proof fn law_insert_keeps_budget(v: LedgerView, key: KeyView, size: usize)
    requires
        v.is_consistent(),
    ensures
        v.after_insert(key, size).bytes <= MAX_CACHE_BYTES || v.after_insert(key, size).entries.len() == 1,
        v.after_insert(key, size).entries.len() > 0,
        v.after_insert(key, size).entries.last() == (key, size),
        v.after_insert(key, size).is_consistent(),
{
    lemma_insert_placed(v.entries, key, size);
    lemma_evicted(placed(v.entries, key, size), sat_add(v.bytes, size));
}

proof fn lemma_insert_placed(entries: Seq<(KeyView, usize)>, key: KeyView, size: usize)
    requires
        distinct(keys_of(entries)),
    ensures
        distinct(keys_of(placed(entries, key, size))),
        placed(entries, key, size).len() > 0,
        placed(entries, key, size).last() == (key, size),
{
    lemma_position_of(keys_of(entries), key);
    match position_of(keys_of(entries), key) {
        Some(i) => {
            let rest = entries.remove(i);
            assert(keys_of(rest) =~= keys_of(entries).remove(i));
            lemma_distinct_remove(keys_of(entries), i);
            assert(!keys_of(rest).contains(key)) by {
                if keys_of(rest).contains(key) {
                    let k = choose|k: int| 0 <= k < keys_of(rest).len() && keys_of(rest)[k] == key;
                    if k < i {
                        assert(keys_of(entries)[k] == key);
                    } else {
                        assert(keys_of(entries)[k + 1] == key);
                    }
                }
            }
            assert(keys_of(rest.push((key, size))) =~= keys_of(rest).push(key));
        },
        None => {
            assert(keys_of(entries.push((key, size))) =~= keys_of(entries).push(key));
            assert(!keys_of(entries).contains(key));
        },
    }
}

/// The position of `key` among `keys`.
fn find_key(keys: &Vec<CacheKey>, key: &CacheKey) -> (found: Option<usize>)
    requires
        distinct(key_views(keys@)),
    ensures
        match found {
            Some(i) => position_of(key_views(keys@), key@) == Some(i as int),
            None => position_of(key_views(keys@), key@) is None,
        },
{
    let ghost views = key_views(keys@);
    let mut i: usize = 0;
    while i < keys.len()
        invariant
            i <= keys.len(),
            views == key_views(keys@),
            distinct(views),
            forall|k: int| 0 <= k < i ==> views[k] != key@,
        decreases keys.len() - i,
    {
        assert(views[i as int] == keys@[i as int]@);
        if keys[i].same_as(key) {
            assert(views.contains(key@));
            proof {
                lemma_position_of(views, key@);
            }
            return Some(i);
        }
        i = i + 1;
    }
    assert(!views.contains(key@));
    None
}

/// The position of the entry for `key` among `entries`.
fn find_entry(entries: &Vec<(CacheKey, usize)>, key: &CacheKey) -> (found: Option<usize>)
    requires
        distinct(keys_of(entry_views(entries@))),
    ensures
        match found {
            Some(i) => position_of(keys_of(entry_views(entries@)), key@) == Some(i as int),
            None => position_of(keys_of(entry_views(entries@)), key@) is None,
        },
{
    let ghost views = keys_of(entry_views(entries@));
    let mut i: usize = 0;
    while i < entries.len()
        invariant
            i <= entries.len(),
            views == keys_of(entry_views(entries@)),
            distinct(views),
            forall|k: int| 0 <= k < i ==> views[k] != key@,
        decreases entries.len() - i,
    {
        assert(views[i as int] == entries@[i as int].0@);
        if entries[i].0.same_as(key) {
            assert(views.contains(key@));
            proof {
                lemma_position_of(views, key@);
            }
            return Some(i);
        }
        i = i + 1;
    }
    assert(!views.contains(key@));
    None
}

/// Adds `key` to the set `keys` when it is missing.
fn add_key(keys: &mut Vec<CacheKey>, key: CacheKey)
    requires
        distinct(key_views(old(keys)@)),
    ensures
        distinct(key_views(final(keys)@)),
        key_views(final(keys)@) == with_key(key_views(old(keys)@), key@),
{
    let ghost before = key_views(keys@);
    match find_key(keys, &key) {
        Some(_) => {
            assert(before.contains(key@));
        },
        None => {
            assert(!before.contains(key@));
            keys.push(key);
            assert(key_views(keys@) =~= before.push(key@));
            assert forall|i: int, j: int| 0 <= i < j < key_views(keys@).len() implies key_views(keys@)[i]
                != key_views(keys@)[j] by {
                if j == before.len() {
                    assert(key_views(keys@)[i] == before[i]);
                }
            }
        },
    }
}

/// Removes `key` from the set `keys`.
fn remove_key(keys: &mut Vec<CacheKey>, key: &CacheKey)
    requires
        distinct(key_views(old(keys)@)),
    ensures
        distinct(key_views(final(keys)@)),
        key_views(final(keys)@) == without_key(key_views(old(keys)@), key@),
{
    let ghost before = key_views(keys@);
    if let Some(i) = find_key(keys, key) {
        keys.remove(i);
        assert(key_views(keys@) =~= before.remove(i as int));
        proof {
            lemma_distinct_remove(before, i as int);
        }
    }
}

impl DiagramLedger {
    /// The ledger keeps each key at most once in each of its lists.
    pub closed spec fn wf(&self) -> bool {
        self@.is_consistent()
    }

    /// An empty ledger.
    pub fn new() -> (ledger: DiagramLedger)
        ensures
            ledger.wf(),
            ledger@.entries.len() == 0,
            ledger@.pending.len() == 0,
            ledger@.failures.len() == 0,
            ledger@.bytes == 0,
    {
        let ledger = DiagramLedger { entries: Vec::new(), pending: Vec::new(), failures: Vec::new(), bytes: 0 };
        assert(ledger@.entries =~= Seq::<(KeyView, usize)>::empty());
        ledger
    }

    /// The bytes counted for the cached images.
    pub fn cached_bytes(&self) -> (bytes: usize)
        ensures
            bytes == self@.bytes,
    {
        self.bytes
    }

    /// Whether an image for `key` is cached.
    pub fn is_cached(&self, key: &CacheKey) -> (cached: bool)
        requires
            self.wf(),
        ensures
            cached == self@.caches(key@),
    {
        find_entry(&self.entries, key).is_some()
    }

    /// Whether rendering `key` failed.
    pub fn is_failed(&self, key: &CacheKey) -> (failed: bool)
        requires
            self.wf(),
        ensures
            failed == self@.failures.contains(key@),
    {
        find_key(&self.failures, key).is_some()
    }

    /// Decides what a request for `key` calls for; a cached key becomes the
    /// most recently used.
    pub fn request(&mut self, key: &CacheKey) -> (action: RequestAction)
        requires
            old(self).wf(),
        ensures
            final(self).wf(),
            action == old(self)@.request_action(key@),
            final(self)@ == old(self)@.after_request(key@),
    {
        let ghost before = entry_views(self.entries@);
        if let Some(i) = find_entry(&self.entries, key) {
            let entry = self.entries.remove(i);
            self.entries.push(entry);
            proof {
                lemma_position_of(keys_of(before), key@);
                assert(entry_views(self.entries@) =~= before.remove(i as int).push(before[i as int]));
                assert(keys_of(entry_views(self.entries@)) =~= keys_of(before).remove(i as int).push(
                    keys_of(before)[i as int],
                ));
                lemma_distinct_remove(keys_of(before), i as int);
                assert(keys_of(before).contains(key@));
            }
            return RequestAction::Cached;
        }
        if find_key(&self.pending, key).is_some() || find_key(&self.failures, key).is_some() {
            RequestAction::Wait
        } else {
            RequestAction::Render
        }
    }

    /// Records how handing the render job for `key` went.
    pub fn record_send(&mut self, key: CacheKey, outcome: SendOutcome)
        requires
            old(self).wf(),
        ensures
            final(self).wf(),
            final(self)@ == old(self)@.after_send(key@, outcome),
    {
        match outcome {
            SendOutcome::Sent => add_key(&mut self.pending, key),
            SendOutcome::Full => {},
            SendOutcome::Disconnected => add_key(&mut self.failures, key),
        }
    }

    /// Caches an image of `size` bytes for `key` and returns the keys whose
    /// images were dropped to stay within the budget, oldest first.
    fn insert(&mut self, key: CacheKey, size: usize) -> (dropped: Vec<CacheKey>)
        requires
            old(self).wf(),
        ensures
            final(self).wf(),
            final(self)@ == old(self)@.after_insert(key@, size),
            key_views(dropped@) + keys_of(final(self)@.entries) == keys_of(
                placed(old(self)@.entries, key@, size),
            ),
    {
        let ghost before = entry_views(self.entries@);
        let ghost k = key@;
        let found = find_entry(&self.entries, &key);
        if let Some(i) = found {
            self.entries.remove(i);
            assert(entry_views(self.entries@) =~= before.remove(i as int));
        }
        self.entries.push((key, size));
        let ghost start = entry_views(self.entries@);
        assert(start =~= placed(before, k, size));
        proof {
            lemma_insert_placed(before, k, size);
        }
        self.bytes = self.bytes.saturating_add(size);
        let ghost start_bytes = self.bytes;
        let ghost pending0 = self.pending@;
        let ghost failures0 = self.failures@;
        assert(start_bytes == sat_add(old(self)@.bytes, size));
        let mut dropped: Vec<CacheKey> = Vec::new();
        while self.bytes > MAX_CACHE_BYTES && self.entries.len() > 1
            invariant
                evicted(entry_views(self.entries@), self.bytes) == evicted(start, start_bytes),
                key_views(dropped@) + keys_of(entry_views(self.entries@)) == keys_of(start),
                distinct(keys_of(entry_views(self.entries@))),
                distinct(key_views(self.pending@)),
                distinct(key_views(self.failures@)),
                self.pending@ == pending0,
                self.failures@ == failures0,
            decreases self.entries.len(),
        {
            let ghost current = entry_views(self.entries@);
            let (oldest, size_of_oldest) = self.entries.remove(0);
            self.bytes = self.bytes.saturating_sub(size_of_oldest);
            let ghost before_dropped = key_views(dropped@);
            dropped.push(oldest);
            proof {
                assert(entry_views(self.entries@) =~= current.drop_first());
                assert(keys_of(entry_views(self.entries@)) =~= keys_of(current).drop_first());
                assert(key_views(dropped@) =~= before_dropped.push(keys_of(current)[0]));
                assert(key_views(dropped@) + keys_of(entry_views(self.entries@)) =~= before_dropped + keys_of(current));
                assert forall|a: int, b: int| 0 <= a < b < keys_of(entry_views(self.entries@)).len() implies keys_of(
                    entry_views(self.entries@),
                )[a] != keys_of(entry_views(self.entries@))[b] by {
                    assert(keys_of(entry_views(self.entries@))[a] == keys_of(current)[a + 1]);
                    assert(keys_of(entry_views(self.entries@))[b] == keys_of(current)[b + 1]);
                }
            }
        }
        dropped
    }

    /// Records the renderer's answer for `key`: the size of its image, or
    /// nothing when rendering failed. Returns the keys whose images were
    /// dropped to stay within the budget, oldest first.
    pub fn finish(&mut self, key: CacheKey, rendered: Option<usize>) -> (dropped: Vec<CacheKey>)
        requires
            old(self).wf(),
        ensures
            final(self).wf(),
            final(self)@ == old(self)@.after_finish(key@, rendered),
            rendered is None ==> dropped@.len() == 0,
            rendered matches Some(size) ==> key_views(dropped@) + keys_of(final(self)@.entries) == keys_of(
                placed(old(self)@.entries, key@, size),
            ),
    {
        remove_key(&mut self.pending, &key);
        match rendered {
            Some(size) => self.insert(key, size),
            None => {
                add_key(&mut self.failures, key);
                Vec::new()
            },
        }
    }
}

// ---------------------------------------------------------------------------
// Sizes for the renderer

/// `a * b`, stopping at `u32::MAX`.
pub open spec fn sat_mul_u32(a: u32, b: u32) -> u32 {
    if a * b <= u32::MAX { (a * b) as u32 } else { u32::MAX }
}

fn cells_to_pixels(cells: u16, cell_pixels: u16) -> (pixels: u32)
    ensures
        pixels == sat_mul_u32(cells as u32, cell_pixels as u32),
{
    assert((cells as u64) * (cell_pixels as u64) <= 65535 * 65535) by (nonlinear_arith)
        requires
            cells <= 65535,
            cell_pixels <= 65535,
    ;
    let product = (cells as u64) * (cell_pixels as u64);
    if product <= 4294967295 {
        product as u32
    } else {
        4294967295
    }
}

/// The box, in pixels, that a diagram of `width` by `height` cells is fitted
/// into, for cells of `font_width` by `font_height` pixels.
pub fn raster_box(width: u16, height: u16, font_width: u16, font_height: u16) -> (size: (u32, u32))
    ensures
        size == (sat_mul_u32(width as u32, font_width as u32), sat_mul_u32(height as u32, font_height as u32)),
{
    (cells_to_pixels(width, font_width), cells_to_pixels(height, font_height))
}

/// What a rendered image weighs in the cache: the bytes of its PNG plus four
/// bytes per pixel of the decoded image.
pub fn image_cost(compressed_bytes: usize, pixel_width: u32, pixel_height: u32) -> (cost: usize)
    requires
        pixel_width * pixel_height * 4 <= usize::MAX,
    ensures
        cost == sat_add(compressed_bytes, (pixel_width * pixel_height * 4) as usize),
{
    let raw_bytes = (pixel_width as usize) * (pixel_height as usize) * 4;
    compressed_bytes.saturating_add(raw_bytes)
}

/// A request for a cached key keeps the same images cached and makes that
/// key the most recently used.
pub proof fn law_request_refreshes_entry(v: LedgerView, key: KeyView)
    requires
        v.is_consistent(),
        v.caches(key),
    ensures
        v.after_request(key).is_consistent(),
        v.after_request(key).entries.len() == v.entries.len(),
        keys_of(v.after_request(key).entries).last() == key,
        forall|x: KeyView| v.after_request(key).caches(x) == v.caches(x),
        v.after_request(key).bytes == v.bytes,
{
    let keys = keys_of(v.entries);
    lemma_position_of(keys, key);
    let i = position_of(keys, key)->0;
    let moved = v.entries.remove(i).push(v.entries[i]);
    assert(keys_of(moved) =~= keys.remove(i).push(keys[i]));
    lemma_distinct_remove(keys, i);
    assert(!keys.remove(i).contains(key)) by {
        if keys.remove(i).contains(key) {
            let k = choose|k: int| 0 <= k < keys.remove(i).len() && keys.remove(i)[k] == key;
            if k < i {
                assert(keys[k] == key);
            } else {
                assert(keys[k + 1] == key);
            }
        }
    }
    assert forall|x: KeyView| keys_of(moved).contains(x) == keys.contains(x) by {
        if keys.contains(x) {
            let k = choose|k: int| 0 <= k < keys.len() && keys[k] == x;
            if k < i {
                assert(keys_of(moved)[k] == x);
            } else if k == i {
                assert(keys_of(moved)[keys_of(moved).len() - 1] == x);
            } else {
                assert(keys_of(moved)[k - 1] == x);
            }
        }
        if keys_of(moved).contains(x) {
            let k = choose|k: int| 0 <= k < keys_of(moved).len() && keys_of(moved)[k] == x;
            if k < keys_of(moved).len() - 1 {
                assert(keys.remove(i).contains(x));
            }
        }
    }
}

/// The diagrams that the preview renders are exactly Mermaid code blocks of
/// the document, in order, each with its own source.
pub proof fn law_rendered_blocks_are_mermaid(blocks: Seq<Block>, k: int)
    requires
        blocks.len() <= usize::MAX,
        0 <= k < mermaid_blocks(blocks).len(),
    ensures
        ({
            let (index, source) = mermaid_blocks(blocks)[k];
            &&& index < blocks.len()
            &&& blocks[index as int] matches Block::CodeBlock { language, content }
            &&& content@ == source
            &&& mermaid_language(
                match language {
                    Some(l) => Some(l@),
                    None => None,
                },
            )
        }),
    decreases blocks.len(),
{
    let earlier = mermaid_blocks(blocks.drop_last());
    if k < earlier.len() {
        law_rendered_blocks_are_mermaid(blocks.drop_last(), k);
        assert(mermaid_blocks(blocks)[k] == earlier[k]);
        assert(blocks.drop_last()[earlier[k].0 as int] == blocks[earlier[k].0 as int]);
    } else {
        let last = blocks.len() - 1;
        assert(blocks.last() == blocks[last]);
        match blocks.last() {
            Block::CodeBlock { language, content } => {
                assert(mermaid_blocks(blocks)[k] == (last as usize, content@));
            },
            _ => {},
        }
    }
}

/// A diagram is rendered once: while its job is pending, and after its
/// rendering failed, a request for it is not handed to the renderer again.
pub proof fn law_no_second_render(v: LedgerView, key: KeyView)
    ensures
        v.after_send(key, SendOutcome::Sent).request_action(key) != RequestAction::Render,
        v.after_send(key, SendOutcome::Disconnected).request_action(key) != RequestAction::Render,
        v.after_finish(key, None).request_action(key) != RequestAction::Render,
{
    assert(with_key(v.pending, key).contains(key)) by {
        if !v.pending.contains(key) {
            assert(v.pending.push(key)[v.pending.len() as int] == key);
        }
    }
    assert(with_key(v.failures, key).contains(key)) by {
        if !v.failures.contains(key) {
            assert(v.failures.push(key)[v.failures.len() as int] == key);
        }
    }
}

} // verus!
