//! Bounded, non-executing document presentation for the native file viewer.
//! Markdown parsing never resolves paths or touches the filesystem; image
//! targets stay as opaque strings until the viewer resolves them through the
//! registered workspace file service.
use vstd::prelude::*;
use vstd::string::*;

pub use crate::markdown::prepare;

verus! {

/// Maximum number of top-level blocks kept for display.
pub const MAX_BLOCKS: usize = 1000;

/// One styled run of inline text; adjacent runs with equal styling merge.
#[derive(Clone, Debug, PartialEq, Eq)]
pub struct Span {
    pub text: String,
    pub bold: bool,
    pub italic: bool,
    pub strike: bool,
    pub code: bool,
    pub link: Option<String>,
}

#[derive(Clone, Debug, PartialEq, Eq)]
pub enum Inline {
    Text(Span),
    Image { target: String, alt: String },
}

#[derive(Clone, Copy, Debug, PartialEq, Eq, Structural)]
pub enum CellAlign {
    Default,
    Left,
    Center,
    Right,
}

#[derive(Debug)]
pub struct ListItem {
    /// Task-list state; `None` for regular bullet items.
    pub checked: Option<bool>,
    pub blocks: Vec<Block>,
}

#[derive(Debug)]
pub enum Block {
    Heading { level: u8, inlines: Vec<Inline> },
    Paragraph { inlines: Vec<Inline> },
    Code { text: String, language: Option<String> },
    Quote { blocks: Vec<Block> },
    List { ordered: bool, start: u64, items: Vec<ListItem> },
    Table { aligns: Vec<CellAlign>, head: Vec<Vec<Inline>>, rows: Vec<Vec<Vec<Inline>>> },
    Rule,
}

#[derive(Debug)]
pub struct Document {
    pub lines: Vec<String>,
    pub blocks: Vec<Block>,
    pub shortened: bool,
}

/// Styling of a text run.
pub struct SpanView {
    pub text: Seq<char>,
    pub bold: bool,
    pub italic: bool,
    pub strike: bool,
    pub code: bool,
    pub link: Option<Seq<char>>,
}

pub enum InlineView {
    Text(SpanView),
    Image(Seq<char>, Seq<char>),
}

pub enum BlockView {
    Heading(u8, Seq<InlineView>),
    Paragraph(Seq<InlineView>),
    Code(Seq<char>, Option<Seq<char>>),
    Quote(Seq<BlockView>),
    List(bool, u64, Seq<ItemView>),
    Table(Seq<CellAlign>, Seq<Seq<InlineView>>, Seq<Seq<Seq<InlineView>>>),
    Rule,
}

pub struct ItemView {
    pub checked: Option<bool>,
    pub blocks: Seq<BlockView>,
}

pub open spec fn opt_view(o: Option<String>) -> Option<Seq<char>> {
    match o {
        Some(s) => Some(s@),
        None => None,
    }
}

impl View for Span {
    type V = SpanView;

    open spec fn view(&self) -> SpanView {
        SpanView {
            text: self.text@,
            bold: self.bold,
            italic: self.italic,
            strike: self.strike,
            code: self.code,
            link: opt_view(self.link),
        }
    }
}

impl View for Inline {
    type V = InlineView;

    open spec fn view(&self) -> InlineView {
        match self {
            Inline::Text(s) => InlineView::Text(s@),
            Inline::Image { target, alt } => InlineView::Image(target@, alt@),
        }
    }
}

pub open spec fn inlines_view(s: Seq<Inline>) -> Seq<InlineView> {
    s.map_values(|i: Inline| i@)
}

pub open spec fn cells_view(s: Seq<Vec<Inline>>) -> Seq<Seq<InlineView>> {
    s.map_values(|c: Vec<Inline>| inlines_view(c@))
}

pub open spec fn rows_view(s: Seq<Vec<Vec<Inline>>>) -> Seq<Seq<Seq<InlineView>>> {
    s.map_values(|r: Vec<Vec<Inline>>| cells_view(r@))
}

pub open spec fn block_view(b: Block) -> BlockView
    decreases b, 1nat,
{
    match b {
        Block::Heading { level, inlines } => BlockView::Heading(level, inlines_view(inlines@)),
        Block::Paragraph { inlines } => BlockView::Paragraph(inlines_view(inlines@)),
        Block::Code { text, language } => BlockView::Code(text@, opt_view(language)),
        Block::Quote { blocks } => BlockView::Quote(blocks_view(blocks@)),
        Block::List { ordered, start, items } => BlockView::List(ordered, start, items_view(items@)),
        Block::Table { aligns, head, rows } => BlockView::Table(aligns@, cells_view(head@), rows_view(rows@)),
        Block::Rule => BlockView::Rule,
    }
}

pub open spec fn blocks_view(s: Seq<Block>) -> Seq<BlockView>
    decreases s, 0nat,
{
    if s.len() == 0 {
        Seq::empty()
    } else {
        blocks_view(s.drop_last()).push(block_view(s.last()))
    }
}

pub open spec fn item_view(it: ListItem) -> ItemView
    decreases it, 1nat,
{
    ItemView { checked: it.checked, blocks: blocks_view(it.blocks@) }
}

pub open spec fn items_view(s: Seq<ListItem>) -> Seq<ItemView>
    decreases s, 0nat,
{
    if s.len() == 0 {
        Seq::empty()
    } else {
        items_view(s.drop_last()).push(item_view(s.last()))
    }
}

impl View for Block {
    type V = BlockView;

    open spec fn view(&self) -> BlockView {
        block_view(*self)
    }
}

impl View for ListItem {
    type V = ItemView;

    open spec fn view(&self) -> ItemView {
        item_view(*self)
    }
}

pub proof fn lemma_blocks_view(s: Seq<Block>)
    ensures
        blocks_view(s).len() == s.len(),
        forall|k: int| 0 <= k < s.len() ==> #[trigger] blocks_view(s)[k] == block_view(s[k]),
    decreases s.len(),
{
    if s.len() > 0 {
        lemma_blocks_view(s.drop_last());
    }
}

pub proof fn lemma_items_view(s: Seq<ListItem>)
    ensures
        items_view(s).len() == s.len(),
        forall|k: int| 0 <= k < s.len() ==> #[trigger] items_view(s)[k] == item_view(s[k]),
    decreases s.len(),
{
    if s.len() > 0 {
        lemma_items_view(s.drop_last());
    }
}

/// Image targets among inline runs, in order.
pub open spec fn inline_targets(s: Seq<InlineView>) -> Seq<Seq<char>>
    decreases s.len(),
{
    if s.len() == 0 {
        Seq::empty()
    } else {
        let prev = inline_targets(s.drop_last());
        match s.last() {
            InlineView::Image(target, _) => prev.push(target),
            InlineView::Text(_) => prev,
        }
    }
}

pub open spec fn cells_targets(c: Seq<Seq<InlineView>>) -> Seq<Seq<char>>
    decreases c.len(),
{
    if c.len() == 0 {
        Seq::empty()
    } else {
        cells_targets(c.drop_last()) + inline_targets(c.last())
    }
}

pub open spec fn rows_targets(r: Seq<Seq<Seq<InlineView>>>) -> Seq<Seq<char>>
    decreases r.len(),
{
    if r.len() == 0 {
        Seq::empty()
    } else {
        rows_targets(r.drop_last()) + cells_targets(r.last())
    }
}

/// Image targets of a block in display order: headings and paragraphs,
/// nested quotes and list items, then table head and body cells.
pub open spec fn block_targets(b: BlockView) -> Seq<Seq<char>>
    decreases b, 1nat,
{
    match b {
        BlockView::Heading(_, inlines) => inline_targets(inlines),
        BlockView::Paragraph(inlines) => inline_targets(inlines),
        BlockView::Quote(blocks) => blocks_targets(blocks),
        BlockView::List(_, _, items) => items_targets(items),
        BlockView::Table(_, head, rows) => cells_targets(head) + rows_targets(rows),
        BlockView::Code(_, _) => Seq::empty(),
        BlockView::Rule => Seq::empty(),
    }
}

pub open spec fn blocks_targets(s: Seq<BlockView>) -> Seq<Seq<char>>
    decreases s, 0nat,
{
    if s.len() == 0 {
        Seq::empty()
    } else {
        blocks_targets(s.drop_last()) + block_targets(s.last())
    }
}

pub open spec fn items_targets(s: Seq<ItemView>) -> Seq<Seq<char>>
    decreases s, 0nat,
{
    if s.len() == 0 {
        Seq::empty()
    } else {
        items_targets(s.drop_last()) + blocks_targets(s.last().blocks)
    }
}

/// `d` with `x` appended unless it already holds it.
pub open spec fn add_one(d: Seq<Seq<char>>, x: Seq<char>) -> Seq<Seq<char>> {
    if d.contains(x) {
        d
    } else {
        d.push(x)
    }
}

/// `d` extended by the entries of `s` it does not hold yet, first
/// occurrences first.
pub open spec fn add_all(d: Seq<Seq<char>>, s: Seq<Seq<char>>) -> Seq<Seq<char>>
    decreases s.len(),
{
    if s.len() == 0 {
        d
    } else {
        add_one(add_all(d, s.drop_last()), s.last())
    }
}

/// The distinct image targets of a document, in display order.
pub open spec fn document_images(blocks: Seq<BlockView>) -> Seq<Seq<char>> {
    add_all(Seq::empty(), blocks_targets(blocks))
}

pub open spec fn strs_view(v: Seq<String>) -> Seq<Seq<char>> {
    v.map_values(|s: String| s@)
}

pub proof fn lemma_add_all_concat(d: Seq<Seq<char>>, a: Seq<Seq<char>>, b: Seq<Seq<char>>)
    ensures
        add_all(d, a + b) == add_all(add_all(d, a), b),
    decreases b.len(),
{
    if b.len() == 0 {
        assert(a + b =~= a);
    } else {
        assert((a + b).drop_last() =~= a + b.drop_last());
        assert((a + b).last() == b.last());
        lemma_add_all_concat(d, a, b.drop_last());
    }
}

proof fn lemma_add_all_single(d: Seq<Seq<char>>, x: Seq<char>)
    ensures
        add_all(d, seq![x]) == add_one(d, x),
{
    assert(seq![x].drop_last() =~= Seq::<Seq<char>>::empty());
    assert(add_all(d, Seq::<Seq<char>>::empty()) == d);
    assert(seq![x].last() == x);
}

/// Appends `t` unless `out` already holds an equal target.
fn add_target(out: &mut Vec<String>, t: &String)
    ensures
        strs_view(final(out)@) == add_one(strs_view(old(out)@), t@),
{
    let mut i: usize = 0;
    while i < out.len()
        invariant
            i <= out@.len(),
            out@ == old(out)@,
            forall|j: int| 0 <= j < i ==> out@[j]@ != t@,
        decreases out@.len() - i,
    {
        if crate::text::str_eq(out[i].as_str(), t.as_str()) {
            proof {
                assert(strs_view(out@)[i as int] == t@);
            }
            return;
        }
        i += 1;
    }
    proof {
        assert(!strs_view(out@).contains(t@)) by {
            if strs_view(out@).contains(t@) {
                let j = choose|j: int| 0 <= j < strs_view(out@).len() && strs_view(out@)[j] == t@;
                assert(out@[j]@ == t@);
            }
        }
    }
    let copy = t.as_str().to_owned();
    out.push(copy);
    proof {
        assert(strs_view(out@) =~= strs_view(old(out)@).push(t@));
    }
}

fn collect_inlines(inlines: &Vec<Inline>, out: &mut Vec<String>)
    ensures
        strs_view(final(out)@) == add_all(strs_view(old(out)@), inline_targets(inlines_view(inlines@))),
{
    let ghost d0 = strs_view(out@);
    let mut i: usize = 0;
    while i < inlines.len()
        invariant
            i <= inlines@.len(),
            strs_view(out@) == add_all(d0, inline_targets(inlines_view(inlines@.take(i as int)))),
        decreases inlines@.len() - i,
    {
        let ghost prev = inline_targets(inlines_view(inlines@.take(i as int)));
        proof {
            assert(inlines_view(inlines@.take(i as int + 1)).drop_last() =~= inlines_view(inlines@.take(i as int)));
        }
        match &inlines[i] {
            Inline::Image { target, .. } => {
                add_target(out, target);
                proof {
                    lemma_add_all_single(add_all(d0, prev), target@);
                    lemma_add_all_concat(d0, prev, seq![target@]);
                    assert(inline_targets(inlines_view(inlines@.take(i as int + 1))) =~= prev + seq![target@]);
                }
            },
            Inline::Text(_) => {},
        }
        i += 1;
    }
    proof {
        assert(inlines@.take(inlines@.len() as int) =~= inlines@);
    }
}

fn collect_cells(cells: &Vec<Vec<Inline>>, out: &mut Vec<String>)
    ensures
        strs_view(final(out)@) == add_all(strs_view(old(out)@), cells_targets(cells_view(cells@))),
{
    let ghost d0 = strs_view(out@);
    let mut i: usize = 0;
    while i < cells.len()
        invariant
            i <= cells@.len(),
            strs_view(out@) == add_all(d0, cells_targets(cells_view(cells@.take(i as int)))),
        decreases cells@.len() - i,
    {
        let ghost prev = cells_targets(cells_view(cells@.take(i as int)));
        collect_inlines(&cells[i], out);
        proof {
            assert(cells_view(cells@.take(i as int + 1)).drop_last() =~= cells_view(cells@.take(i as int)));
            lemma_add_all_concat(d0, prev, inline_targets(inlines_view(cells@[i as int]@)));
        }
        i += 1;
    }
    proof {
        assert(cells@.take(cells@.len() as int) =~= cells@);
    }
}

fn collect_rows(rows: &Vec<Vec<Vec<Inline>>>, out: &mut Vec<String>)
    ensures
        strs_view(final(out)@) == add_all(strs_view(old(out)@), rows_targets(rows_view(rows@))),
{
    let ghost d0 = strs_view(out@);
    let mut i: usize = 0;
    while i < rows.len()
        invariant
            i <= rows@.len(),
            strs_view(out@) == add_all(d0, rows_targets(rows_view(rows@.take(i as int)))),
        decreases rows@.len() - i,
    {
        let ghost prev = rows_targets(rows_view(rows@.take(i as int)));
        collect_cells(&rows[i], out);
        proof {
            assert(rows_view(rows@.take(i as int + 1)).drop_last() =~= rows_view(rows@.take(i as int)));
            lemma_add_all_concat(d0, prev, cells_targets(cells_view(rows@[i as int]@)));
        }
        i += 1;
    }
    proof {
        assert(rows@.take(rows@.len() as int) =~= rows@);
    }
}

fn collect_block(b: &Block, out: &mut Vec<String>)
    ensures
        strs_view(final(out)@) == add_all(strs_view(old(out)@), block_targets(b@)),
    decreases b, 1nat,
{
    match b {
        Block::Heading { inlines, .. } => collect_inlines(inlines, out),
        Block::Paragraph { inlines } => collect_inlines(inlines, out),
        Block::Quote { blocks } => collect_blocks(blocks, out),
        Block::List { items, .. } => collect_items(items, out),
        Block::Table { head, rows, .. } => {
            let ghost d0 = strs_view(out@);
            collect_cells(head, out);
            collect_rows(rows, out);
            proof {
                lemma_add_all_concat(d0, cells_targets(cells_view(head@)), rows_targets(rows_view(rows@)));
            }
        },
        Block::Code { .. } => {},
        Block::Rule => {},
    }
}

fn collect_blocks(blocks: &Vec<Block>, out: &mut Vec<String>)
    ensures
        strs_view(final(out)@) == add_all(strs_view(old(out)@), blocks_targets(blocks_view(blocks@))),
    decreases blocks, 0nat,
{
    let ghost d0 = strs_view(out@);
    let mut i: usize = 0;
    while i < blocks.len()
        invariant
            i <= blocks@.len(),
            strs_view(out@) == add_all(d0, blocks_targets(blocks_view(blocks@.take(i as int)))),
        decreases blocks@.len() - i,
    {
        let ghost prev = blocks_targets(blocks_view(blocks@.take(i as int)));
        proof {
            assert(decreases_to!(blocks => blocks@));
            assert(decreases_to!(blocks@ => blocks@[i as int]));
        }
        collect_block(&blocks[i], out);
        proof {
            let front = blocks_view(blocks@.take(i as int));
            assert(blocks@.take(i as int + 1).drop_last() =~= blocks@.take(i as int));
            assert(blocks@.take(i as int + 1).last() == blocks@[i as int]);
            assert(front.push(blocks@[i as int]@).drop_last() =~= front);
            lemma_add_all_concat(d0, prev, block_targets(blocks@[i as int]@));
        }
        i += 1;
    }
    proof {
        assert(blocks@.take(blocks@.len() as int) =~= blocks@);
    }
}

fn collect_items(items: &Vec<ListItem>, out: &mut Vec<String>)
    ensures
        strs_view(final(out)@) == add_all(strs_view(old(out)@), items_targets(items_view(items@))),
    decreases items, 0nat,
{
    let ghost d0 = strs_view(out@);
    let mut i: usize = 0;
    while i < items.len()
        invariant
            i <= items@.len(),
            strs_view(out@) == add_all(d0, items_targets(items_view(items@.take(i as int)))),
        decreases items@.len() - i,
    {
        let ghost prev = items_targets(items_view(items@.take(i as int)));
        proof {
            assert(decreases_to!(items => items@));
            assert(decreases_to!(items@ => items@[i as int]));
        }
        collect_blocks(&items[i].blocks, out);
        proof {
            let front = items_view(items@.take(i as int));
            assert(items@.take(i as int + 1).drop_last() =~= items@.take(i as int));
            assert(items@.take(i as int + 1).last() == items@[i as int]);
            assert(front.push(items@[i as int]@).drop_last() =~= front);
            lemma_add_all_concat(d0, prev, blocks_targets(blocks_view(items@[i as int].blocks@)));
        }
        i += 1;
    }
    proof {
        assert(items@.take(items@.len() as int) =~= items@);
    }
}

/// Distinct image targets in display order.
pub fn image_targets(doc: &Document) -> (r: Vec<String>)
    ensures
        strs_view(r@) == document_images(blocks_view(doc.blocks@)),
{
    let mut out: Vec<String> = Vec::new();
    proof {
        assert(strs_view(out@) =~= Seq::<Seq<char>>::empty());
    }
    collect_blocks(&doc.blocks, &mut out);
    out
}

/// The first index at or after `i` where `needle` occurs in `s`.
pub open spec fn index_of(s: Seq<char>, needle: Seq<char>, i: int) -> Option<int>
    decreases s.len() + 1 - i,
{
    if i < 0 || i + needle.len() > s.len() {
        None
    } else if s.subrange(i, i + needle.len()) == needle {
        Some(i)
    } else {
        index_of(s, needle, i + 1)
    }
}

pub proof fn lemma_index_of(s: Seq<char>, needle: Seq<char>, i: int)
    requires
        0 <= i,
    ensures
        match index_of(s, needle, i) {
            Some(k) => i <= k && k + needle.len() <= s.len() && s.subrange(k, k + needle.len()) == needle
                && forall|m: int| i <= m < k ==> #[trigger] s.subrange(m, m + needle.len()) != needle,
            None => forall|m: int|
                i <= m && m + needle.len() <= s.len() ==> #[trigger] s.subrange(m, m + needle.len()) != needle,
        },
    decreases s.len() + 1 - i,
{
    if i + needle.len() <= s.len() && s.subrange(i, i + needle.len()) != needle {
        lemma_index_of(s, needle, i + 1);
    }
}

fn matches_at(s: &[char], needle: &[char], i: usize) -> (r: bool)
    requires
        i + needle@.len() <= s@.len(),
    ensures
        r == (s@.subrange(i as int, i + needle@.len()) == needle@),
{
    let ghost n = s.len();
    let mut j: usize = 0;
    while j < needle.len()
        invariant
            j <= needle@.len(),
            n == s@.len(),
            i + needle@.len() <= s@.len(),
            forall|k: int| 0 <= k < j ==> s@[i + k] == needle@[k],
        decreases needle@.len() - j,
    {
        if s[i + j] != needle[j] {
            proof {
                assert(s@.subrange(i as int, i + needle@.len())[j as int] != needle@[j as int]);
            }
            return false;
        }
        j += 1;
    }
    proof {
        assert(s@.subrange(i as int, i + needle@.len()) =~= needle@);
    }
    true
}

/// `str::find` from index `from`, over characters.
pub(crate) fn find_chars(s: &[char], needle: &[char], from: usize) -> (r: Option<usize>)
    requires
        needle@.len() > 0,
    ensures
        r matches Some(k) ==> index_of(s@, needle@, from as int) == Some(k as int),
        r is None ==> index_of(s@, needle@, from as int) is None,
{
    let mut i: usize = from;
    if needle.len() > s.len() {
        return None;
    }
    while i <= s.len() - needle.len()
        invariant
            from <= i,
            0 < needle@.len() <= s@.len(),
            index_of(s@, needle@, from as int) == index_of(s@, needle@, i as int),
        decreases s@.len() - i,
    {
        if matches_at(s, needle, i) {
            return Some(i);
        }
        i += 1;
    }
    None
}

/// Whether `s` begins with `prefix`.
pub open spec fn has_prefix(s: Seq<char>, prefix: Seq<char>) -> bool {
    prefix.len() <= s.len() && s.take(prefix.len() as int) == prefix
}

pub fn starts_with_chars(s: &[char], prefix: &[char]) -> (r: bool)
    ensures
        r == has_prefix(s@, prefix@),
{
    if prefix.len() > s.len() {
        return false;
    }
    let mut j: usize = 0;
    while j < prefix.len()
        invariant
            j <= prefix@.len(),
            prefix@.len() <= s@.len(),
            forall|k: int| 0 <= k < j ==> s@[k] == prefix@[k],
        decreases prefix@.len() - j,
    {
        if s[j] != prefix[j] {
            proof {
                assert(s@.take(prefix@.len() as int)[j as int] != prefix@[j as int]);
            }
            return false;
        }
        j += 1;
    }
    proof {
        assert(s@.take(prefix@.len() as int) =~= prefix@);
    }
    true
}

/// The value of one hexadecimal digit.
pub open spec fn hex_value(b: u8) -> Option<u8> {
    if 48 <= b <= 57 {
        Some((b - 48) as u8)
    } else if 97 <= b <= 102 {
        Some((b - 87) as u8)
    } else if 65 <= b <= 70 {
        Some((b - 55) as u8)
    } else {
        None
    }
}

/// `u8::from_str_radix(_, 16)` on two bytes: two hexadecimal digits, or a
/// `+` sign and one digit.
pub open spec fn hex_pair(a: u8, b: u8) -> Option<u8> {
    match (hex_value(a), hex_value(b)) {
        (Some(x), Some(y)) => Some((16 * x + y) as u8),
        (_, Some(y)) => if a == 43 {
            Some(y)
        } else {
            None
        },
        _ => None,
    }
}

fn hex_digit(b: u8) -> (r: Option<u8>)
    ensures
        r == hex_value(b),
{
    if 48 <= b && b <= 57 {
        Some(b - 48)
    } else if 97 <= b && b <= 102 {
        Some(b - 87)
    } else if 65 <= b && b <= 70 {
        Some(b - 55)
    } else {
        None
    }
}

/// Bytes with each `%XX` escape replaced by the byte it names; `None` when an
/// escape lacks two following bytes or they do not parse.
pub open spec fn percent_bytes(s: Seq<u8>) -> Option<Seq<u8>>
    decreases s.len(),
{
    if s.len() == 0 {
        Some(Seq::empty())
    } else if s[0] == 37 {
        if s.len() < 3 {
            None
        } else {
            match hex_pair(s[1], s[2]) {
                None => None,
                Some(v) => match percent_bytes(s.skip(3)) {
                    Some(rest) => Some(seq![v] + rest),
                    None => None,
                },
            }
        }
    } else {
        match percent_bytes(s.skip(1)) {
            Some(rest) => Some(seq![s[0]] + rest),
            None => None,
        }
    }
}

/// The percent-decoded text, when the decoded bytes are UTF-8.
pub open spec fn percent_decoded(s: Seq<u8>) -> Option<Seq<char>> {
    match percent_bytes(s) {
        Some(b) => if vstd::utf8::valid_utf8(b) {
            Some(vstd::utf8::decode_utf8(b))
        } else {
            None
        },
        None => None,
    }
}

/// `String::from_utf8`: the text these bytes encode, when they are UTF-8.
#[verifier::external_body]
pub(crate) fn string_from_utf8(bytes: Vec<u8>) -> (r: Option<String>)
    ensures
        r is Some <==> vstd::utf8::valid_utf8(bytes@),
        r matches Some(s) ==> s@ == vstd::utf8::decode_utf8(bytes@),
{
    match String::from_utf8(bytes) {
        Ok(s) => Some(s),
        Err(_) => None,
    }
}

pub open spec fn prepend(out: Seq<u8>, rest: Option<Seq<u8>>) -> Option<Seq<u8>> {
    match rest {
        Some(r) => Some(out + r),
        None => None,
    }
}

pub fn percent_decode(bytes: &[u8]) -> (r: Option<String>)
    ensures
        r matches Some(s) ==> percent_decoded(bytes@) == Some(s@),
        r is None ==> percent_decoded(bytes@) is None,
{
    let mut out: Vec<u8> = Vec::new();
    let mut index: usize = 0;
    proof {
        assert(bytes@.skip(0) =~= bytes@);
        match percent_bytes(bytes@) {
            Some(r) => assert(out@ + r =~= r),
            None => {},
        }
    }
    while index < bytes.len()
        invariant
            index <= bytes@.len(),
            percent_bytes(bytes@) == prepend(out@, percent_bytes(bytes@.skip(index as int))),
        decreases bytes@.len() - index,
    {
        let ghost rest = bytes@.skip(index as int);
        proof {
            assert(rest[0] == bytes@[index as int]);
        }
        if bytes[index] == 37 {
            if bytes.len() - index < 3 {
                return None;
            }
            let high = hex_digit(bytes[index + 1]);
            let low = hex_digit(bytes[index + 2]);
            let byte: u8 = match (high, low) {
                (Some(x), Some(y)) => 16 * x + y,
                (_, Some(y)) => {
                    if bytes[index + 1] == 43 {
                        y
                    } else {
                        return None;
                    }
                },
                _ => {
                    return None;
                },
            };
            proof {
                assert(rest[1] == bytes@[index + 1]);
                assert(rest[2] == bytes@[index + 2]);
                assert(rest.skip(3) =~= bytes@.skip(index + 3));
                assert(hex_pair(rest[1], rest[2]) == Some(byte));
                match percent_bytes(bytes@.skip(index + 3)) {
                    Some(r) => assert(out@ + (seq![byte] + r) =~= out@.push(byte) + r),
                    None => {},
                }
            }
            out.push(byte);
            index += 3;
        } else {
            let byte = bytes[index];
            proof {
                assert(rest.skip(1) =~= bytes@.skip(index + 1));
                match percent_bytes(bytes@.skip(index + 1)) {
                    Some(r) => assert(out@ + (seq![byte] + r) =~= out@.push(byte) + r),
                    None => {},
                }
            }
            out.push(byte);
            index += 1;
        }
    }
    proof {
        assert(bytes@.skip(index as int) =~= Seq::<u8>::empty());
        assert(out@ + Seq::<u8>::empty() =~= out@);
    }
    string_from_utf8(out)
}

/// Targets that never name a workspace file: empty, absolute, remote,
/// `data:` and `mailto:` targets.
pub open spec fn refused_target(t: Seq<char>) -> bool {
    ||| t.len() == 0
    ||| t[0] == '/'
    ||| index_of(t, "://"@, 0) is Some
    ||| has_prefix(t, "data:"@)
    ||| has_prefix(t, "mailto:"@)
}

/// Index of the last `/`.
pub open spec fn last_slash(s: Seq<char>) -> Option<int>
    decreases s.len(),
{
    if s.len() == 0 {
        None
    } else if s.last() == '/' {
        Some(s.len() - 1)
    } else {
        last_slash(s.drop_last())
    }
}

pub proof fn lemma_last_slash(s: Seq<char>)
    ensures
        last_slash(s) matches Some(k) ==> 0 <= k < s.len() && s[k] == '/',
    decreases s.len(),
{
    if s.len() > 0 && s.last() != '/' {
        lemma_last_slash(s.drop_last());
    }
}

/// The folder part of a file path: what precedes its last `/`, when that
/// is not empty.
pub open spec fn base_dir(base: Seq<char>) -> Option<Seq<char>> {
    match last_slash(base) {
        Some(k) => if k > 0 {
            Some(base.take(k))
        } else {
            None
        },
        None => None,
    }
}

/// Path parts other than empty ones and `.`.
pub open spec fn keep_parts(ps: Seq<Seq<char>>) -> Seq<Seq<char>>
    decreases ps.len(),
{
    if ps.len() == 0 {
        Seq::empty()
    } else {
        let prev = keep_parts(ps.drop_last());
        if ps.last().len() > 0 && ps.last() != seq!['.'] {
            prev.push(ps.last())
        } else {
            prev
        }
    }
}

/// Parts joined with `/`.
pub open spec fn join_parts(ps: Seq<Seq<char>>) -> Seq<char>
    decreases ps.len(),
{
    if ps.len() == 0 {
        Seq::empty()
    } else if ps.len() == 1 {
        ps[0]
    } else {
        join_parts(ps.drop_last()) + seq!['/'] + ps.last()
    }
}

/// The workspace-relative path an image target names, seen from the
/// markdown file `base`: trimmed, percent-decoded, joined to the file's
/// folder, with empty and `.` parts dropped, and then a valid relative path.
pub open spec fn image_path(base: Seq<char>, target: Seq<char>) -> Option<Seq<char>> {
    let t = crate::text::trimmed(target);
    if refused_target(t) {
        None
    } else {
        match percent_decoded(vstd::utf8::encode_utf8(t)) {
            None => None,
            Some(decoded) => if crate::text::has_control(decoded) {
                None
            } else {
                let joined = match base_dir(base) {
                    Some(dir) => dir + seq!['/'] + decoded,
                    None => decoded,
                };
                let normalized = join_parts(keep_parts(crate::workspace::segments(joined)));
                if crate::workspace::path_error(normalized) is None {
                    Some(normalized)
                } else {
                    None
                }
            },
        }
    }
}

pub open spec fn parts_view(v: Seq<Vec<char>>) -> Seq<Seq<char>> {
    v.map_values(|p: Vec<char>| p@)
}

fn split_slash(s: &[char]) -> (r: Vec<Vec<char>>)
    ensures
        parts_view(r@) == crate::workspace::segments(s@),
{
    let mut done: Vec<Vec<char>> = Vec::new();
    let mut cur: Vec<char> = Vec::new();
    let mut i: usize = 0;
    proof {
        assert(s@.take(0) =~= Seq::<char>::empty());
        assert(parts_view(done@).push(cur@) =~= seq![Seq::<char>::empty()]);
    }
    while i < s.len()
        invariant
            i <= s@.len(),
            parts_view(done@).push(cur@) == crate::workspace::segments(s@.take(i as int)),
        decreases s@.len() - i,
    {
        let c = s[i];
        proof {
            assert(s@.take(i + 1).drop_last() =~= s@.take(i as int));
            assert(s@.take(i + 1).last() == c);
        }
        if c == '/' {
            done.push(cur);
            cur = Vec::new();
            proof {
                assert(parts_view(done@).push(cur@) =~= crate::workspace::segments(s@.take(i as int)).push(
                    Seq::<char>::empty(),
                ));
            }
        } else {
            let ghost before = cur@;
            cur.push(c);
            proof {
                let prev = crate::workspace::segments(s@.take(i as int));
                assert(parts_view(done@).push(cur@) =~= prev.update(prev.len() - 1, before.push(c)));
            }
        }
        i += 1;
    }
    done.push(cur);
    proof {
        assert(s@.take(s@.len() as int) =~= s@);
    }
    done
}

fn keep_proper(ps: &Vec<Vec<char>>) -> (r: Vec<Vec<char>>)
    ensures
        parts_view(r@) == keep_parts(parts_view(ps@)),
{
    let mut out: Vec<Vec<char>> = Vec::new();
    let mut i: usize = 0;
    while i < ps.len()
        invariant
            i <= ps@.len(),
            parts_view(out@) == keep_parts(parts_view(ps@.take(i as int))),
        decreases ps@.len() - i,
    {
        let p = &ps[i];
        proof {
            assert(parts_view(ps@.take(i + 1)).drop_last() =~= parts_view(ps@.take(i as int)));
            assert(parts_view(ps@.take(i + 1)).last() == p@);
        }
        let dot = p.len() == 1 && p[0] == '.';
        proof {
            if p@.len() == 1 && p@[0] == '.' {
                assert(p@ =~= seq!['.']);
            }
        }
        if p.len() > 0 && !dot {
            let copy = p.clone();
            proof {
                assert(copy@ == p@);
            }
            out.push(copy);
            proof {
                assert(parts_view(out@) =~= keep_parts(parts_view(ps@.take(i as int))).push(p@));
            }
        }
        i += 1;
    }
    proof {
        assert(ps@.take(ps@.len() as int) =~= ps@);
    }
    out
}

fn join_slash(ps: &Vec<Vec<char>>) -> (r: Vec<char>)
    ensures
        r@ == join_parts(parts_view(ps@)),
{
    let mut out: Vec<char> = Vec::new();
    let mut i: usize = 0;
    while i < ps.len()
        invariant
            i <= ps@.len(),
            out@ == join_parts(parts_view(ps@.take(i as int))),
        decreases ps@.len() - i,
    {
        let ghost before = out@;
        proof {
            assert(parts_view(ps@.take(i + 1)).drop_last() =~= parts_view(ps@.take(i as int)));
            assert(parts_view(ps@.take(i + 1)).last() == ps@[i as int]@);
        }
        if i > 0 {
            out.push('/');
        }
        let p = &ps[i];
        let mut j: usize = 0;
        let ghost base = out@;
        while j < p.len()
            invariant
                j <= p@.len(),
                out@ == base + p@.take(j as int),
            decreases p@.len() - j,
        {
            out.push(p[j]);
            j += 1;
            proof {
                assert(out@ =~= base + p@.take(j as int));
            }
        }
        proof {
            assert(p@.take(p@.len() as int) =~= p@);
            if i == 0 {
                assert(out@ =~= p@);
            } else {
                assert(out@ =~= before + seq!['/'] + p@);
            }
        }
        i += 1;
    }
    proof {
        assert(ps@.take(ps@.len() as int) =~= ps@);
    }
    out
}

fn last_slash_index(s: &[char]) -> (r: Option<usize>)
    ensures
        r matches Some(k) ==> last_slash(s@) == Some(k as int),
        r is None ==> last_slash(s@) is None,
{
    let mut i: usize = s.len();
    proof {
        assert(s@.take(s@.len() as int) =~= s@);
    }
    while i > 0
        invariant
            i <= s@.len(),
            last_slash(s@) == last_slash(s@.take(i as int)),
        decreases i,
    {
        proof {
            assert(s@.take(i as int).drop_last() =~= s@.take(i - 1));
        }
        if s[i - 1] == '/' {
            return Some(i - 1);
        }
        i -= 1;
    }
    None
}

/// Resolve one markdown image target against the markdown file's folder into
/// a normalized workspace relative path. Remote, absolute, and unsafe targets
/// return `None`; the caller renders their alt text instead.
pub fn resolve_image_target(base: &str, target: &str) -> (r: Option<String>)
    ensures
        match r {
            Some(p) => image_path(base@, target@) == Some(p@),
            None => image_path(base@, target@) is None,
        },
{
    let t = crate::text::trim_chars(&crate::text::chars_of(target));
    if t.len() == 0 || t[0] == '/' {
        return None;
    }
    proof {
        reveal_strlit("://");
    }
    let sep = crate::text::chars_of("://");
    let data = crate::text::chars_of("data:");
    let mail = crate::text::chars_of("mailto:");
    if find_chars(&t, &sep, 0).is_some() || starts_with_chars(&t, &data) || starts_with_chars(&t, &mail) {
        return None;
    }
    let trimmed = crate::text::string_from_chars(&t);
    let decoded = match percent_decode(trimmed.as_str().as_bytes()) {
        Some(d) => d,
        None => {
            return None;
        },
    };
    let decoded_chars = crate::text::chars_of(decoded.as_str());
    if crate::text::any_control(&decoded_chars) {
        return None;
    }
    let base_chars = crate::text::chars_of(base);
    let mut joined: Vec<char> = Vec::new();
    let ghost expected: Seq<char> = match base_dir(base@) {
        Some(dir) => dir + seq!['/'],
        None => Seq::<char>::empty(),
    };
    proof {
        lemma_last_slash(base_chars@);
    }
    match last_slash_index(&base_chars) {
        Some(k) => {
            if k > 0 {
                let mut i: usize = 0;
                while i < k
                    invariant
                        i <= k,
                        k < base_chars@.len(),
                        joined@ == base_chars@.take(i as int),
                    decreases k - i,
                {
                    joined.push(base_chars[i]);
                    i += 1;
                    proof {
                        assert(joined@ =~= base_chars@.take(i as int));
                    }
                }
                joined.push('/');
                proof {
                    assert(base_dir(base@) == Some(base@.take(k as int)));
                    assert(joined@ =~= expected);
                }
            } else {
                proof {
                    assert(base_dir(base@) is None);
                    assert(joined@ =~= expected);
                }
            }
        },
        None => {
            proof {
                assert(base_dir(base@) is None);
                assert(joined@ =~= expected);
            }
        },
    }
    let ghost prefix = joined@;
    let mut j: usize = 0;
    while j < decoded_chars.len()
        invariant
            j <= decoded_chars@.len(),
            joined@ == prefix + decoded_chars@.take(j as int),
        decreases decoded_chars@.len() - j,
    {
        joined.push(decoded_chars[j]);
        j += 1;
        proof {
            assert(joined@ =~= prefix + decoded_chars@.take(j as int));
        }
    }
    proof {
        assert(decoded_chars@.take(decoded_chars@.len() as int) =~= decoded_chars@);
        match base_dir(base@) {
            Some(dir) => assert(joined@ =~= dir + seq!['/'] + decoded@),
            None => assert(joined@ =~= Seq::<char>::empty() + decoded@),
        }
    }
    let parts = split_slash(&joined);
    let kept = keep_proper(&parts);
    let normalized = crate::text::string_from_chars(&join_slash(&kept));
    match crate::workspace::validate_relative_path(normalized.as_str()) {
        Ok(p) => Some(p),
        Err(_) => None,
    }
}

/// Lines kept for display.
pub const MAX_LINES: usize = 8000;

/// Characters kept of one line.
pub const MAX_LINE_CHARS: usize = 4096;

/// Number of leading byte order marks.
pub open spec fn leading_bom(s: Seq<char>) -> nat
    decreases s.len(),
{
    if s.len() > 0 && s[0] == '\u{feff}' {
        1 + leading_bom(s.drop_first())
    } else {
        0
    }
}

/// `str::trim_start_matches('\u{feff}')`.
pub open spec fn without_bom(s: Seq<char>) -> Seq<char> {
    s.skip(leading_bom(s) as int)
}

/// A line without the `\r` of a `\r\n` ending.
pub open spec fn strip_cr(l: Seq<char>) -> Seq<char> {
    if l.len() > 0 && l.last() == '\r' {
        l.drop_last()
    } else {
        l
    }
}

/// The lines ended by `\n` so far, and the open line.
pub open spec fn line_split(s: Seq<char>) -> (Seq<Seq<char>>, Seq<char>)
    decreases s.len(),
{
    if s.len() == 0 {
        (Seq::empty(), Seq::empty())
    } else {
        let (done, open) = line_split(s.drop_last());
        if s.last() == '\n' {
            (done.push(strip_cr(open)), Seq::empty())
        } else {
            (done, open.push(s.last()))
        }
    }
}

/// `str::lines`: the parts between `\n` characters, each without the `\r`
/// of a `\r\n` ending; a final `\n` starts no further line.
pub open spec fn lines_of(s: Seq<char>) -> Seq<Seq<char>> {
    let (done, open) = line_split(s);
    if open.len() > 0 {
        done.push(open)
    } else {
        done
    }
}

/// A line cut to its first characters, with `…` marking the cut.
pub open spec fn bound_line(l: Seq<char>) -> Seq<char> {
    if l.len() > MAX_LINE_CHARS {
        l.take(MAX_LINE_CHARS as int).push('…')
    } else {
        l
    }
}

pub open spec fn kept_count(n: nat) -> int {
    if n < MAX_LINES {
        n as int
    } else {
        MAX_LINES as int
    }
}

/// The lines shown for `s`: the first lines, each bounded, and one empty
/// line for a text without any.
pub open spec fn shown_lines(s: Seq<char>) -> Seq<Seq<char>> {
    let ls = lines_of(s);
    let kept = ls.take(kept_count(ls.len())).map_values(|l: Seq<char>| bound_line(l));
    if kept.len() == 0 {
        seq![Seq::<char>::empty()]
    } else {
        kept
    }
}

/// Whether lines were dropped or cut.
pub open spec fn lines_cut(s: Seq<char>) -> bool {
    let ls = lines_of(s);
    ls.len() > MAX_LINES || exists|j: int| 0 <= j < kept_count(ls.len()) && (#[trigger] ls[j]).len() > MAX_LINE_CHARS
}

pub(crate) fn strip_bom(s: &[char]) -> (r: Vec<char>)
    ensures
        r@ == without_bom(s@),
{
    let mut i: usize = 0;
    proof {
        assert(s@.skip(0) =~= s@);
    }
    while i < s.len() && s[i] == '\u{feff}'
        invariant
            i <= s@.len(),
            leading_bom(s@) == i + leading_bom(s@.skip(i as int)),
        decreases s@.len() - i,
    {
        proof {
            assert(s@.skip(i as int).drop_first() =~= s@.skip(i + 1));
        }
        i += 1;
    }
    let mut out: Vec<char> = Vec::new();
    let mut j: usize = i;
    while j < s.len()
        invariant
            i <= j <= s@.len(),
            leading_bom(s@) == i,
            out@ == s@.subrange(i as int, j as int),
        decreases s@.len() - j,
    {
        out.push(s[j]);
        j += 1;
        proof {
            assert(out@ =~= s@.subrange(i as int, j as int));
        }
    }
    proof {
        assert(out@ =~= s@.skip(i as int));
    }
    out
}

/// One finished line, bounded, as a string.
fn bounded_line(line: &[char]) -> (r: String)
    ensures
        r@ == bound_line(line@),
{
    if line.len() > MAX_LINE_CHARS {
        let mut kept: Vec<char> = Vec::new();
        let mut i: usize = 0;
        while i < MAX_LINE_CHARS
            invariant
                i <= MAX_LINE_CHARS < line@.len(),
                kept@ == line@.take(i as int),
            decreases MAX_LINE_CHARS - i,
        {
            kept.push(line[i]);
            i += 1;
            proof {
                assert(kept@ =~= line@.take(i as int));
            }
        }
        kept.push('…');
        crate::text::string_from_chars(&kept)
    } else {
        crate::text::string_from_chars(line)
    }
}

proof fn lemma_take_map_push(ls: Seq<Seq<char>>, l: Seq<char>, n: nat)
    requires
        n == ls.len(),
    ensures
        ls.push(l).take(kept_count(n + 1)).map_values(|x: Seq<char>| bound_line(x)) == (if n < MAX_LINES {
            ls.take(kept_count(n)).map_values(|x: Seq<char>| bound_line(x)).push(bound_line(l))
        } else {
            ls.take(kept_count(n)).map_values(|x: Seq<char>| bound_line(x))
        }),
{
    if n < MAX_LINES {
        assert(ls.push(l).take(kept_count(n + 1)) =~= ls.push(l));
        assert(ls.take(kept_count(n)) =~= ls);
        assert(ls.push(l).map_values(|x: Seq<char>| bound_line(x)) =~= ls.map_values(
            |x: Seq<char>| bound_line(x),
        ).push(bound_line(l)));
    } else {
        assert(ls.push(l).take(kept_count(n + 1)) =~= ls.take(kept_count(n)));
    }
}

pub open spec fn has_long(done: Seq<Seq<char>>) -> bool {
    exists|j: int| 0 <= j < kept_count(done.len()) && (#[trigger] done[j]).len() > MAX_LINE_CHARS
}

proof fn lemma_long_push(done: Seq<Seq<char>>, l: Seq<char>)
    ensures
        has_long(done.push(l)) == (has_long(done) || (done.len() < MAX_LINES && l.len() > MAX_LINE_CHARS)),
{
    let d2 = done.push(l);
    if has_long(done) {
        let j = choose|j: int| 0 <= j < kept_count(done.len()) && (#[trigger] done[j]).len() > MAX_LINE_CHARS;
        assert(d2[j] == done[j]);
    }
    if done.len() < MAX_LINES && l.len() > MAX_LINE_CHARS {
        assert(d2[done.len() as int] == l);
    }
    if has_long(d2) {
        let j = choose|j: int| 0 <= j < kept_count(d2.len()) && (#[trigger] d2[j]).len() > MAX_LINE_CHARS;
        if j < done.len() {
            assert(d2[j] == done[j]);
        }
    }
}

pub open spec fn strings_view(v: Seq<String>) -> Seq<Seq<char>> {
    v.map_values(|s: String| s@)
}

/// The displayed lines of `text` and whether any were dropped or cut.
pub(crate) fn bounded_lines(text: &[char]) -> (r: (Vec<String>, bool))
    ensures
        strings_view(r.0@) == shown_lines(text@),
        r.1 == lines_cut(text@),
{
    proof {
        assert(text@.take(0) =~= Seq::<char>::empty());
    }
    let mut out: Vec<String> = Vec::new();
    let mut count: usize = 0;
    let mut long = false;
    let mut cur: Vec<char> = Vec::new();
    let mut i: usize = 0;
    while i < text.len()
        invariant
            i <= text@.len(),
            count + cur@.len() <= i,
            ({
                let (done, open) = line_split(text@.take(i as int));
                &&& count == done.len()
                &&& cur@ == open
                &&& strings_view(out@) == done.take(kept_count(done.len())).map_values(
                    |x: Seq<char>| bound_line(x),
                )
                &&& long == has_long(done)
            }),
        decreases text@.len() - i,
    {
        let c = text[i];
        let ghost (done, open) = line_split(text@.take(i as int));
        proof {
            assert(text@.take(i + 1).drop_last() =~= text@.take(i as int));
            assert(text@.take(i + 1).last() == c);
        }
        if c == '\n' {
            let mut line_len = cur.len();
            if line_len > 0 && cur[line_len - 1] == '\r' {
                line_len -= 1;
            }
            let mut line = cur;
            line.truncate(line_len);
            proof {
                assert(line@ =~= strip_cr(open));
                lemma_take_map_push(done, strip_cr(open), done.len());
                lemma_long_push(done, strip_cr(open));
            }
            if count < MAX_LINES {
                if line.len() > MAX_LINE_CHARS {
                    long = true;
                }
                out.push(bounded_line(&line));
                proof {
                    assert(strings_view(out@) =~= done.take(kept_count(done.len())).map_values(
                        |x: Seq<char>| bound_line(x),
                    ).push(bound_line(strip_cr(open))));
                }
            }
            count += 1;
            cur = Vec::new();
        } else {
            cur.push(c);
        }
        i += 1;
    }
    proof {
        assert(text@.take(text@.len() as int) =~= text@);
    }
    let ghost (done, open) = line_split(text@);
    if cur.len() > 0 {
        proof {
            lemma_take_map_push(done, open, done.len());
            lemma_long_push(done, open);
        }
        if count < MAX_LINES {
            if cur.len() > MAX_LINE_CHARS {
                long = true;
            }
            out.push(bounded_line(&cur));
            proof {
                assert(strings_view(out@) =~= done.take(kept_count(done.len())).map_values(
                    |x: Seq<char>| bound_line(x),
                ).push(bound_line(open)));
                let d2 = done.push(open);
                assert forall|j: int| 0 <= j < done.len() implies d2[j] == done[j] by {}
                assert(d2[done.len() as int] == open);
            }
        } else {
            proof {
                let d2 = done.push(open);
                assert forall|j: int| 0 <= j < kept_count(d2.len()) implies d2[j] == done[j] by {}
            }
        }
        count += 1;
    }
    let cut = count > MAX_LINES || long;
    if out.len() == 0 {
        out.push(String::new());
        proof {
            assert(strings_view(out@) =~= seq![Seq::<char>::empty()]);
        }
    }
    (out, cut)
}

pub proof fn lemma_index_of_skip(s: Seq<char>, needle: Seq<char>, a: int, b: int)
    requires
        0 <= a <= s.len(),
        0 <= b,
    ensures
        index_of(s.skip(a), needle, b) == (match index_of(s, needle, a + b) {
            Some(k) => Some(k - a),
            None => None::<int>,
        }),
    decreases s.len() + 1 - (a + b),
{
    if a + b + needle.len() <= s.len() {
        assert(s.skip(a).subrange(b, b + needle.len()) =~= s.subrange(a + b, a + b + needle.len()));
        lemma_index_of_skip(s, needle, a, b + 1);
    }
}

/// The value of attribute `name` quoted with `q`: `None` when `name=q` does
/// not occur, `Some(None)` when its value has no closing quote.
pub open spec fn attr_quoted(tag: Seq<char>, name: Seq<char>, q: char) -> Option<Option<Seq<char>>> {
    let needle = name + seq!['=', q];
    match index_of(tag, needle, 0) {
        None => None,
        Some(start) => {
            let rest = tag.skip(start + needle.len());
            match index_of(rest, seq![q], 0) {
                Some(end) => Some(Some(rest.take(end))),
                None => Some(None),
            }
        },
    }
}

/// One double- or single-quoted attribute of an HTML tag body; the double
/// quoted form is looked for first, and decides when present.
pub open spec fn attr_value(tag: Seq<char>, name: Seq<char>) -> Option<Seq<char>> {
    match attr_quoted(tag, name, '"') {
        Some(r) => r,
        None => match attr_quoted(tag, name, '\'') {
            Some(r) => r,
            None => None,
        },
    }
}

pub open spec fn img_open() -> Seq<char> {
    seq!['<', 'i', 'm', 'g']
}

/// The texts following each `<img`, up to the next one: `str::split("<img")`
/// without its first part.
pub open spec fn img_pieces(s: Seq<char>) -> Seq<Seq<char>>
    decreases s.len(),
{
    match index_of(s, img_open(), 0) {
        None => Seq::empty(),
        Some(i) => {
            proof {
                lemma_index_of(s, img_open(), 0);
            }
            let rest = s.skip(i + 4);
            let piece = match index_of(rest, img_open(), 0) {
                Some(j) => rest.take(j),
                None => rest,
            };
            seq![piece] + img_pieces(rest)
        },
    }
}

/// The image named by one `<img` piece: its tag body runs to the first `>`;
/// a piece without `src` names none, a missing `alt` is empty.
pub open spec fn piece_image(piece: Seq<char>) -> Option<(Seq<char>, Seq<char>)> {
    let tag = match index_of(piece, seq!['>'], 0) {
        Some(k) => piece.take(k),
        None => piece,
    };
    match attr_value(tag, seq!['s', 'r', 'c']) {
        None => None,
        Some(target) => Some(
            (
                target,
                match attr_value(tag, seq!['a', 'l', 't']) {
                    Some(alt) => alt,
                    None => Seq::empty(),
                },
            ),
        ),
    }
}

pub open spec fn images_of(pieces: Seq<Seq<char>>) -> Seq<(Seq<char>, Seq<char>)>
    decreases pieces.len(),
{
    if pieces.len() == 0 {
        Seq::empty()
    } else {
        let head = match piece_image(pieces[0]) {
            Some(x) => seq![x],
            None => Seq::empty(),
        };
        head + images_of(pieces.skip(1))
    }
}

/// The `<img>` targets and alt texts of an HTML fragment, in order.
pub open spec fn html_image_list(html: Seq<char>) -> Seq<(Seq<char>, Seq<char>)> {
    images_of(img_pieces(html))
}

fn copy_range(s: &[char], from: usize, to: usize) -> (r: Vec<char>)
    requires
        from <= to <= s@.len(),
    ensures
        r@ == s@.subrange(from as int, to as int),
{
    let mut out: Vec<char> = Vec::new();
    let mut i: usize = from;
    while i < to
        invariant
            from <= i <= to,
            to <= s@.len(),
            out@ == s@.subrange(from as int, i as int),
        decreases to - i,
    {
        out.push(s[i]);
        i += 1;
        proof {
            assert(out@ =~= s@.subrange(from as int, i as int));
        }
    }
    out
}

fn attr_chars(tag: &[char], name: &[char]) -> (r: Option<Vec<char>>)
    ensures
        r matches Some(v) ==> attr_value(tag@, name@) == Some(v@),
        r is None ==> attr_value(tag@, name@) is None,
{
    let quotes: [char; 2] = ['"', '\''];
    let tag_len = tag.len();
    let mut qi: usize = 0;
    while qi < 2
        invariant
            qi <= 2,
            tag_len == tag@.len(),
            quotes@ == seq!['"', '\''],
            qi >= 1 ==> attr_quoted(tag@, name@, '"') is None,
            qi >= 2 ==> attr_quoted(tag@, name@, '\'') is None,
        decreases 2 - qi,
    {
        let q = quotes[qi];
        let mut needle: Vec<char> = Vec::new();
        let mut k: usize = 0;
        while k < name.len()
            invariant
                k <= name@.len(),
                needle@ == name@.take(k as int),
            decreases name@.len() - k,
        {
            needle.push(name[k]);
            k += 1;
            proof {
                assert(needle@ =~= name@.take(k as int));
            }
        }
        needle.push('=');
        needle.push(q);
        proof {
            assert(needle@ =~= name@ + seq!['=', q]);
            lemma_index_of(tag@, needle@, 0);
        }
        match find_chars(tag, &needle, 0) {
            Some(start) => {
                let from = start + needle.len();
                let rest = copy_range(tag, from, tag_len);
                proof {
                    assert(rest@ =~= tag@.skip(from as int));
                }
                let close: Vec<char> = vec![q];
                proof {
                    assert(close@ =~= seq![q]);
                    lemma_index_of(rest@, close@, 0);
                }
                match find_chars(&rest, &close, 0) {
                    Some(end) => {
                        let value = copy_range(&rest, 0, end);
                        proof {
                            assert(value@ =~= rest@.take(end as int));
                        }
                        return Some(value);
                    },
                    None => {
                        return None;
                    },
                }
            },
            None => {},
        }
        qi += 1;
    }
    None
}

/// Read one double- or single-quoted attribute from an HTML tag body.
pub fn html_attr(tag: &str, name: &str) -> (r: Option<String>)
    ensures
        r matches Some(v) ==> attr_value(tag@, name@) == Some(v@),
        r is None ==> attr_value(tag@, name@) is None,
{
    match attr_chars(&crate::text::chars_of(tag), &crate::text::chars_of(name)) {
        Some(v) => Some(crate::text::string_from_chars(&v)),
        None => None,
    }
}

pub open spec fn pairs_view(v: Seq<(String, String)>) -> Seq<(Seq<char>, Seq<char>)> {
    v.map_values(|p: (String, String)| (p.0@, p.1@))
}

fn piece_image_of(piece: &[char]) -> (r: Option<(String, String)>)
    ensures
        r matches Some(p) ==> piece_image(piece@) == Some((p.0@, p.1@)),
        r is None ==> piece_image(piece@) is None,
{
    let gt: Vec<char> = vec!['>'];
    proof {
        assert(gt@ =~= seq!['>']);
        lemma_index_of(piece@, gt@, 0);
    }
    let tag = match find_chars(piece, &gt, 0) {
        Some(k) => {
            let t = copy_range(piece, 0, k);
            proof {
                assert(t@ =~= piece@.take(k as int));
            }
            t
        },
        None => {
            let t = copy_range(piece, 0, piece.len());
            proof {
                assert(t@ =~= piece@);
            }
            t
        },
    };
    let src: Vec<char> = vec!['s', 'r', 'c'];
    let alt: Vec<char> = vec!['a', 'l', 't'];
    proof {
        assert(src@ =~= seq!['s', 'r', 'c']);
        assert(alt@ =~= seq!['a', 'l', 't']);
    }
    match attr_chars(&tag, &src) {
        None => None,
        Some(target) => {
            let alt_text = match attr_chars(&tag, &alt) {
                Some(a) => a,
                None => Vec::new(),
            };
            Some((crate::text::string_from_chars(&target), crate::text::string_from_chars(&alt_text)))
        },
    }
}

/// Lift `<img src alt>` targets out of ignored HTML. Attribute values are
/// taken verbatim; unsafe targets are rejected later by the image resolver.
pub fn html_images(html: &str) -> (r: Vec<(String, String)>)
    ensures
        pairs_view(r@) == html_image_list(html@),
{
    let s = crate::text::chars_of(html);
    let open: Vec<char> = vec!['<', 'i', 'm', 'g'];
    proof {
        assert(open@ =~= img_open());
        assert(s@.skip(0) =~= s@);
    }
    let mut out: Vec<(String, String)> = Vec::new();
    let mut at: usize = 0;
    let n = s.len();
    loop
        invariant
            at <= s@.len(),
            n == s@.len(),
            s@ == html@,
            open@ == img_open(),
            html_image_list(s@) == pairs_view(out@) + images_of(img_pieces(s@.skip(at as int))),
        decreases s@.len() - at,
    {
        let ghost t = s@.skip(at as int);
        proof {
            lemma_index_of_skip(s@, open@, at as int, 0);
            lemma_index_of(s@, open@, at as int);
        }
        match find_chars(&s, &open, at) {
            None => {
                proof {
                    assert(img_pieces(t) =~= Seq::<Seq<char>>::empty());
                    assert(pairs_view(out@) + images_of(Seq::<Seq<char>>::empty()) =~= pairs_view(out@));
                }
                return out;
            },
            Some(i) => {
                let after = i + 4;
                proof {
                    lemma_index_of_skip(s@, open@, after as int, 0);
                    lemma_index_of_skip(s@, open@, at as int, 0);
                    lemma_index_of(s@, open@, after as int);
                    assert(t.skip(i - at + 4) =~= s@.skip(after as int));
                }
                let end = match find_chars(&s, &open, after) {
                    Some(j) => j,
                    None => s.len(),
                };
                let piece = copy_range(&s, after, end);
                let ghost rest = s@.skip(after as int);
                proof {
                    match index_of(rest, img_open(), 0) {
                        Some(j) => assert(piece@ =~= rest.take(j)),
                        None => assert(piece@ =~= rest),
                    }
                    let ps = img_pieces(t);
                    assert(ps == seq![piece@] + img_pieces(rest));
                    assert(ps[0] == piece@);
                    assert(ps.skip(1) =~= img_pieces(rest));
                }
                let ghost prev = pairs_view(out@);
                match piece_image_of(&piece) {
                    Some(p) => {
                        out.push(p);
                        proof {
                            assert(pairs_view(out@) =~= prev + seq![(p.0@, p.1@)]);
                            assert(prev + (seq![(p.0@, p.1@)] + images_of(img_pieces(rest))) =~= pairs_view(
                                out@,
                            ) + images_of(img_pieces(rest)));
                        }
                    },
                    None => {
                        proof {
                            assert(Seq::<(Seq<char>, Seq<char>)>::empty() + images_of(img_pieces(rest))
                                =~= images_of(img_pieces(rest)));
                        }
                    },
                }
                at = after;
            },
        }
    }
}

/// A displayed document is bounded: at most `MAX_LINES` lines of at most
/// `MAX_LINE_CHARS` characters and a cut mark each, and at least one line.
pub proof fn law_display_is_bounded(text: Seq<char>)
    ensures
        1 <= shown_lines(text).len() <= MAX_LINES,
        forall|i: int| 0 <= i < shown_lines(text).len() ==> (#[trigger] shown_lines(text)[i]).len() <= MAX_LINE_CHARS + 1,
{
    let ls = lines_of(text);
    let kept = ls.take(kept_count(ls.len())).map_values(|l: Seq<char>| bound_line(l));
    assert forall|i: int| 0 <= i < shown_lines(text).len() implies (#[trigger] shown_lines(text)[i]).len()
        <= MAX_LINE_CHARS + 1 by {
        if kept.len() > 0 {
            assert(shown_lines(text)[i] == bound_line(ls.take(kept_count(ls.len()))[i]));
        }
    }
}

/// No entry of the sequence occurs twice.
pub open spec fn distinct(s: Seq<Seq<char>>) -> bool {
    forall|i: int, j: int| 0 <= i < j < s.len() ==> s[i] != s[j]
}

proof fn lemma_add_all_distinct(d: Seq<Seq<char>>, s: Seq<Seq<char>>)
    requires
        distinct(d),
    ensures
        distinct(add_all(d, s)),
        forall|x: Seq<char>| #[trigger] add_all(d, s).contains(x) <==> d.contains(x) || s.contains(x),
    decreases s.len(),
{
    if s.len() > 0 {
        lemma_add_all_distinct(d, s.drop_last());
        let prev = add_all(d, s.drop_last());
        if !prev.contains(s.last()) {
            assert forall|i: int, j: int| 0 <= i < j < prev.push(s.last()).len() implies prev.push(s.last())[i]
                != prev.push(s.last())[j] by {
                if j == prev.len() {
                    assert(prev[i] == prev.push(s.last())[i]);
                }
            }
        }
        let last = s.last();
        assert forall|x: Seq<char>| #[trigger] add_all(d, s).contains(x) <==> d.contains(x) || s.contains(x) by {
            // what `s` holds is what its front holds, and its last entry
            if s.drop_last().contains(x) {
                let k = choose|k: int| 0 <= k < s.drop_last().len() && s.drop_last()[k] == x;
                assert(s[k] == x);
            }
            if s.contains(x) && x != last {
                let k = choose|k: int| 0 <= k < s.len() && s[k] == x;
                assert(k != s.len() - 1);
                assert(s.drop_last()[k] == x);
            }
            assert(s[s.len() - 1] == last);
            assert(s.contains(x) <==> s.drop_last().contains(x) || x == last);
            // what the result holds is what `prev` holds, and the last entry
            if !prev.contains(last) {
                let pushed = prev.push(last);
                if prev.contains(x) {
                    let k = choose|k: int| 0 <= k < prev.len() && prev[k] == x;
                    assert(pushed[k] == x);
                }
                assert(pushed[prev.len() as int] == last);
                if pushed.contains(x) && x != last {
                    let k = choose|k: int| 0 <= k < pushed.len() && pushed[k] == x;
                    assert(k < prev.len());
                    assert(prev[k] == x);
                }
            }
            assert(add_all(d, s).contains(x) <==> prev.contains(x) || x == last);
        }
    }
}

/// The image targets of a document are distinct, and they are exactly the
/// targets its blocks show.
pub proof fn law_image_targets_are_distinct(blocks: Seq<BlockView>)
    ensures
        distinct(document_images(blocks)),
        forall|t: Seq<char>| #[trigger] document_images(blocks).contains(t) <==> blocks_targets(blocks).contains(t),
{
    lemma_add_all_distinct(Seq::empty(), blocks_targets(blocks));
}

/// An image target resolves only to a normalized path inside the workspace:
/// no part of it is empty, `.` or `..`, so it is neither absolute nor
/// escapes upwards.
pub proof fn law_resolved_images_stay_inside(base: Seq<char>, target: Seq<char>)
    ensures
        image_path(base, target) matches Some(p) ==> crate::workspace::path_error(p) is None && forall|i: int|
            0 <= i < crate::workspace::segments(p).len() ==> {
                let part = #[trigger] crate::workspace::segments(p)[i];
                part.len() > 0 && part != seq!['.'] && part != seq!['.', '.']
            },
{
}

} // verus!
