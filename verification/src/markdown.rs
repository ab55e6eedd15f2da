//! The markdown event stream and the block structure built from it.
use vstd::prelude::*;
use pulldown_cmark::{Alignment, CodeBlockKind, Event, Options, Parser, Tag, TagEnd};
use crate::document::{
    Block, BlockView, CellAlign, Inline, InlineView, ItemView, ListItem, SpanView, Span, html_image_list,
    index_of, opt_view, inlines_view, cells_view, rows_view, blocks_view, items_view,
};

verus! {

/// An opening markdown tag with its payload as plain values.
pub enum MdTag {
    Paragraph,
    Heading(u8),
    BlockQuote,
    /// A code block; fenced blocks carry their info string.
    CodeBlock(Option<String>),
    /// A list; ordered lists carry their first number.
    List(Option<u64>),
    Item,
    Table(Vec<CellAlign>),
    TableHead,
    TableRow,
    TableCell,
    Emphasis,
    Strong,
    Strikethrough,
    Link(String),
    Image(String),
    Other,
}

/// A closing markdown tag.
#[derive(Clone, Copy, Debug, PartialEq, Eq, Structural)]
pub enum MdEnd {
    Paragraph,
    Heading,
    BlockQuote,
    CodeBlock,
    List,
    Item,
    Table,
    TableHead,
    TableRow,
    TableCell,
    Image,
    Emphasis,
    Strong,
    Strikethrough,
    Link,
    Other,
}

/// One markdown parser event with plain-value payloads; raw HTML blocks and
/// inline HTML share one variant.
pub enum MdEvent {
    Start(MdTag),
    End(MdEnd),
    Text(String),
    Code(String),
    Html(String),
    SoftBreak,
    HardBreak,
    Rule,
    TaskListMarker(bool),
    Other,
}

pub enum TagView {
    Paragraph,
    Heading(u8),
    BlockQuote,
    CodeBlock(Option<Seq<char>>),
    List(Option<u64>),
    Item,
    Table(Seq<CellAlign>),
    TableHead,
    TableRow,
    TableCell,
    Emphasis,
    Strong,
    Strikethrough,
    Link(Seq<char>),
    Image(Seq<char>),
    Other,
}

pub enum EventView {
    Start(TagView),
    End(MdEnd),
    Text(Seq<char>),
    Code(Seq<char>),
    Html(Seq<char>),
    SoftBreak,
    HardBreak,
    Rule,
    TaskListMarker(bool),
    Other,
}

impl View for MdTag {
    type V = TagView;

    open spec fn view(&self) -> TagView {
        match self {
            MdTag::Paragraph => TagView::Paragraph,
            MdTag::Heading(l) => TagView::Heading(*l),
            MdTag::BlockQuote => TagView::BlockQuote,
            MdTag::CodeBlock(info) => TagView::CodeBlock(opt_view(*info)),
            MdTag::List(start) => TagView::List(*start),
            MdTag::Item => TagView::Item,
            MdTag::Table(aligns) => TagView::Table(aligns@),
            MdTag::TableHead => TagView::TableHead,
            MdTag::TableRow => TagView::TableRow,
            MdTag::TableCell => TagView::TableCell,
            MdTag::Emphasis => TagView::Emphasis,
            MdTag::Strong => TagView::Strong,
            MdTag::Strikethrough => TagView::Strikethrough,
            MdTag::Link(url) => TagView::Link(url@),
            MdTag::Image(url) => TagView::Image(url@),
            MdTag::Other => TagView::Other,
        }
    }
}

impl View for MdEvent {
    type V = EventView;

    open spec fn view(&self) -> EventView {
        match self {
            MdEvent::Start(t) => EventView::Start(t@),
            MdEvent::End(e) => EventView::End(*e),
            MdEvent::Text(t) => EventView::Text(t@),
            MdEvent::Code(t) => EventView::Code(t@),
            MdEvent::Html(t) => EventView::Html(t@),
            MdEvent::SoftBreak => EventView::SoftBreak,
            MdEvent::HardBreak => EventView::HardBreak,
            MdEvent::Rule => EventView::Rule,
            MdEvent::TaskListMarker(b) => EventView::TaskListMarker(*b),
            MdEvent::Other => EventView::Other,
        }
    }
}

pub open spec fn events_view(s: Seq<MdEvent>) -> Seq<EventView> {
    s.map_values(|e: MdEvent| e@)
}

/// Active inline formatting while events stream in.
pub struct Active {
    pub bold: bool,
    pub italic: bool,
    pub strike: bool,
    pub code: bool,
    pub link: Option<String>,
}

pub struct ActiveView {
    pub bold: bool,
    pub italic: bool,
    pub strike: bool,
    pub code: bool,
    pub link: Option<Seq<char>>,
}

impl View for Active {
    type V = ActiveView;

    open spec fn view(&self) -> ActiveView {
        ActiveView {
            bold: self.bold,
            italic: self.italic,
            strike: self.strike,
            code: self.code,
            link: opt_view(self.link),
        }
    }
}

/// One open container while events stream in.
pub enum Frame {
    Quote(Vec<Block>),
    List { ordered: bool, start: u64, items: Vec<ListItem> },
    Item {
        checked: Option<bool>,
        /// Inline runs of a tight item, which arrive without paragraph tags
        /// and flush into a paragraph before the item's next block.
        tight: Vec<Inline>,
        blocks: Vec<Block>,
    },
    Inline { heading: Option<u8>, inlines: Vec<Inline> },
    Cell(Vec<Inline>),
    Row { cells: Vec<Vec<Inline>> },
    Table { aligns: Vec<CellAlign>, head: Option<Vec<Vec<Inline>>>, rows: Vec<Vec<Vec<Inline>>> },
    Code { language: Option<String>, text: String },
    /// Image alt text accumulates between the image tags.
    Image { target: String, alt: String },
}

pub enum FrameView {
    Quote(Seq<BlockView>),
    List(bool, u64, Seq<ItemView>),
    Item(Option<bool>, Seq<InlineView>, Seq<BlockView>),
    Inline(Option<u8>, Seq<InlineView>),
    Cell(Seq<InlineView>),
    Row(Seq<Seq<InlineView>>),
    Table(Seq<CellAlign>, Option<Seq<Seq<InlineView>>>, Seq<Seq<Seq<InlineView>>>),
    Code(Option<Seq<char>>, Seq<char>),
    Image(Seq<char>, Seq<char>),
}

impl View for Frame {
    type V = FrameView;

    open spec fn view(&self) -> FrameView {
        match self {
            Frame::Quote(b) => FrameView::Quote(blocks_view(b@)),
            Frame::List { ordered, start, items } => FrameView::List(*ordered, *start, items_view(items@)),
            Frame::Item { checked, tight, blocks } => FrameView::Item(
                *checked,
                inlines_view(tight@),
                blocks_view(blocks@),
            ),
            Frame::Inline { heading, inlines } => FrameView::Inline(*heading, inlines_view(inlines@)),
            Frame::Cell(i) => FrameView::Cell(inlines_view(i@)),
            Frame::Row { cells } => FrameView::Row(cells_view(cells@)),
            Frame::Table { aligns, head, rows } => FrameView::Table(
                aligns@,
                match head {
                    Some(h) => Some(cells_view(h@)),
                    None => None,
                },
                rows_view(rows@),
            ),
            Frame::Code { language, text } => FrameView::Code(opt_view(*language), text@),
            Frame::Image { target, alt } => FrameView::Image(target@, alt@),
        }
    }
}

/// The state of the block builder: open containers, open styles and the
/// finished top-level blocks.
pub struct BuildView {
    pub stack: Seq<FrameView>,
    pub styles: Seq<ActiveView>,
    pub blocks: Seq<BlockView>,
}

pub open spec fn plain_style() -> ActiveView {
    ActiveView { bold: false, italic: false, strike: false, code: false, link: None }
}

/// The innermost open style, or plain text.
pub open spec fn current_style(styles: Seq<ActiveView>) -> ActiveView {
    if styles.len() == 0 {
        plain_style()
    } else {
        styles.last()
    }
}

/// A text run styled by `a`.
pub open spec fn span_view(text: Seq<char>, a: ActiveView) -> InlineView {
    InlineView::Text(
        SpanView { text, bold: a.bold, italic: a.italic, strike: a.strike, code: a.code, link: a.link },
    )
}

pub open spec fn same_style(a: SpanView, b: SpanView) -> bool {
    a.bold == b.bold && a.italic == b.italic && a.strike == b.strike && a.code == b.code && a.link == b.link
}

/// Append an inline run, merging it into a preceding text run of equal style.
pub open spec fn merge_inline(inlines: Seq<InlineView>, inline: InlineView) -> Seq<InlineView> {
    let pushed = inlines.push(inline);
    if inlines.len() == 0 {
        pushed
    } else {
        match (inlines.last(), inline) {
            (InlineView::Text(last), InlineView::Text(next)) => if same_style(last, next) {
                inlines.update(
                    inlines.len() - 1,
                    InlineView::Text(SpanView { text: last.text + next.text, ..last }),
                )
            } else {
                pushed
            },
            _ => pushed,
        }
    }
}

/// A container after an inline run arrives; only paragraph-like frames,
/// table cells and tight list items collect runs.
pub open spec fn push_inline_view(f: FrameView, inline: InlineView) -> FrameView {
    match f {
        FrameView::Inline(h, xs) => FrameView::Inline(h, merge_inline(xs, inline)),
        FrameView::Cell(xs) => FrameView::Cell(merge_inline(xs, inline)),
        FrameView::Item(c, tight, b) => FrameView::Item(c, merge_inline(tight, inline), b),
        _ => f,
    }
}

/// Pending tight runs moved into a paragraph.
pub open spec fn flush_view(tight: Seq<InlineView>, blocks: Seq<BlockView>) -> Seq<BlockView> {
    if tight.len() > 0 {
        blocks.push(BlockView::Paragraph(tight))
    } else {
        blocks
    }
}

/// A finished block goes to the innermost quote or list item, else to the
/// document.
pub open spec fn push_block_view(st: BuildView, b: BlockView) -> BuildView {
    if st.stack.len() == 0 {
        BuildView { blocks: st.blocks.push(b), ..st }
    } else {
        let last = st.stack.len() - 1;
        match st.stack[last] {
            FrameView::Quote(children) => BuildView {
                stack: st.stack.update(last, FrameView::Quote(children.push(b))),
                ..st
            },
            FrameView::Item(c, tight, children) => BuildView {
                stack: st.stack.update(last, FrameView::Item(c, Seq::empty(), flush_view(tight, children).push(b))),
                ..st
            },
            _ => BuildView { blocks: st.blocks.push(b), ..st },
        }
    }
}

/// An inline run for the innermost container, when there is one.
pub open spec fn apply_inline(st: BuildView, inline: InlineView) -> BuildView {
    if st.stack.len() == 0 {
        st
    } else {
        BuildView {
            stack: st.stack.update(st.stack.len() - 1, push_inline_view(st.stack.last(), inline)),
            ..st
        }
    }
}

/// An image joins the open paragraph or cell, else becomes a paragraph.
pub open spec fn place_image(st: BuildView, image: InlineView) -> BuildView {
    if st.stack.len() > 0 && (st.stack.last() is Inline || st.stack.last() is Cell) {
        apply_inline(st, image)
    } else {
        push_block_view(st, BlockView::Paragraph(seq![image]))
    }
}

pub open spec fn place_images(st: BuildView, images: Seq<(Seq<char>, Seq<char>)>) -> BuildView
    decreases images.len(),
{
    if images.len() == 0 {
        st
    } else {
        let (target, alt) = images.last();
        place_image(place_images(st, images.drop_last()), InlineView::Image(target, alt))
    }
}

pub open spec fn push_frame(st: BuildView, f: FrameView) -> BuildView {
    BuildView { stack: st.stack.push(f), ..st }
}

pub open spec fn push_style(st: BuildView, a: ActiveView) -> BuildView {
    BuildView { styles: st.styles.push(a), ..st }
}

/// Length of the first word of a code fence's info string, which ends at
/// a comma or a space.
pub open spec fn word_len(s: Seq<char>) -> nat
    decreases s.len(),
{
    if s.len() == 0 || s[0] == ',' || s[0] == ' ' {
        0
    } else {
        1 + word_len(s.drop_first())
    }
}

/// The language of a fenced code block: the info string's first word, when
/// it is not empty.
pub open spec fn code_language(info: Option<Seq<char>>) -> Option<Seq<char>> {
    match info {
        None => None,
        Some(s) => if word_len(s) > 0 {
            Some(s.take(word_len(s) as int))
        } else {
            None
        },
    }
}

pub open spec fn step_start(st: BuildView, tag: TagView) -> BuildView {
    let a = current_style(st.styles);
    match tag {
        TagView::Paragraph => push_frame(st, FrameView::Inline(None, Seq::empty())),
        TagView::Heading(level) => push_frame(st, FrameView::Inline(Some(level), Seq::empty())),
        TagView::BlockQuote => push_frame(st, FrameView::Quote(Seq::empty())),
        TagView::CodeBlock(info) => push_frame(st, FrameView::Code(code_language(info), Seq::empty())),
        TagView::List(start) => push_frame(
            st,
            FrameView::List(
                start is Some,
                match start {
                    Some(n) => n,
                    None => 1,
                },
                Seq::empty(),
            ),
        ),
        TagView::Item => push_frame(st, FrameView::Item(None, Seq::empty(), Seq::empty())),
        TagView::Table(aligns) => push_frame(st, FrameView::Table(aligns, None, Seq::empty())),
        TagView::TableHead => push_frame(st, FrameView::Row(Seq::empty())),
        TagView::TableRow => push_frame(st, FrameView::Row(Seq::empty())),
        TagView::TableCell => push_frame(st, FrameView::Cell(Seq::empty())),
        TagView::Emphasis => push_style(st, ActiveView { italic: true, ..a }),
        TagView::Strong => push_style(st, ActiveView { bold: true, ..a }),
        TagView::Strikethrough => push_style(st, ActiveView { strike: true, ..a }),
        TagView::Link(url) => push_style(st, ActiveView { link: Some(url), ..a }),
        TagView::Image(url) => push_frame(st, FrameView::Image(url, Seq::empty())),
        TagView::Other => st,
    }
}

/// The state with the innermost container removed.
pub open spec fn popped(st: BuildView) -> BuildView {
    if st.stack.len() == 0 {
        st
    } else {
        BuildView { stack: st.stack.drop_last(), ..st }
    }
}

/// The innermost container, replaced by `f` when there is one.
pub open spec fn with_top(st: BuildView, f: FrameView) -> BuildView {
    if st.stack.len() == 0 {
        st
    } else {
        BuildView { stack: st.stack.update(st.stack.len() - 1, f), ..st }
    }
}

/// Closing a container pops it whatever it is; only the expected kind of
/// container yields anything.
pub open spec fn step_end(st: BuildView, end: MdEnd) -> BuildView {
    let top = if st.stack.len() > 0 {
        Some(st.stack.last())
    } else {
        None
    };
    let rest = popped(st);
    let under = if rest.stack.len() > 0 {
        Some(rest.stack.last())
    } else {
        None
    };
    match end {
        MdEnd::Paragraph | MdEnd::Heading => match top {
            Some(FrameView::Inline(heading, inlines)) => if inlines.len() == 0 {
                rest
            } else {
                push_block_view(
                    rest,
                    match heading {
                        Some(level) => BlockView::Heading(level, inlines),
                        None => BlockView::Paragraph(inlines),
                    },
                )
            },
            _ => rest,
        },
        MdEnd::BlockQuote => match top {
            Some(FrameView::Quote(children)) => push_block_view(rest, BlockView::Quote(children)),
            _ => rest,
        },
        MdEnd::CodeBlock => match top {
            Some(FrameView::Code(language, text)) => push_block_view(rest, BlockView::Code(text, language)),
            _ => rest,
        },
        MdEnd::List => match top {
            Some(FrameView::List(ordered, start, items)) => if items.len() > 0 {
                push_block_view(rest, BlockView::List(ordered, start, items))
            } else {
                rest
            },
            _ => rest,
        },
        MdEnd::Item => match top {
            Some(FrameView::Item(checked, tight, blocks)) => match under {
                Some(FrameView::List(o, s, items)) => with_top(
                    rest,
                    FrameView::List(o, s, items.push(ItemView { checked, blocks: flush_view(tight, blocks) })),
                ),
                _ => rest,
            },
            _ => rest,
        },
        MdEnd::Table => match top {
            Some(FrameView::Table(aligns, head, rows)) => push_block_view(
                rest,
                BlockView::Table(
                    aligns,
                    match head {
                        Some(h) => h,
                        None => Seq::empty(),
                    },
                    rows,
                ),
            ),
            _ => rest,
        },
        MdEnd::TableHead => match top {
            Some(FrameView::Row(cells)) => match under {
                Some(FrameView::Table(a, _, r)) => with_top(rest, FrameView::Table(a, Some(cells), r)),
                _ => rest,
            },
            _ => rest,
        },
        MdEnd::TableRow => match top {
            Some(FrameView::Row(cells)) => match under {
                Some(FrameView::Table(a, h, r)) => with_top(rest, FrameView::Table(a, h, r.push(cells))),
                _ => rest,
            },
            _ => rest,
        },
        MdEnd::TableCell => match top {
            Some(FrameView::Cell(inlines)) => match under {
                Some(FrameView::Row(cells)) => with_top(rest, FrameView::Row(cells.push(inlines))),
                _ => rest,
            },
            _ => rest,
        },
        MdEnd::Image => match top {
            Some(FrameView::Image(target, alt)) => place_image(rest, InlineView::Image(target, alt)),
            _ => rest,
        },
        MdEnd::Emphasis | MdEnd::Strong | MdEnd::Strikethrough | MdEnd::Link => if st.styles.len() > 0 {
            BuildView { styles: st.styles.drop_last(), ..st }
        } else {
            st
        },
        MdEnd::Other => st,
    }
}

pub open spec fn break_tag() -> Seq<char> {
    seq!['<', 'b', 'r']
}

/// One event applied to the builder state.
pub open spec fn step(st: BuildView, e: EventView) -> BuildView {
    let a = current_style(st.styles);
    match e {
        EventView::Start(tag) => step_start(st, tag),
        EventView::End(end) => step_end(st, end),
        EventView::Text(t) => if st.stack.len() == 0 {
            apply_inline(st, span_view(t, a))
        } else {
            match st.stack.last() {
                FrameView::Code(l, buf) => with_top(st, FrameView::Code(l, buf + t)),
                FrameView::Image(target, alt) => with_top(st, FrameView::Image(target, alt + t)),
                _ => apply_inline(st, span_view(t, a)),
            }
        },
        EventView::Code(t) => apply_inline(st, span_view(t, ActiveView { code: true, ..a })),
        EventView::SoftBreak | EventView::HardBreak => apply_inline(st, span_view(seq![' '], a)),
        EventView::Rule => push_block_view(st, BlockView::Rule),
        EventView::TaskListMarker(checked) => match st.stack.last() {
            FrameView::Item(_, tight, blocks) => if st.stack.len() > 0 {
                with_top(st, FrameView::Item(Some(checked), tight, blocks))
            } else {
                st
            },
            _ => st,
        },
        EventView::Html(html) => {
            let spaced = if index_of(html, break_tag(), 0) is Some {
                apply_inline(st, span_view(seq![' '], a))
            } else {
                st
            };
            place_images(spaced, html_image_list(html))
        },
        EventView::Other => st,
    }
}

/// The builder state after a run of events, from an empty start.
pub open spec fn run(events: Seq<EventView>) -> BuildView
    decreases events.len(),
{
    if events.len() == 0 {
        BuildView { stack: Seq::empty(), styles: Seq::empty(), blocks: Seq::empty() }
    } else {
        step(run(events.drop_last()), events.last())
    }
}

/// At most `MAX_BLOCKS` blocks, the first ones.
pub open spec fn bounded_blocks(bs: Seq<BlockView>) -> Seq<BlockView> {
    if bs.len() > crate::document::MAX_BLOCKS {
        bs.take(crate::document::MAX_BLOCKS as int)
    } else {
        bs
    }
}

/// The top-level blocks of an event stream, before the display bound.
pub open spec fn event_blocks(events: Seq<EventView>) -> Seq<BlockView> {
    run(events).blocks
}

pub open spec fn frames_view(s: Seq<Frame>) -> Seq<FrameView> {
    s.map_values(|f: Frame| f@)
}

pub open spec fn styles_view(s: Seq<Active>) -> Seq<ActiveView> {
    s.map_values(|a: Active| a@)
}

pub proof fn lemma_blocks_view_push(s: Seq<Block>, b: Block)
    ensures
        blocks_view(s.push(b)) == blocks_view(s).push(b@),
{
    assert(s.push(b).drop_last() =~= s);
}

pub proof fn lemma_items_view_push(s: Seq<ListItem>, it: ListItem)
    ensures
        items_view(s.push(it)) == items_view(s).push(it@),
{
    assert(s.push(it).drop_last() =~= s);
}

fn clone_opt(o: &Option<String>) -> (r: Option<String>)
    ensures
        opt_view(r) == opt_view(*o),
{
    match o {
        Some(s) => Some(s.as_str().to_owned()),
        None => None,
    }
}

fn opt_str_eq(a: &Option<String>, b: &Option<String>) -> (r: bool)
    ensures
        r == (opt_view(*a) == opt_view(*b)),
{
    match (a, b) {
        (Some(x), Some(y)) => crate::text::str_eq(x.as_str(), y.as_str()),
        (None, None) => true,
        _ => false,
    }
}

/// Appends the characters of `src`.
fn append_str(dst: &mut String, src: &str)
    ensures
        final(dst)@ == old(dst)@ + src@,
{
    let chars = crate::text::chars_of(src);
    let mut i: usize = 0;
    while i < chars.len()
        invariant
            i <= chars@.len(),
            chars@ == src@,
            dst@ == old(dst)@ + chars@.take(i as int),
        decreases chars@.len() - i,
    {
        crate::text::push_char(dst, chars[i]);
        i += 1;
        proof {
            assert(dst@ =~= old(dst)@ + chars@.take(i as int));
        }
    }
    proof {
        assert(chars@.take(chars@.len() as int) =~= chars@);
    }
}

impl Active {
    /// No formatting.
    pub fn plain() -> (r: Self)
        ensures
            r@ == plain_style(),
    {
        Active { bold: false, italic: false, strike: false, code: false, link: None }
    }

    /// The innermost open style, or plain text.
    pub fn current(stack: &[Active]) -> (r: Self)
        ensures
            r@ == current_style(styles_view(stack@)),
    {
        if stack.len() == 0 {
            Self::plain()
        } else {
            let last = &stack[stack.len() - 1];
            Active {
                bold: last.bold,
                italic: last.italic,
                strike: last.strike,
                code: last.code,
                link: clone_opt(&last.link),
            }
        }
    }
}

/// A text run styled by `active`.
pub fn span(text: String, active: &Active) -> (r: Inline)
    ensures
        r@ == span_view(text@, active@),
{
    Inline::Text(
        Span {
            text,
            bold: active.bold,
            italic: active.italic,
            strike: active.strike,
            code: active.code,
            link: clone_opt(&active.link),
        },
    )
}

fn merge_into(inlines: &mut Vec<Inline>, inline: Inline)
    ensures
        inlines_view(final(inlines)@) == merge_inline(inlines_view(old(inlines)@), inline@),
{
    let n = inlines.len();
    if n > 0 {
        let same = match (&inlines[n - 1], &inline) {
            (Inline::Text(last), Inline::Text(next)) => last.bold == next.bold && last.italic == next.italic
                && last.strike == next.strike && last.code == next.code && opt_str_eq(&last.link, &next.link),
            _ => false,
        };
        if same {
            let popped = inlines.pop();
            match (popped, inline) {
                (Some(Inline::Text(mut last)), Inline::Text(next)) => {
                    let ghost before = last@;
                    append_str(&mut last.text, next.text.as_str());
                    inlines.push(Inline::Text(last));
                    proof {
                        assert(inlines_view(inlines@) =~= inlines_view(old(inlines)@).update(
                            n - 1,
                            InlineView::Text(SpanView { text: before.text + next@.text, ..before }),
                        ));
                    }
                },
                _ => {},
            }
            return;
        }
    }
    inlines.push(inline);
    proof {
        assert(inlines_view(inlines@) =~= inlines_view(old(inlines)@).push(inline@));
    }
}

/// Append an inline run to the open inline container, merging adjacent runs
/// with equal styling. Tight list items collect runs without paragraph tags.
pub fn push_inline(frame: &mut Frame, inline: Inline)
    ensures
        final(frame)@ == push_inline_view(old(frame)@, inline@),
{
    match frame {
        Frame::Inline { inlines, .. } => merge_into(inlines, inline),
        Frame::Cell(inlines) => merge_into(inlines, inline),
        Frame::Item { tight, .. } => merge_into(tight, inline),
        _ => {},
    }
}

/// Move pending tight-list inline runs into a paragraph block.
pub fn flush_tight(tight: &mut Vec<Inline>, blocks: &mut Vec<Block>)
    ensures
        blocks_view(final(blocks)@) == flush_view(inlines_view(old(tight)@), blocks_view(old(blocks)@)),
        final(tight)@ == Seq::<Inline>::empty(),
{
    if tight.len() > 0 {
        let mut taken: Vec<Inline> = Vec::new();
        std::mem::swap(&mut taken, tight);
        proof {
            lemma_blocks_view_push(blocks@, Block::Paragraph { inlines: taken });
        }
        blocks.push(Block::Paragraph { inlines: taken });
    } else {
        proof {
            assert(tight@ =~= Seq::<Inline>::empty());
        }
    }
}

/// The builder state with `stack` and `blocks` and no open style.
pub open spec fn containers(stack: Seq<Frame>, blocks: Seq<Block>) -> BuildView {
    BuildView { stack: frames_view(stack), styles: Seq::empty(), blocks: blocks_view(blocks) }
}

/// Append a block to the innermost block container, else to the document.
pub fn push_block(stack: &mut Vec<Frame>, blocks: &mut Vec<Block>, block: Block)
    ensures
        containers(final(stack)@, final(blocks)@) == push_block_view(containers(old(stack)@, old(blocks)@), block@),
{
    let ghost st = containers(stack@, blocks@);
    let n = stack.len();
    if n == 0 {
        proof {
            lemma_blocks_view_push(blocks@, block);
        }
        blocks.push(block);
        return;
    }
    let top = stack.pop();
    proof {
        assert(frames_view(stack@) =~= st.stack.drop_last());
        assert(st.stack.last() == top->0@);
    }
    match top {
        Some(Frame::Quote(mut children)) => {
            proof {
                lemma_blocks_view_push(children@, block);
            }
            children.push(block);
            stack.push(Frame::Quote(children));
            proof {
                assert(frames_view(stack@) =~= push_block_view(st, block@).stack);
            }
        },
        Some(Frame::Item { checked, mut tight, blocks: mut children }) => {
            flush_tight(&mut tight, &mut children);
            proof {
                lemma_blocks_view_push(children@, block);
            }
            children.push(block);
            stack.push(Frame::Item { checked, tight, blocks: children });
            proof {
                assert(inlines_view(tight@) =~= Seq::<InlineView>::empty());
                assert(frames_view(stack@) =~= push_block_view(st, block@).stack);
            }
        },
        Some(other) => {
            stack.push(other);
            proof {
                assert(frames_view(stack@) =~= st.stack);
                lemma_blocks_view_push(blocks@, block);
            }
            blocks.push(block);
        },
        None => {},
    }
}

/// The block builder: open containers, open styles and finished blocks.
pub struct Builder {
    pub stack: Vec<Frame>,
    pub styles: Vec<Active>,
    pub blocks: Vec<Block>,
}

impl View for Builder {
    type V = BuildView;

    open spec fn view(&self) -> BuildView {
        BuildView {
            stack: frames_view(self.stack@),
            styles: styles_view(self.styles@),
            blocks: blocks_view(self.blocks@),
        }
    }
}

fn clone_tag(t: &MdTag) -> (r: MdTag)
    ensures
        r@ == t@,
{
    match t {
        MdTag::Paragraph => MdTag::Paragraph,
        MdTag::Heading(l) => MdTag::Heading(*l),
        MdTag::BlockQuote => MdTag::BlockQuote,
        MdTag::CodeBlock(info) => MdTag::CodeBlock(clone_opt(info)),
        MdTag::List(start) => MdTag::List(*start),
        MdTag::Item => MdTag::Item,
        MdTag::Table(aligns) => {
            let copy = aligns.clone();
            proof {
                assert(copy@ =~= aligns@);
            }
            MdTag::Table(copy)
        },
        MdTag::TableHead => MdTag::TableHead,
        MdTag::TableRow => MdTag::TableRow,
        MdTag::TableCell => MdTag::TableCell,
        MdTag::Emphasis => MdTag::Emphasis,
        MdTag::Strong => MdTag::Strong,
        MdTag::Strikethrough => MdTag::Strikethrough,
        MdTag::Link(url) => MdTag::Link(url.as_str().to_owned()),
        MdTag::Image(url) => MdTag::Image(url.as_str().to_owned()),
        MdTag::Other => MdTag::Other,
    }
}

/// A copy of an event.
pub fn clone_event(e: &MdEvent) -> (r: MdEvent)
    ensures
        r@ == e@,
{
    match e {
        MdEvent::Start(t) => MdEvent::Start(clone_tag(t)),
        MdEvent::End(end) => MdEvent::End(*end),
        MdEvent::Text(t) => MdEvent::Text(t.as_str().to_owned()),
        MdEvent::Code(t) => MdEvent::Code(t.as_str().to_owned()),
        MdEvent::Html(t) => MdEvent::Html(t.as_str().to_owned()),
        MdEvent::SoftBreak => MdEvent::SoftBreak,
        MdEvent::HardBreak => MdEvent::HardBreak,
        MdEvent::Rule => MdEvent::Rule,
        MdEvent::TaskListMarker(b) => MdEvent::TaskListMarker(*b),
        MdEvent::Other => MdEvent::Other,
    }
}

/// The first word of a fence's info string, when not empty.
fn code_language_of(info: Option<String>) -> (r: Option<String>)
    ensures
        opt_view(r) == code_language(opt_view(info)),
{
    match info {
        None => None,
        Some(s) => {
            let chars = crate::text::chars_of(s.as_str());
            let mut i: usize = 0;
            proof {
                lemma_word_len_start(s@);
            }
            while i < chars.len() && chars[i] != ',' && chars[i] != ' '
                invariant
                    i <= chars@.len(),
                    chars@ == s@,
                    word_len(s@) == i + word_len(s@.skip(i as int)),
                decreases chars@.len() - i,
            {
                proof {
                    assert(s@.skip(i as int).drop_first() =~= s@.skip(i + 1));
                }
                i += 1;
            }
            if i == 0 {
                None
            } else {
                let mut word: Vec<char> = Vec::new();
                let mut j: usize = 0;
                while j < i
                    invariant
                        j <= i <= chars@.len(),
                        word@ == chars@.take(j as int),
                    decreases i - j,
                {
                    word.push(chars[j]);
                    j += 1;
                    proof {
                        assert(word@ =~= chars@.take(j as int));
                    }
                }
                Some(crate::text::string_from_chars(&word))
            }
        },
    }
}

proof fn lemma_word_len_start(s: Seq<char>)
    ensures
        word_len(s) == 0 + word_len(s.skip(0)),
{
    assert(s.skip(0) =~= s);
}

impl Builder {
    pub fn new() -> (r: Self)
        ensures
            r@ == run(Seq::empty()),
    {
        let r = Builder { stack: Vec::new(), styles: Vec::new(), blocks: Vec::new() };
        proof {
            assert(r@.stack =~= Seq::<FrameView>::empty());
            assert(r@.styles =~= Seq::<ActiveView>::empty());
            assert(r@.blocks =~= Seq::<BlockView>::empty());
        }
        r
    }

    fn add_block(&mut self, block: Block)
        ensures
            final(self)@ == push_block_view(old(self)@, block@),
    {
        push_block(&mut self.stack, &mut self.blocks, block);
    }

    fn add_inline(&mut self, inline: Inline)
        ensures
            final(self)@ == apply_inline(old(self)@, inline@),
    {
        let ghost st = self@;
        let top = self.stack.pop();
        match top {
            Some(mut frame) => {
                push_inline(&mut frame, inline);
                self.stack.push(frame);
                proof {
                    assert(self@.stack =~= apply_inline(st, inline@).stack);
                }
            },
            None => {},
        }
    }

    fn add_image(&mut self, image: Inline)
        ensures
            final(self)@ == place_image(old(self)@, image@),
    {
        let n = self.stack.len();
        let joins = n > 0 && match &self.stack[n - 1] {
            Frame::Inline { .. } => true,
            Frame::Cell(_) => true,
            _ => false,
        };
        if joins {
            self.add_inline(image);
        } else {
            let mut inlines: Vec<Inline> = Vec::new();
            inlines.push(image);
            proof {
                assert(inlines_view(inlines@) =~= seq![image@]);
            }
            self.add_block(Block::Paragraph { inlines });
        }
    }

    fn push_frame(&mut self, f: Frame)
        ensures
            final(self)@ == push_frame(old(self)@, f@),
    {
        self.stack.push(f);
        proof {
            assert(self@.stack =~= old(self)@.stack.push(f@));
        }
    }

    fn push_style(&mut self, a: Active)
        ensures
            final(self)@ == push_style(old(self)@, a@),
    {
        self.styles.push(a);
        proof {
            assert(self@.styles =~= old(self)@.styles.push(a@));
        }
    }

    /// An opening tag.
    pub fn start(&mut self, tag: MdTag)
        ensures
            final(self)@ == step_start(old(self)@, tag@),
    {
        let a = Active::current(&self.styles);
        match tag {
            MdTag::Paragraph => self.push_frame(Frame::Inline { heading: None, inlines: Vec::new() }),
            MdTag::Heading(level) => self.push_frame(Frame::Inline { heading: Some(level), inlines: Vec::new() }),
            MdTag::BlockQuote => self.push_frame(Frame::Quote(Vec::new())),
            MdTag::CodeBlock(info) => {
                let language = code_language_of(info);
                self.push_frame(Frame::Code { language, text: String::new() });
            },
            MdTag::List(start) => {
                let ordered = start.is_some();
                let first = match start {
                    Some(n) => n,
                    None => 1,
                };
                self.push_frame(Frame::List { ordered, start: first, items: Vec::new() });
            },
            MdTag::Item => self.push_frame(Frame::Item { checked: None, tight: Vec::new(), blocks: Vec::new() }),
            MdTag::Table(aligns) => self.push_frame(Frame::Table { aligns, head: None, rows: Vec::new() }),
            MdTag::TableHead => self.push_frame(Frame::Row { cells: Vec::new() }),
            MdTag::TableRow => self.push_frame(Frame::Row { cells: Vec::new() }),
            MdTag::TableCell => self.push_frame(Frame::Cell(Vec::new())),
            MdTag::Emphasis => self.push_style(Active { italic: true, ..a }),
            MdTag::Strong => self.push_style(Active { bold: true, ..a }),
            MdTag::Strikethrough => self.push_style(Active { strike: true, ..a }),
            MdTag::Link(url) => self.push_style(Active { link: Some(url), ..a }),
            MdTag::Image(target) => self.push_frame(Frame::Image { target, alt: String::new() }),
            MdTag::Other => {},
        }
        proof {
            assert(inlines_view(Seq::<Inline>::empty()) =~= Seq::<InlineView>::empty());
            assert(blocks_view(Seq::<Block>::empty()) =~= Seq::<BlockView>::empty());
            assert(items_view(Seq::<ListItem>::empty()) =~= Seq::<ItemView>::empty());
            assert(cells_view(Seq::<Vec<Inline>>::empty()) =~= Seq::<Seq<InlineView>>::empty());
            assert(rows_view(Seq::<Vec<Vec<Inline>>>::empty()) =~= Seq::<Seq<Seq<InlineView>>>::empty());
        }
    }

    /// A closing tag.
    pub fn end(&mut self, end: MdEnd)
        ensures
            final(self)@ == step_end(old(self)@, end),
    {
        let ghost st = self@;
        match end {
            MdEnd::Emphasis | MdEnd::Strong | MdEnd::Strikethrough | MdEnd::Link => {
                let _ = self.styles.pop();
                proof {
                    if st.styles.len() > 0 {
                        assert(self@.styles =~= st.styles.drop_last());
                    } else {
                        assert(self@.styles =~= st.styles);
                    }
                }
                return;
            },
            MdEnd::Other => {
                return;
            },
            _ => {},
        }
        let top = self.stack.pop();
        proof {
            if st.stack.len() > 0 {
                assert(self@.stack =~= st.stack.drop_last());
                assert(top->0@ == st.stack.last());
            }
            assert(self@ == popped(st));
        }
        match end {
            MdEnd::Paragraph | MdEnd::Heading => {
                if let Some(Frame::Inline { heading, inlines }) = top {
                    if inlines.len() > 0 {
                        let block = match heading {
                            Some(level) => Block::Heading { level, inlines },
                            None => Block::Paragraph { inlines },
                        };
                        self.add_block(block);
                    }
                }
                assert(self@ == step_end(st, end));
            },
            MdEnd::BlockQuote => {
                if let Some(Frame::Quote(children)) = top {
                    self.add_block(Block::Quote { blocks: children });
                }
                assert(self@ == step_end(st, end));
            },
            MdEnd::CodeBlock => {
                if let Some(Frame::Code { language, text }) = top {
                    self.add_block(Block::Code { text, language });
                }
                assert(self@ == step_end(st, end));
            },
            MdEnd::List => {
                if let Some(Frame::List { ordered, start, items }) = top {
                    if items.len() > 0 {
                        self.add_block(Block::List { ordered, start, items });
                    }
                }
                assert(self@ == step_end(st, end));
            },
            MdEnd::Item => {
                if let Some(Frame::Item { checked, mut tight, blocks }) = top {
                    let mut item_blocks = blocks;
                    flush_tight(&mut tight, &mut item_blocks);
                    let ghost rest = self@;
                    let under = self.stack.pop();
                    match under {
                        Some(Frame::List { ordered, start, mut items }) => {
                            let item = ListItem { checked, blocks: item_blocks };
                            proof {
                                lemma_items_view_push(items@, item);
                            }
                            items.push(item);
                            self.stack.push(Frame::List { ordered, start, items });
                            proof {
                                assert(self@.stack =~= rest.stack.update(rest.stack.len() - 1, self@.stack.last()));
                            }
                        },
                        Some(other) => {
                            self.stack.push(other);
                            proof {
                                assert(self@.stack =~= rest.stack);
                            }
                        },
                        None => {},
                    }
                }
                assert(self@ == step_end(st, end));
            },
            MdEnd::Table => {
                if let Some(Frame::Table { aligns, head, rows }) = top {
                    let head = match head {
                        Some(h) => h,
                        None => Vec::new(),
                    };
                    proof {
                        assert(cells_view(Seq::<Vec<Inline>>::empty()) =~= Seq::<Seq<InlineView>>::empty());
                    }
                    self.add_block(Block::Table { aligns, head, rows });
                }
                assert(self@ == step_end(st, end));
            },
            MdEnd::TableHead => {
                if let Some(Frame::Row { cells }) = top {
                    let ghost rest = self@;
                    let under = self.stack.pop();
                    match under {
                        Some(Frame::Table { aligns, head: _, rows }) => {
                            self.stack.push(Frame::Table { aligns, head: Some(cells), rows });
                            proof {
                                assert(self@.stack =~= rest.stack.update(rest.stack.len() - 1, self@.stack.last()));
                            }
                        },
                        Some(other) => {
                            self.stack.push(other);
                            proof {
                                assert(self@.stack =~= rest.stack);
                            }
                        },
                        None => {},
                    }
                }
                assert(self@ == step_end(st, end));
            },
            MdEnd::TableRow => {
                if let Some(Frame::Row { cells }) = top {
                    let ghost rest = self@;
                    let under = self.stack.pop();
                    match under {
                        Some(Frame::Table { aligns, head, mut rows }) => {
                            let ghost before = rows@;
                            let ghost added = cells_view(cells@);
                            rows.push(cells);
                            proof {
                                assert(rows_view(rows@) =~= rows_view(before).push(added));
                            }
                            self.stack.push(Frame::Table { aligns, head, rows });
                            proof {
                                assert(self@.stack =~= rest.stack.update(rest.stack.len() - 1, self@.stack.last()));
                            }
                        },
                        Some(other) => {
                            self.stack.push(other);
                            proof {
                                assert(self@.stack =~= rest.stack);
                            }
                        },
                        None => {},
                    }
                }
                assert(self@ == step_end(st, end));
            },
            MdEnd::TableCell => {
                if let Some(Frame::Cell(inlines)) = top {
                    let ghost rest = self@;
                    let under = self.stack.pop();
                    match under {
                        Some(Frame::Row { mut cells }) => {
                            let ghost before = cells@;
                            let ghost added = inlines_view(inlines@);
                            cells.push(inlines);
                            proof {
                                assert(cells_view(cells@) =~= cells_view(before).push(added));
                            }
                            self.stack.push(Frame::Row { cells });
                            proof {
                                assert(self@.stack =~= rest.stack.update(rest.stack.len() - 1, self@.stack.last()));
                            }
                        },
                        Some(other) => {
                            self.stack.push(other);
                            proof {
                                assert(self@.stack =~= rest.stack);
                            }
                        },
                        None => {},
                    }
                }
                assert(self@ == step_end(st, end));
            },
            MdEnd::Image => {
                if let Some(Frame::Image { target, alt }) = top {
                    self.add_image(Inline::Image { target, alt });
                }
                assert(self@ == step_end(st, end));
            },
            _ => {},
        }
    }

    /// One event of the stream.
    pub fn event(&mut self, e: MdEvent)
        ensures
            final(self)@ == step(old(self)@, e@),
    {
        let ghost st = self@;
        match e {
            MdEvent::Start(t) => self.start(t),
            MdEvent::End(x) => self.end(x),
            MdEvent::Text(t) => {
                let a = Active::current(&self.styles);
                let top = self.stack.pop();
                proof {
                    if st.stack.len() > 0 {
                        assert(self@.stack =~= st.stack.drop_last());
                        assert(top->0@ == st.stack.last());
                    }
                }
                match top {
                    Some(Frame::Code { language, mut text }) => {
                        append_str(&mut text, t.as_str());
                        self.stack.push(Frame::Code { language, text });
                        proof {
                            assert(self@.stack =~= st.stack.update(st.stack.len() - 1, self@.stack.last()));
                        }
                    },
                    Some(Frame::Image { target, mut alt }) => {
                        append_str(&mut alt, t.as_str());
                        self.stack.push(Frame::Image { target, alt });
                        proof {
                            assert(self@.stack =~= st.stack.update(st.stack.len() - 1, self@.stack.last()));
                        }
                    },
                    Some(mut other) => {
                        push_inline(&mut other, span(t, &a));
                        self.stack.push(other);
                        proof {
                            assert(self@.stack =~= st.stack.update(st.stack.len() - 1, self@.stack.last()));
                        }
                    },
                    None => {},
                }
            },
            MdEvent::Code(t) => {
                let a = Active::current(&self.styles);
                let styled = Active { code: true, ..a };
                self.add_inline(span(t, &styled));
            },
            MdEvent::SoftBreak | MdEvent::HardBreak => {
                let a = Active::current(&self.styles);
                self.add_inline(span(single_space(), &a));
            },
            MdEvent::Rule => self.add_block(Block::Rule),
            MdEvent::TaskListMarker(checked) => {
                let top = self.stack.pop();
                proof {
                    if st.stack.len() > 0 {
                        assert(self@.stack =~= st.stack.drop_last());
                        assert(top->0@ == st.stack.last());
                    }
                }
                match top {
                    Some(Frame::Item { checked: _, tight, blocks }) => {
                        self.stack.push(Frame::Item { checked: Some(checked), tight, blocks });
                        proof {
                            assert(self@.stack =~= st.stack.update(st.stack.len() - 1, self@.stack.last()));
                        }
                    },
                    Some(other) => {
                        self.stack.push(other);
                        proof {
                            assert(self@.stack =~= st.stack);
                        }
                    },
                    None => {},
                }
            },
            MdEvent::Html(html) => {
                let chars = crate::text::chars_of(html.as_str());
                let br: Vec<char> = vec!['<', 'b', 'r'];
                proof {
                    assert(br@ =~= break_tag());
                }
                if crate::document::find_chars(&chars, &br, 0).is_some() {
                    let a = Active::current(&self.styles);
                    self.add_inline(span(single_space(), &a));
                }
                let images = crate::document::html_images(html.as_str());
                let ghost spaced = self@;
                let mut i: usize = 0;
                proof {
                    assert(crate::document::pairs_view(images@).take(0) =~= Seq::<(Seq<char>, Seq<char>)>::empty());
                }
                while i < images.len()
                    invariant
                        i <= images@.len(),
                        self@ == place_images(spaced, crate::document::pairs_view(images@).take(i as int)),
                    decreases images@.len() - i,
                {
                    let target = images[i].0.as_str().to_owned();
                    let alt = images[i].1.as_str().to_owned();
                    proof {
                        let ps = crate::document::pairs_view(images@);
                        assert(ps.take(i + 1).drop_last() =~= ps.take(i as int));
                        assert(ps.take(i + 1).last() == (target@, alt@));
                    }
                    self.add_image(Inline::Image { target, alt });
                    i += 1;
                }
                proof {
                    assert(crate::document::pairs_view(images@).take(images@.len() as int) =~= crate::document::pairs_view(
                        images@,
                    ));
                }
            },
            MdEvent::Other => {},
        }
    }
}

/// A string holding one space.
fn single_space() -> (r: String)
    ensures
        r@ == seq![' '],
{
    let mut s = String::new();
    crate::text::push_char(&mut s, ' ');
    proof {
        assert(s@ =~= seq![' ']);
    }
    s
}

/// The top-level blocks of an event stream, at most `MAX_BLOCKS` of them,
/// and whether any were dropped.
pub fn blocks_from_events(events: &Vec<MdEvent>) -> (r: (Vec<Block>, bool))
    ensures
        blocks_view(r.0@) == bounded_blocks(event_blocks(events_view(events@))),
        r.1 == (event_blocks(events_view(events@)).len() > crate::document::MAX_BLOCKS),
{
    let mut b = Builder::new();
    let mut i: usize = 0;
    while i < events.len()
        invariant
            i <= events@.len(),
            b@ == run(events_view(events@.take(i as int))),
        decreases events@.len() - i,
    {
        let e = clone_event(&events[i]);
        proof {
            assert(events_view(events@.take(i + 1)).drop_last() =~= events_view(events@.take(i as int)));
            assert(events_view(events@.take(i + 1)).last() == e@);
        }
        b.event(e);
        i += 1;
    }
    proof {
        assert(events@.take(events@.len() as int) =~= events@);
    }
    let mut blocks = b.blocks;
    let cut = blocks.len() > crate::document::MAX_BLOCKS;
    proof {
        crate::document::lemma_blocks_view(blocks@);
    }
    if cut {
        let ghost before = blocks@;
        blocks.truncate(crate::document::MAX_BLOCKS);
        proof {
            crate::document::lemma_blocks_view(blocks@);
            assert(blocks_view(blocks@) =~= blocks_view(before).take(crate::document::MAX_BLOCKS as int));
        }
    }
    (blocks, cut)
}

#[verifier::external_type_specification]
#[verifier::external_body]
pub struct ExEvent<'a>(Event<'a>);

#[verifier::external_type_specification]
#[verifier::external_body]
pub struct ExTag<'a>(Tag<'a>);

#[verifier::external_type_specification]
#[verifier::external_body]
pub struct ExTagEnd(TagEnd);

#[verifier::external_type_specification]
#[verifier::external_body]
pub struct ExAlignment(Alignment);

/// The events that pulldown-cmark's parser yields for `text` with tables,
/// task lists and strikethrough enabled, in plain values.
pub uninterp spec fn markdown_events(text: Seq<char>) -> Seq<EventView>;

/// Runs `pulldown_cmark::Parser::new_ext` over `text` with tables, task
/// lists and strikethrough enabled and converts each event to plain values.
/// The parser is a function of the text and the options alone; what it
/// yields is named, not stated.
#[verifier::external_body]
fn parse_markdown(text: &str) -> (r: Vec<MdEvent>)
    ensures
        events_view(r@) == markdown_events(text@),
{
    let options = Options::ENABLE_TABLES | Options::ENABLE_TASKLISTS | Options::ENABLE_STRIKETHROUGH;
    let mut out = Vec::new();
    for event in Parser::new_ext(text, options) {
        out.push(event_of(event));
    }
    out
}

/// Converts one `pulldown_cmark::Event`, variant by variant; raw HTML
/// blocks and inline HTML both become `MdEvent::Html`, math and footnote
/// references `MdEvent::Other`.
#[verifier::external_body]
fn event_of(e: Event<'_>) -> MdEvent {
    match e {
        Event::Start(t) => MdEvent::Start(tag_of(t)),
        Event::End(t) => MdEvent::End(tag_end_of(t)),
        Event::Text(s) => MdEvent::Text(s.to_string()),
        Event::Code(s) => MdEvent::Code(s.to_string()),
        Event::Html(s) => MdEvent::Html(s.to_string()),
        Event::InlineHtml(s) => MdEvent::Html(s.to_string()),
        Event::SoftBreak => MdEvent::SoftBreak,
        Event::HardBreak => MdEvent::HardBreak,
        Event::Rule => MdEvent::Rule,
        Event::TaskListMarker(b) => MdEvent::TaskListMarker(b),
        _ => MdEvent::Other,
    }
}

/// Converts a block-level `pulldown_cmark::Tag`, passing span-level tags on.
#[verifier::external_body]
fn tag_of(t: Tag<'_>) -> MdTag {
    match t {
        Tag::Paragraph => MdTag::Paragraph,
        Tag::Heading { level, .. } => MdTag::Heading(level as u8),
        Tag::BlockQuote(_) => MdTag::BlockQuote,
        Tag::CodeBlock(CodeBlockKind::Fenced(info)) => MdTag::CodeBlock(Some(info.to_string())),
        Tag::CodeBlock(CodeBlockKind::Indented) => MdTag::CodeBlock(None),
        Tag::List(start) => MdTag::List(start),
        Tag::Item => MdTag::Item,
        Tag::Table(aligns) => MdTag::Table(aligns_of(aligns)),
        Tag::TableHead => MdTag::TableHead,
        Tag::TableRow => MdTag::TableRow,
        Tag::TableCell => MdTag::TableCell,
        other => span_tag_of(other),
    }
}

/// Converts a span-level `pulldown_cmark::Tag`; others become `Other`.
#[verifier::external_body]
fn span_tag_of(t: Tag<'_>) -> MdTag {
    match t {
        Tag::Emphasis => MdTag::Emphasis,
        Tag::Strong => MdTag::Strong,
        Tag::Strikethrough => MdTag::Strikethrough,
        Tag::Link { dest_url, .. } => MdTag::Link(dest_url.to_string()),
        Tag::Image { dest_url, .. } => MdTag::Image(dest_url.to_string()),
        _ => MdTag::Other,
    }
}

/// Converts a block-level `pulldown_cmark::TagEnd`, passing span-level ends on.
#[verifier::external_body]
fn tag_end_of(t: TagEnd) -> MdEnd {
    match t {
        TagEnd::Paragraph => MdEnd::Paragraph,
        TagEnd::Heading(_) => MdEnd::Heading,
        TagEnd::BlockQuote(_) => MdEnd::BlockQuote,
        TagEnd::CodeBlock => MdEnd::CodeBlock,
        TagEnd::List(_) => MdEnd::List,
        TagEnd::Item => MdEnd::Item,
        TagEnd::Table => MdEnd::Table,
        TagEnd::TableHead => MdEnd::TableHead,
        TagEnd::TableRow => MdEnd::TableRow,
        TagEnd::TableCell => MdEnd::TableCell,
        other => span_end_of(other),
    }
}

/// Converts a span-level `pulldown_cmark::TagEnd`; others become `Other`.
#[verifier::external_body]
fn span_end_of(t: TagEnd) -> MdEnd {
    match t {
        TagEnd::Image => MdEnd::Image,
        TagEnd::Emphasis => MdEnd::Emphasis,
        TagEnd::Strong => MdEnd::Strong,
        TagEnd::Strikethrough => MdEnd::Strikethrough,
        TagEnd::Link => MdEnd::Link,
        _ => MdEnd::Other,
    }
}

/// Converts table column alignments one for one.
#[verifier::external_body]
fn aligns_of(aligns: Vec<Alignment>) -> Vec<CellAlign> {
    let mut out = Vec::new();
    for a in aligns {
        out.push(match a {
            Alignment::None => CellAlign::Default,
            Alignment::Left => CellAlign::Left,
            Alignment::Center => CellAlign::Center,
            Alignment::Right => CellAlign::Right,
        });
    }
    out
}

/// `doc` is the display data of `text`: its bounded lines, and, for
/// markdown, its bounded blocks; `shortened` tells that either was cut.
pub open spec fn is_prepared(text: Seq<char>, markdown: bool, doc: crate::document::Document) -> bool {
    let body = crate::document::without_bom(text);
    &&& crate::document::strings_view(doc.lines@) == crate::document::shown_lines(body)
    &&& blocks_view(doc.blocks@) == (if markdown {
        bounded_blocks(event_blocks(markdown_events(body)))
    } else {
        Seq::empty()
    })
    &&& doc.shortened == (crate::document::lines_cut(body) || (markdown && event_blocks(
        markdown_events(body),
    ).len() > crate::document::MAX_BLOCKS))
}

/// Prepare bounded display data. The markdown IR is parsed only when
/// `markdown` is true; plain text previews rely on `lines` alone.
pub fn prepare(text: &str, markdown: bool) -> (doc: crate::document::Document)
    ensures
        is_prepared(text@, markdown, doc),
{
    let body = crate::document::strip_bom(&crate::text::chars_of(text));
    let (lines, cut) = crate::document::bounded_lines(&body);
    if !markdown {
        let blocks: Vec<Block> = Vec::new();
        proof {
            assert(blocks_view(blocks@) =~= Seq::<BlockView>::empty());
        }
        return crate::document::Document { lines, blocks, shortened: cut };
    }
    let source = crate::text::string_from_chars(&body);
    let events = parse_markdown(source.as_str());
    let (blocks, dropped) = blocks_from_events(&events);
    crate::document::Document { lines, blocks, shortened: cut || dropped }
}

} // verus!
