//! Markdown read into blocks (headings, paragraphs, code, quotes, lists,
//! rules) from the event stream of the `pulldown-cmark` parser.

use vstd::prelude::*;
use pulldown_cmark::{Event, Options, Parser, Tag, TagEnd};
use crate::text::{chars_of, string_of};

verus! {

#[verifier::external_type_specification]
#[verifier::external_body]
pub struct ExEvent<'a>(Event<'a>);

#[verifier::external_type_specification]
#[verifier::external_body]
pub struct ExTag<'a>(Tag<'a>);

#[verifier::external_type_specification]
#[verifier::external_body]
pub struct ExTagEnd(TagEnd);

/// The parser events the block reader tells apart; every other event is
/// `Other`.
pub enum MdEvent {
    StartHeading(u8),
    EndHeading,
    StartParagraph,
    EndParagraph,
    StartCodeBlock(Option<String>),
    EndCodeBlock,
    StartQuote,
    EndQuote,
    StartList(Option<u64>),
    EndList,
    StartItem,
    EndItem,
    Text(String),
    Code(String),
    SoftBreak,
    HardBreak,
    Rule,
    Other,
}

/// An event with its texts as characters.
pub enum MdEventView {
    StartHeading(u8),
    EndHeading,
    StartParagraph,
    EndParagraph,
    StartCodeBlock(Option<Seq<char>>),
    EndCodeBlock,
    StartQuote,
    EndQuote,
    StartList(Option<u64>),
    EndList,
    StartItem,
    EndItem,
    Text(Seq<char>),
    Code(Seq<char>),
    SoftBreak,
    HardBreak,
    Rule,
    Other,
}

impl View for MdEvent {
    type V = MdEventView;

    open spec fn view(&self) -> MdEventView {
        match self {
            MdEvent::StartHeading(l) => MdEventView::StartHeading(*l),
            MdEvent::EndHeading => MdEventView::EndHeading,
            MdEvent::StartParagraph => MdEventView::StartParagraph,
            MdEvent::EndParagraph => MdEventView::EndParagraph,
            MdEvent::StartCodeBlock(k) => MdEventView::StartCodeBlock(
                match k {
                    Some(s) => Some(s@),
                    None => None,
                },
            ),
            MdEvent::EndCodeBlock => MdEventView::EndCodeBlock,
            MdEvent::StartQuote => MdEventView::StartQuote,
            MdEvent::EndQuote => MdEventView::EndQuote,
            MdEvent::StartList(f) => MdEventView::StartList(*f),
            MdEvent::EndList => MdEventView::EndList,
            MdEvent::StartItem => MdEventView::StartItem,
            MdEvent::EndItem => MdEventView::EndItem,
            MdEvent::Text(s) => MdEventView::Text(s@),
            MdEvent::Code(s) => MdEventView::Code(s@),
            MdEvent::SoftBreak => MdEventView::SoftBreak,
            MdEvent::HardBreak => MdEventView::HardBreak,
            MdEvent::Rule => MdEventView::Rule,
            MdEvent::Other => MdEventView::Other,
        }
    }
}

/// The views of a sequence of events.
pub open spec fn event_views(v: Seq<MdEvent>) -> Seq<MdEventView> {
    v.map_values(|e: MdEvent| e@)
}

/// The events `pulldown-cmark` produces for a text, with strike-through,
/// tables and task lists switched on as the three flags say.
pub uninterp spec fn markdown_events_of(
    content: Seq<char>,
    strikethrough: bool,
    tables: bool,
    tasklists: bool,
) -> Seq<MdEventView>;

/// One parser event as an `MdEvent`: the start of a heading with its
/// level's number, of a code block with its language (fenced) or none
/// (indented), of a list with its first number; the text of text and code
/// events; everything not listed as `Other`.
#[verifier::external_body]
fn event_of(e: Event) -> MdEvent {
    match e {
        Event::Start(t) => start_of(t),
        Event::End(t) => end_of(t),
        Event::Text(s) => MdEvent::Text(s.to_string()),
        Event::Code(s) => MdEvent::Code(s.to_string()),
        Event::SoftBreak => MdEvent::SoftBreak,
        Event::HardBreak => MdEvent::HardBreak,
        Event::Rule => MdEvent::Rule,
        _ => MdEvent::Other,
    }
}

/// The start of a parser element as an `MdEvent`.
#[verifier::external_body]
fn start_of(t: Tag) -> MdEvent {
    match t {
        Tag::Heading { level, .. } => MdEvent::StartHeading(level as u8),
        Tag::Paragraph => MdEvent::StartParagraph,
        Tag::CodeBlock(pulldown_cmark::CodeBlockKind::Fenced(l)) => MdEvent::StartCodeBlock(Some(l.to_string())),
        Tag::CodeBlock(pulldown_cmark::CodeBlockKind::Indented) => MdEvent::StartCodeBlock(None),
        Tag::BlockQuote(_) => MdEvent::StartQuote,
        Tag::List(first) => MdEvent::StartList(first),
        Tag::Item => MdEvent::StartItem,
        _ => MdEvent::Other,
    }
}

/// The end of a parser element as an `MdEvent`.
#[verifier::external_body]
fn end_of(t: TagEnd) -> MdEvent {
    match t {
        TagEnd::Heading(_) => MdEvent::EndHeading,
        TagEnd::Paragraph => MdEvent::EndParagraph,
        TagEnd::CodeBlock => MdEvent::EndCodeBlock,
        TagEnd::BlockQuote(_) => MdEvent::EndQuote,
        TagEnd::List(_) => MdEvent::EndList,
        TagEnd::Item => MdEvent::EndItem,
        _ => MdEvent::Other,
    }
}

/// `pulldown_cmark::Parser::new_ext` with the given extensions switched on,
/// its events taken in order, each through `event_of`. What is claimed:
/// the events are a function of the text and the three flags, named
/// `markdown_events_of`; which events the parser produces is not stated.
#[verifier::external_body]
fn markdown_events(content: &str, strikethrough: bool, tables: bool, tasklists: bool) -> (r: Vec<
    MdEvent,
>)
    ensures
        event_views(r@) == markdown_events_of(content@, strikethrough, tables, tasklists),
{
    let mut opts = Options::empty();
    opts.set(Options::ENABLE_STRIKETHROUGH, strikethrough);
    opts.set(Options::ENABLE_TABLES, tables);
    opts.set(Options::ENABLE_TASKLISTS, tasklists);
    Parser::new_ext(content, opts).map(event_of).collect()
}

/// A block of a Markdown document.
pub enum Block {
    Heading { level: u8, text: String },
    Paragraph { text: String },
    CodeBlock { lang: String, code: String },
    Quote { text: String },
    List { ordered: bool, items: Vec<String> },
    Rule,
}

/// A block with its texts as characters.
pub enum BlockView {
    Heading { level: u8, text: Seq<char> },
    Paragraph { text: Seq<char> },
    CodeBlock { lang: Seq<char>, code: Seq<char> },
    Quote { text: Seq<char> },
    List { ordered: bool, items: Seq<Seq<char>> },
    Rule,
}

impl View for Block {
    type V = BlockView;

    open spec fn view(&self) -> BlockView {
        match self {
            Block::Heading { level, text } => BlockView::Heading { level: *level, text: text@ },
            Block::Paragraph { text } => BlockView::Paragraph { text: text@ },
            Block::CodeBlock { lang, code } => BlockView::CodeBlock { lang: lang@, code: code@ },
            Block::Quote { text } => BlockView::Quote { text: text@ },
            Block::List { ordered, items } => BlockView::List {
                ordered: *ordered,
                items: items@.map_values(|s: String| s@),
            },
            Block::Rule => BlockView::Rule,
        }
    }
}

/// The views of a sequence of blocks.
pub open spec fn block_list_views(v: Seq<Block>) -> Seq<BlockView> {
    v.map_values(|b: Block| b@)
}

/// What the block reader holds between events.
pub struct FoldState {
    pub blocks: Seq<BlockView>,
    pub text: Seq<char>,
    pub heading: Option<u8>,
    pub in_code: bool,
    pub lang: Seq<char>,
    pub code: Seq<char>,
    pub in_quote: bool,
    pub quote: Seq<char>,
    pub ordered: bool,
    pub items: Seq<Seq<char>>,
    pub item: Seq<char>,
    pub in_item: bool,
}

/// The state before any event.
pub open spec fn initial_state() -> FoldState {
    FoldState {
        blocks: seq![],
        text: seq![],
        heading: None,
        in_code: false,
        lang: seq![],
        code: seq![],
        in_quote: false,
        quote: seq![],
        ordered: false,
        items: seq![],
        item: seq![],
        in_item: false,
    }
}

/// The state after one more event. A heading, paragraph, code block,
/// quote or list is emitted at its end; text goes to the open code block,
/// else the open list item, else the open quote, else the current text; a
/// paragraph inside a quote or a list item adds its text to it.
pub open spec fn step(st: FoldState, e: MdEventView) -> FoldState {
    match e {
        MdEventView::StartHeading(l) => FoldState { heading: Some(l), text: seq![], ..st },
        MdEventView::EndHeading => match st.heading {
            Some(l) => FoldState {
                blocks: st.blocks.push(BlockView::Heading { level: l, text: st.text }),
                heading: None,
                ..st
            },
            None => st,
        },
        MdEventView::StartParagraph => if !st.in_quote && !st.in_item {
            FoldState { text: seq![], ..st }
        } else {
            st
        },
        MdEventView::EndParagraph => if st.in_quote {
            FoldState { quote: st.quote + st.text, text: seq![], ..st }
        } else if st.in_item {
            FoldState { item: st.item + st.text, text: seq![], ..st }
        } else {
            FoldState { blocks: st.blocks.push(BlockView::Paragraph { text: st.text }), ..st }
        },
        MdEventView::StartCodeBlock(k) => FoldState {
            in_code: true,
            lang: match k {
                Some(l) => l,
                None => seq![],
            },
            code: seq![],
            ..st
        },
        MdEventView::EndCodeBlock => FoldState {
            in_code: false,
            blocks: st.blocks.push(BlockView::CodeBlock { lang: st.lang, code: st.code }),
            ..st
        },
        MdEventView::StartQuote => FoldState { in_quote: true, quote: seq![], ..st },
        MdEventView::EndQuote => FoldState {
            in_quote: false,
            blocks: st.blocks.push(BlockView::Quote { text: st.quote }),
            ..st
        },
        MdEventView::StartList(first) => FoldState { ordered: first is Some, items: seq![], ..st },
        MdEventView::EndList => FoldState {
            blocks: st.blocks.push(BlockView::List { ordered: st.ordered, items: st.items }),
            ..st
        },
        MdEventView::StartItem => FoldState { in_item: true, item: seq![], ..st },
        MdEventView::EndItem => FoldState { in_item: false, items: st.items.push(st.item), ..st },
        MdEventView::Text(t) => if st.in_code {
            FoldState { code: st.code + t, ..st }
        } else if st.in_item {
            FoldState { item: st.item + t, ..st }
        } else if st.in_quote {
            FoldState { quote: st.quote + t, ..st }
        } else {
            FoldState { text: st.text + t, ..st }
        },
        MdEventView::Code(c) => FoldState { text: st.text + seq!['`'] + c + seq!['`'], ..st },
        MdEventView::SoftBreak => FoldState { text: st.text.push('\n'), ..st },
        MdEventView::HardBreak => FoldState { text: st.text.push('\n'), ..st },
        MdEventView::Rule => FoldState { blocks: st.blocks.push(BlockView::Rule), ..st },
        MdEventView::Other => st,
    }
}

/// The state after the first `n` events.
pub open spec fn fold_events(es: Seq<MdEventView>, n: int) -> FoldState
    decreases n,
{
    if n <= 0 {
        initial_state()
    } else {
        step(fold_events(es, n - 1), es[n - 1])
    }
}

/// The blocks read from a whole event stream.
pub open spec fn blocks_of_events(es: Seq<MdEventView>) -> Seq<BlockView> {
    fold_events(es, es.len() as int).blocks
}

/// Appends the characters of `s`.
fn append_str(dst: &mut Vec<char>, s: &str)
    ensures
        final(dst)@ == old(dst)@ + s@,
{
    let cs = chars_of(s);
    let mut k: usize = 0;
    while k < cs.len()
        invariant
            k <= cs@.len(),
            cs@ == s@,
            dst@ == old(dst)@ + cs@.take(k as int),
        decreases cs@.len() - k,
    {
        dst.push(cs[k]);
        k += 1;
        assert(dst@ =~= old(dst)@ + cs@.take(k as int));
    }
    assert(cs@.take(cs@.len() as int) =~= cs@);
}

/// Appends the characters of `s`.
fn append_chars(dst: &mut Vec<char>, s: &Vec<char>)
    ensures
        final(dst)@ == old(dst)@ + s@,
{
    let mut k: usize = 0;
    while k < s.len()
        invariant
            k <= s@.len(),
            dst@ == old(dst)@ + s@.take(k as int),
        decreases s@.len() - k,
    {
        dst.push(s[k]);
        k += 1;
        assert(dst@ =~= old(dst)@ + s@.take(k as int));
    }
    assert(s@.take(s@.len() as int) =~= s@);
}

/// Reads blocks from a stream of parser events: a heading, paragraph,
/// code block, quote or list is emitted when it ends, a rule at once.
pub fn blocks_from_events(events: &Vec<MdEvent>) -> (r: Vec<Block>)
    ensures
        block_list_views(r@) == blocks_of_events(event_views(events@)),
{
    let ghost es = event_views(events@);
    let mut blocks: Vec<Block> = Vec::new();
    let mut text: Vec<char> = Vec::new();
    let mut heading: Option<u8> = None;
    let mut in_code = false;
    let mut lang: Vec<char> = Vec::new();
    let mut code: Vec<char> = Vec::new();
    let mut in_quote = false;
    let mut quote: Vec<char> = Vec::new();
    let mut ordered = false;
    let mut items: Vec<String> = Vec::new();
    let mut item: Vec<char> = Vec::new();
    let mut in_item = false;
    let mut i: usize = 0;
    assert(block_list_views(blocks@) =~= Seq::<BlockView>::empty());
    assert(items@.map_values(|s: String| s@) =~= Seq::<Seq<char>>::empty());
    while i < events.len()
        invariant
            i <= events@.len(),
            es == event_views(events@),
            fold_events(es, i as int) == (FoldState {
                blocks: block_list_views(blocks@),
                text: text@,
                heading: heading,
                in_code: in_code,
                lang: lang@,
                code: code@,
                in_quote: in_quote,
                quote: quote@,
                ordered: ordered,
                items: items@.map_values(|s: String| s@),
                item: item@,
                in_item: in_item,
            }),
        decreases events@.len() - i,
    {
        let ghost bv = block_list_views(blocks@);
        let ghost iv = items@.map_values(|s: String| s@);
        assert(es[i as int] == events@[i as int]@);
        match &events[i] {
            MdEvent::StartHeading(l) => {
                heading = Some(*l);
                text = Vec::new();
            },
            MdEvent::EndHeading => {
                if let Some(l) = heading {
                    blocks.push(Block::Heading { level: l, text: string_of(text.as_slice()) });
                    assert(block_list_views(blocks@) =~= bv.push(BlockView::Heading { level: l, text: text@ }));
                }
                heading = None;
            },
            MdEvent::StartParagraph => {
                if !in_quote && !in_item {
                    text = Vec::new();
                }
            },
            MdEvent::EndParagraph => {
                if in_quote {
                    append_chars(&mut quote, &text);
                    text = Vec::new();
                } else if in_item {
                    append_chars(&mut item, &text);
                    text = Vec::new();
                } else {
                    blocks.push(Block::Paragraph { text: string_of(text.as_slice()) });
                    assert(block_list_views(blocks@) =~= bv.push(BlockView::Paragraph { text: text@ }));
                }
            },
            MdEvent::StartCodeBlock(k) => {
                in_code = true;
                lang = match k {
                    Some(l) => chars_of(l.as_str()),
                    None => Vec::new(),
                };
                code = Vec::new();
            },
            MdEvent::EndCodeBlock => {
                in_code = false;
                blocks.push(Block::CodeBlock { lang: string_of(lang.as_slice()), code: string_of(code.as_slice()) });
                assert(block_list_views(blocks@) =~= bv.push(BlockView::CodeBlock { lang: lang@, code: code@ }));
            },
            MdEvent::StartQuote => {
                in_quote = true;
                quote = Vec::new();
            },
            MdEvent::EndQuote => {
                in_quote = false;
                blocks.push(Block::Quote { text: string_of(quote.as_slice()) });
                assert(block_list_views(blocks@) =~= bv.push(BlockView::Quote { text: quote@ }));
            },
            MdEvent::StartList(first) => {
                ordered = first.is_some();
                items = Vec::new();
                assert(items@.map_values(|s: String| s@) =~= Seq::<Seq<char>>::empty());
            },
            MdEvent::EndList => {
                let mut copy: Vec<String> = Vec::new();
                let mut k: usize = 0;
                while k < items.len()
                    invariant
                        k <= items@.len(),
                        copy@ == items@.take(k as int),
                    decreases items@.len() - k,
                {
                    let c = items[k].clone();
                    copy.push(c);
                    assert(copy@ =~= items@.take(k + 1));
                    k += 1;
                }
                assert(copy@ =~= items@);
                blocks.push(Block::List { ordered, items: copy });
                assert(block_list_views(blocks@) =~= bv.push(BlockView::List { ordered: ordered, items: iv }));
            },
            MdEvent::StartItem => {
                in_item = true;
                item = Vec::new();
            },
            MdEvent::EndItem => {
                in_item = false;
                items.push(string_of(item.as_slice()));
                assert(items@.map_values(|s: String| s@) =~= iv.push(item@));
            },
            MdEvent::Text(t) => {
                if in_code {
                    append_str(&mut code, t.as_str());
                } else if in_item {
                    append_str(&mut item, t.as_str());
                } else if in_quote {
                    append_str(&mut quote, t.as_str());
                } else {
                    append_str(&mut text, t.as_str());
                }
            },
            MdEvent::Code(c) => {
                text.push('`');
                append_str(&mut text, c.as_str());
                text.push('`');
            },
            MdEvent::SoftBreak => {
                text.push('\n');
            },
            MdEvent::HardBreak => {
                text.push('\n');
            },
            MdEvent::Rule => {
                blocks.push(Block::Rule);
                assert(block_list_views(blocks@) =~= bv.push(BlockView::Rule));
            },
            MdEvent::Other => {},
        }
        i += 1;
        proof {
            assert(text@ == fold_events(es, i as int).text);
        }
    }
    blocks
}

/// Reads a Markdown text into blocks, by the parser's events with
/// strike-through, tables and task lists switched on.
pub fn parse_blocks(content: &str) -> (r: Vec<Block>)
    ensures
        block_list_views(r@) == blocks_of_events(markdown_events_of(content@, true, true, true)),
{
    let events = markdown_events(content, true, true, true);
    blocks_from_events(&events)
}


/// The number of quote blocks among blocks.
pub open spec fn quote_blocks(bs: Seq<BlockView>) -> nat
    decreases bs.len(),
{
    if bs.len() == 0 {
        0
    } else {
        quote_blocks(bs.drop_last()) + if bs.last() is Quote {
            1nat
        } else {
            0nat
        }
    }
}

/// The number of quote ends among events.
pub open spec fn quote_ends(es: Seq<MdEventView>) -> nat
    decreases es.len(),
{
    if es.len() == 0 {
        0
    } else {
        quote_ends(es.drop_last()) + if es.last() is EndQuote {
            1nat
        } else {
            0nat
        }
    }
}

proof fn lemma_quote_blocks_push(bs: Seq<BlockView>, b: BlockView)
    ensures
        quote_blocks(bs.push(b)) == quote_blocks(bs) + if b is Quote {
            1nat
        } else {
            0nat
        },
{
    assert(bs.push(b).drop_last() =~= bs);
}

proof fn lemma_step_quotes(st: FoldState, e: MdEventView)
    ensures
        quote_blocks(step(st, e).blocks) == quote_blocks(st.blocks) + if e is EndQuote {
            1nat
        } else {
            0nat
        },
{
    match e {
        MdEventView::EndHeading => {
            if let Some(l) = st.heading {
                lemma_quote_blocks_push(st.blocks, BlockView::Heading { level: l, text: st.text });
            }
        },
        MdEventView::EndParagraph => {
            lemma_quote_blocks_push(st.blocks, BlockView::Paragraph { text: st.text });
        },
        MdEventView::EndCodeBlock => {
            lemma_quote_blocks_push(st.blocks, BlockView::CodeBlock { lang: st.lang, code: st.code });
        },
        MdEventView::EndQuote => {
            lemma_quote_blocks_push(st.blocks, BlockView::Quote { text: st.quote });
        },
        MdEventView::EndList => {
            lemma_quote_blocks_push(st.blocks, BlockView::List { ordered: st.ordered, items: st.items });
        },
        MdEventView::Rule => {
            lemma_quote_blocks_push(st.blocks, BlockView::Rule);
        },
        _ => {},
    }
}

proof fn lemma_fold_quotes(es: Seq<MdEventView>, n: int)
    requires
        0 <= n <= es.len(),
    ensures
        quote_blocks(fold_events(es, n).blocks) == quote_ends(es.take(n)),
    decreases n,
{
    if n == 0 {
        assert(es.take(0) =~= Seq::<MdEventView>::empty());
    } else {
        lemma_fold_quotes(es, n - 1);
        lemma_step_quotes(fold_events(es, n - 1), es[n - 1]);
        assert(es.take(n).drop_last() =~= es.take(n - 1));
        assert(es.take(n).last() == es[n - 1]);
    }
}

/// Every quote of the event stream becomes one quote block: the blocks
/// hold as many quotes as the stream has quote ends.
pub proof fn lemma_quote_count(es: Seq<MdEventView>)
    ensures
        quote_blocks(blocks_of_events(es)) == quote_ends(es),
{
    lemma_fold_quotes(es, es.len() as int);
    assert(es.take(es.len() as int) =~= es);
}

/// The state after a stream depends only on its events, not on what
/// follows.
proof fn lemma_fold_prefix(es: Seq<MdEventView>, tail: Seq<MdEventView>, n: int)
    requires
        0 <= n <= es.len(),
    ensures
        fold_events(es + tail, n) == fold_events(es, n),
    decreases n,
{
    if n > 0 {
        lemma_fold_prefix(es, tail, n - 1);
        assert((es + tail)[n - 1] == es[n - 1]);
    }
}

/// A quote holding one text, read after any events that leave no code
/// block or list item open, adds one quote block with that text after the
/// blocks read before.
pub proof fn lemma_quote_of_text(es: Seq<MdEventView>, t: Seq<char>)
    requires
        !fold_events(es, es.len() as int).in_code,
        !fold_events(es, es.len() as int).in_item,
    ensures
        blocks_of_events(es + seq![MdEventView::StartQuote, MdEventView::Text(t), MdEventView::EndQuote])
            == blocks_of_events(es).push(BlockView::Quote { text: t }),
{
    let tail = seq![MdEventView::StartQuote, MdEventView::Text(t), MdEventView::EndQuote];
    let all = es + tail;
    let n = es.len() as int;
    lemma_fold_prefix(es, tail, n);
    assert(all[n] == MdEventView::StartQuote);
    assert(all[n + 1] == MdEventView::Text(t));
    assert(all[n + 2] == MdEventView::EndQuote);
    assert(fold_events(all, n + 1).quote == Seq::<char>::empty());
    assert(fold_events(all, n + 2).quote =~= t);
}

/// A quote holding one paragraph of text `t`, read after any events that
/// leave no code block or list item open, adds one quote block: its text
/// is `t` followed by the text left from before the quote (none at the
/// start of a document or after a paragraph).
pub proof fn lemma_quote_of_paragraph(es: Seq<MdEventView>, t: Seq<char>)
    requires
        !fold_events(es, es.len() as int).in_code,
        !fold_events(es, es.len() as int).in_item,
    ensures
        blocks_of_events(
            es + seq![
                MdEventView::StartQuote,
                MdEventView::StartParagraph,
                MdEventView::Text(t),
                MdEventView::EndParagraph,
                MdEventView::EndQuote,
            ],
        ) == blocks_of_events(es).push(
            BlockView::Quote { text: t + fold_events(es, es.len() as int).text },
        ),
{
    let tail = seq![
        MdEventView::StartQuote,
        MdEventView::StartParagraph,
        MdEventView::Text(t),
        MdEventView::EndParagraph,
        MdEventView::EndQuote,
    ];
    let all = es + tail;
    let n = es.len() as int;
    lemma_fold_prefix(es, tail, n);
    assert(all[n] == MdEventView::StartQuote);
    assert(all[n + 1] == MdEventView::StartParagraph);
    assert(all[n + 2] == MdEventView::Text(t));
    assert(all[n + 3] == MdEventView::EndParagraph);
    assert(all[n + 4] == MdEventView::EndQuote);
    let s0 = fold_events(all, n);
    let s1 = fold_events(all, n + 1);
    let s2 = fold_events(all, n + 2);
    let s3 = fold_events(all, n + 3);
    let s4 = fold_events(all, n + 4);
    assert(s1 == step(s0, MdEventView::StartQuote));
    assert(s1.in_quote && !s1.in_code && !s1.in_item && s1.quote == Seq::<char>::empty());
    assert(s2 == step(s1, MdEventView::StartParagraph));
    assert(s2 == s1);
    assert(s3 == step(s2, MdEventView::Text(t)));
    assert(s3.quote =~= t);
    assert(s3.text == s0.text && s3.in_quote);
    assert(s4 == step(s3, MdEventView::EndParagraph));
    assert(s4.quote =~= t + s0.text);
    assert(s4.blocks == s0.blocks && s4.in_quote);
    assert(fold_events(all, n + 5) == step(s4, MdEventView::EndQuote));
    assert(all.len() == n + 5);
}


/// A number for each kind of block: heading 0, paragraph 1, code block 2,
/// quote 3, list 4, rule 5.
pub open spec fn block_tag(b: BlockView) -> int {
    match b {
        BlockView::Heading { .. } => 0,
        BlockView::Paragraph { .. } => 1,
        BlockView::CodeBlock { .. } => 2,
        BlockView::Quote { .. } => 3,
        BlockView::List { .. } => 4,
        BlockView::Rule => 5,
    }
}

/// The number of the block kind an event always ends: code block 2, quote
/// 3, list 4, rule 5; -1 for the others.
pub open spec fn end_tag(e: MdEventView) -> int {
    match e {
        MdEventView::EndCodeBlock => 2,
        MdEventView::EndQuote => 3,
        MdEventView::EndList => 4,
        MdEventView::Rule => 5,
        _ => -1,
    }
}

/// The number of blocks of kind `tag`.
pub open spec fn tag_blocks(bs: Seq<BlockView>, tag: int) -> nat
    decreases bs.len(),
{
    if bs.len() == 0 {
        0
    } else {
        tag_blocks(bs.drop_last(), tag) + if block_tag(bs.last()) == tag {
            1nat
        } else {
            0nat
        }
    }
}

/// The number of events that end a block of kind `tag`.
pub open spec fn tag_ends(es: Seq<MdEventView>, tag: int) -> nat
    decreases es.len(),
{
    if es.len() == 0 {
        0
    } else {
        tag_ends(es.drop_last(), tag) + if end_tag(es.last()) == tag {
            1nat
        } else {
            0nat
        }
    }
}

proof fn lemma_tag_blocks_push(bs: Seq<BlockView>, b: BlockView, tag: int)
    ensures
        tag_blocks(bs.push(b), tag) == tag_blocks(bs, tag) + if block_tag(b) == tag {
            1nat
        } else {
            0nat
        },
{
    assert(bs.push(b).drop_last() =~= bs);
}

proof fn lemma_step_tags(st: FoldState, e: MdEventView, tag: int)
    requires
        2 <= tag <= 5,
    ensures
        tag_blocks(step(st, e).blocks, tag) == tag_blocks(st.blocks, tag) + if end_tag(e) == tag {
            1nat
        } else {
            0nat
        },
{
    match e {
        MdEventView::EndHeading => {
            if let Some(l) = st.heading {
                lemma_tag_blocks_push(st.blocks, BlockView::Heading { level: l, text: st.text }, tag);
            }
        },
        MdEventView::EndParagraph => {
            lemma_tag_blocks_push(st.blocks, BlockView::Paragraph { text: st.text }, tag);
        },
        MdEventView::EndCodeBlock => {
            lemma_tag_blocks_push(st.blocks, BlockView::CodeBlock { lang: st.lang, code: st.code }, tag);
        },
        MdEventView::EndQuote => {
            lemma_tag_blocks_push(st.blocks, BlockView::Quote { text: st.quote }, tag);
        },
        MdEventView::EndList => {
            lemma_tag_blocks_push(st.blocks, BlockView::List { ordered: st.ordered, items: st.items }, tag);
        },
        MdEventView::Rule => {
            lemma_tag_blocks_push(st.blocks, BlockView::Rule, tag);
        },
        _ => {},
    }
}

proof fn lemma_fold_tags(es: Seq<MdEventView>, n: int, tag: int)
    requires
        0 <= n <= es.len(),
        2 <= tag <= 5,
    ensures
        tag_blocks(fold_events(es, n).blocks, tag) == tag_ends(es.take(n), tag),
    decreases n,
{
    if n == 0 {
        assert(es.take(0) =~= Seq::<MdEventView>::empty());
    } else {
        lemma_fold_tags(es, n - 1, tag);
        lemma_step_tags(fold_events(es, n - 1), es[n - 1], tag);
        assert(es.take(n).drop_last() =~= es.take(n - 1));
        assert(es.take(n).last() == es[n - 1]);
    }
}

/// Every code block, quote, list and rule of the event stream becomes
/// exactly one block of its kind: for each of these kinds the blocks hold
/// as many as the stream has ends of it (rules for rules).
pub proof fn lemma_block_counts(es: Seq<MdEventView>, tag: int)
    requires
        2 <= tag <= 5,
    ensures
        tag_blocks(blocks_of_events(es), tag) == tag_ends(es, tag),
{
    lemma_fold_tags(es, es.len() as int, tag);
    assert(es.take(es.len() as int) =~= es);
}

} // verus!
