//! From Notion blocks and rich text to Pandoc blocks and inlines.

use crate::glue::{join, joined, uuid_text, uuid_to_string};
use crate::notion;
use crate::notion::{any_contains_toc, forest, Annotations, Mention, Page, RichText, Var};
use crate::pandoc;
use crate::pandoc::{
    block_lists, blocks, inlines, lemma_blocks_add, lemma_blocks_push, lemma_inlines_add,
    lemma_inlines_push, rows, text_pairs, texts, Alignment, Attr, AttrView, BlockView, CellView,
    ColSpec, ColWidth, InlineView, ListAttributes, ListNumberDelim, ListNumberStyle, MathType,
    MetaValue, MetaValueView, Pandoc, PandocView, RowView, TableBodyView, TableView, Target,
    TargetView, PANDOC_API_VERSION,
};
use vstd::prelude::*;

verus! {

// ---------------------------------------------------------------------------
// Rich text

/// `base` inside the wrappers that the style flags call for: strong
/// innermost, then emphasis (for italic or underline), then strikeout.
pub open spec fn annotated(base: InlineView, a: Annotations) -> InlineView {
    let strong = if a.bold {
        InlineView::Strong(seq![base])
    } else {
        base
    };
    let emph = if a.italic || a.underline {
        InlineView::Emph(seq![strong])
    } else {
        strong
    };
    if a.strikethrough {
        InlineView::Strikeout(seq![emph])
    } else {
        emph
    }
}

/// `base` inside a span of class `code` where the code flag is set.
pub open spec fn code_wrapped(base: InlineView, a: Annotations) -> InlineView {
    if a.code {
        InlineView::Span(AttrView::classes(seq!["code"@]), seq![base])
    } else {
        base
    }
}

/// The marker that stands for a mention of the page `id`.
pub open spec fn page_marker(id: u128) -> InlineView {
    InlineView::Span(
        AttrView { id: seq![], classes: seq!["link_to_page"@], pairs: seq![("id"@, uuid_text(id))] },
        seq![],
    )
}

/// What a text span with the given content and flags becomes, its link left aside.
pub open spec fn text_inline(content: Seq<char>, a: Annotations) -> InlineView {
    annotated(
        if a.code {
            InlineView::Code(AttrView::empty(), content)
        } else {
            InlineView::Str(content)
        },
        a,
    )
}

/// The inline that one rich-text span becomes.
///
/// A text span gives a string, or inline code where the code flag is set,
/// inside its style wrappers; a link goes around all of that. A mention of a
/// page gives a marker with the page's id, any other mention its plain text;
/// an equation gives inline math. For mentions and equations the code flag
/// adds a wrapper of its own, outermost.
pub open spec fn span_inline(r: RichText) -> InlineView {
    match r {
        RichText::Text { annotations, text } => match text.link {
            Some(link) => InlineView::Link(
                AttrView::empty(),
                seq![text_inline(text.content@, annotations)],
                TargetView { url: link.url@, title: seq![] },
            ),
            None => text_inline(text.content@, annotations),
        },
        RichText::Mention { plain_text, annotations, mention } => code_wrapped(
            annotated(
                match mention {
                    Mention::Page { page } => page_marker(page.id),
                    _ => InlineView::Str(plain_text@),
                },
                annotations,
            ),
            annotations,
        ),
        RichText::Equation { annotations, equation } => code_wrapped(
            annotated(InlineView::Math(MathType::InlineMath, equation.expression@), annotations),
            annotations,
        ),
    }
}

/// Each span's inline, one for one.
pub open spec fn span_inlines(s: Seq<RichText>) -> Seq<InlineView> {
    Seq::new(s.len(), |i: int| span_inline(s[i]))
}

/// Whether `x` is a link with the same attributes and target as the link `last`.
pub open spec fn continues_link(last: InlineView, x: InlineView) -> bool {
    last is Link && x is Link && x->Link_0 == last->Link_0 && x->Link_2 == last->Link_2
}

/// One step of assembling an inline run. A link that follows a link with
/// the same attributes and target is merged into it: its content is added
/// to the earlier link's. Any other inline is appended, so that no span is
/// lost.
pub open spec fn take_inline(acc: Seq<InlineView>, x: InlineView) -> Seq<InlineView> {
    if acc.len() > 0 && continues_link(acc.last(), x) {
        acc.drop_last().push(
            InlineView::Link(acc.last()->Link_0, acc.last()->Link_1 + x->Link_1, acc.last()->Link_2),
        )
    } else {
        acc.push(x)
    }
}

/// The inline run of a block's text: the spans' inlines, assembled from left to right.
pub open spec fn inline_run(s: Seq<RichText>) -> Seq<InlineView>
    decreases s.len(),
{
    if s.len() == 0 {
        seq![]
    } else {
        take_inline(inline_run(s.drop_last()), span_inline(s.last()))
    }
}

/// Where no span continues the link of the span before it, the inline run
/// holds each span's inline, one for one: nothing is merged and nothing is
/// lost.
pub proof fn lemma_run_without_merging(s: Seq<RichText>)
    requires
        forall|i: int| 0 < i < s.len() ==> !continues_link(span_inline(s[i - 1]), #[trigger] span_inline(s[i])),
    ensures
        inline_run(s) == span_inlines(s),
    decreases s.len(),
{
    if s.len() == 0 {
        assert(inline_run(s) =~= span_inlines(s));
    } else {
        let front = s.drop_last();
        assert forall|i: int| 0 < i < front.len() implies !continues_link(
            span_inline(front[i - 1]),
            #[trigger] span_inline(front[i]),
        ) by {
            assert(front[i] == s[i]);
            assert(front[i - 1] == s[i - 1]);
        }
        lemma_run_without_merging(front);
        if front.len() > 0 {
            let i = s.len() - 1;
            assert(span_inlines(front).last() == span_inline(s[i - 1]));
            assert(!continues_link(span_inline(s[i - 1]), span_inline(s[i])));
        }
        assert(span_inlines(front).push(span_inline(s.last())) =~= span_inlines(s));
    }
}

/// The inline run holds at least one inline for any text with a span, and
/// never more inlines than spans.
pub proof fn lemma_run_length(s: Seq<RichText>)
    ensures
        inline_run(s).len() <= s.len(),
        s.len() > 0 ==> inline_run(s).len() > 0,
    decreases s.len(),
{
    if s.len() > 0 {
        lemma_run_length(s.drop_last());
    }
}

fn one(inline: pandoc::Inline) -> (v: Vec<pandoc::Inline>)
    ensures
        inlines(v@) == seq![inline@],
{
    let mut v: Vec<pandoc::Inline> = Vec::new();
    v.push(inline);
    assert(inlines(v@) =~= seq![inline@]);
    v
}

fn class(name: &str) -> (v: Vec<String>)
    ensures
        texts(v@) == seq![name@],
{
    let mut v: Vec<String> = Vec::new();
    v.push(name.to_owned());
    assert(texts(v@) =~= seq![name@]);
    v
}

impl RichText {
    /// Wraps `inline` as the style flags call for.
    pub fn annotate(inline: pandoc::Inline, annotations: &Annotations) -> (r: pandoc::Inline)
        ensures
            r@ == annotated(inline@, *annotations),
    {
        let mut result = inline;
        if annotations.bold {
            result = pandoc::Inline::Strong(one(result));
        }
        if annotations.italic || annotations.underline {
            result = pandoc::Inline::Emph(one(result));
        }
        if annotations.strikethrough {
            result = pandoc::Inline::Strikeout(one(result));
        }
        result
    }

    /// Wraps `inline` in a span of class `code` where the code flag is set.
    pub fn wrap_code(inline: pandoc::Inline, annotations: &Annotations) -> (r: pandoc::Inline)
        ensures
            r@ == code_wrapped(inline@, *annotations),
    {
        if annotations.code {
            pandoc::Inline::Span(Attr::with_classes(class("code")), one(inline))
        } else {
            inline
        }
    }

    /// Converts the span.
    pub fn to_pandoc(self) -> (r: pandoc::Inline)
        ensures
            r@ == span_inline(self),
    {
        match self {
            RichText::Text { annotations, text } => {
                let notion::Text { content, link } = text;
                let base = if annotations.code {
                    pandoc::Inline::Code(Attr::default(), content)
                } else {
                    pandoc::Inline::Str(content)
                };
                let inner = Self::annotate(base, &annotations);
                match link {
                    Some(link) => inner.to_link(link.url),
                    None => inner,
                }
            },
            RichText::Mention { plain_text, annotations, mention } => {
                let base = match mention {
                    Mention::Page { page } => {
                        let mut pairs: Vec<(String, String)> = Vec::new();
                        pairs.push(("id".to_owned(), uuid_to_string(page.id)));
                        let attr = Attr(String::new(), class("link_to_page"), pairs);
                        assert(attr@.pairs =~= seq![("id"@, uuid_text(page.id))]);
                        let empty: Vec<pandoc::Inline> = Vec::new();
                        assert(inlines(empty@) =~= seq![]);
                        pandoc::Inline::Span(attr, empty)
                    },
                    _ => pandoc::Inline::Str(plain_text),
                };
                Self::wrap_code(Self::annotate(base, &annotations), &annotations)
            },
            RichText::Equation { annotations, equation } => {
                let base = pandoc::Inline::Math(MathType::InlineMath, equation.expression);
                Self::wrap_code(Self::annotate(base, &annotations), &annotations)
            },
        }
    }
}

/// Converts each span, one for one.
pub fn convert_rich_texts(spans: Vec<RichText>) -> (r: Vec<pandoc::Inline>)
    ensures
        inlines(r@) == span_inlines(spans@),
{
    let mut r: Vec<pandoc::Inline> = Vec::new();
    for span in it: spans
        invariant
            it.seq() == spans@,
            inlines(r@) == span_inlines(spans@.take(it.index() as int)),
    {
        let ghost k = it.index() as int;
        let ghost done = r@;
        let inline = span.to_pandoc();
        r.push(inline);
        assert(inlines(r@) =~= inlines(done).push(inline@));
        assert(span_inlines(spans@.take(k + 1)) =~= span_inlines(spans@.take(k)).push(span_inline(span)));
    }
    assert(spans@.take(spans@.len() as int) =~= spans@);
    r
}

impl notion::Inline {
    /// Converts the text of a block to its inline run: every span gives its
    /// inline, and neighbouring links to one target become one link. No
    /// spans give no inlines.
    pub fn to_pandoc(self) -> (r: Vec<pandoc::Inline>)
        ensures
            inlines(r@) == inline_run(self.rich_text@),
            self.rich_text@.len() == 0 ==> r@.len() == 0,
    {
        let mut result: Vec<pandoc::Inline> = Vec::new();
        let ghost spans = self.rich_text@;
        for span in it: self.rich_text
            invariant
                it.seq() == spans,
                inlines(result@) == inline_run(spans.take(it.index() as int)),
                spans.len() == 0 ==> result@.len() == 0,
        {
            let ghost k = it.index() as int;
            let ghost done = result@;
            proof {
                assert(spans.take(k + 1).drop_last() =~= spans.take(k));
                assert(spans.take(k + 1).last() == span);
            }
            let inline = span.to_pandoc();
            let n = result.len();
            proof {
                if n > 0 {
                    assert(inlines(done).last() == done[n - 1]@);
                }
            }
            if n > 0 && result[n - 1].is_link() {
                match inline {
                    pandoc::Inline::Link(attr, mut content, target) => {
                        let last = result.pop().unwrap();
                        let ghost rest = result@;
                        proof {
                            assert(done =~= rest.push(last));
                            lemma_inlines_push(rest, last);
                            assert(inlines(rest) =~= inlines(done).drop_last());
                        }
                        match last {
                            pandoc::Inline::Link(last_attr, mut last_content, last_target) => {
                                if last_attr.same(&attr) && last_target.same(&target) {
                                    proof {
                                        lemma_inlines_add(last_content@, content@);
                                    }
                                    last_content.append(&mut content);
                                    let merged = pandoc::Inline::Link(last_attr, last_content, last_target);
                                    proof {
                                        lemma_inlines_push(rest, merged);
                                    }
                                    result.push(merged);
                                } else {
                                    let earlier = pandoc::Inline::Link(last_attr, last_content, last_target);
                                    let next = pandoc::Inline::Link(attr, content, target);
                                    result.push(earlier);
                                    assert(result@ =~= done);
                                    proof {
                                        lemma_inlines_push(done, next);
                                    }
                                    result.push(next);
                                }
                            },
                            other => {
                                let next = pandoc::Inline::Link(attr, content, target);
                                result.push(other);
                                assert(result@ =~= done);
                                proof {
                                    lemma_inlines_push(done, next);
                                }
                                result.push(next);
                            },
                        }
                    },
                    other => {
                        proof {
                            lemma_inlines_push(done, other);
                        }
                        result.push(other);
                    },
                }
            } else {
                proof {
                    lemma_inlines_push(done, inline);
                }
                result.push(inline);
            }
            assert(inlines(result@) == take_inline(inlines(done), span_inline(span)));
        }
        assert(spans.take(spans.len() as int) =~= spans);
        result
    }
}

// ---------------------------------------------------------------------------
// Blocks: what they become

/// Resolved embeds: pairs of a URL and the markup that stands for it.
pub type Embeds = Vec<(String, String)>;

/// The markup of the first pair for `url`, if there is one.
pub open spec fn markup_for(embeds: Seq<(Seq<char>, Seq<char>)>, url: Seq<char>) -> Option<Seq<char>>
    decreases embeds.len(),
{
    if embeds.len() == 0 {
        None
    } else if embeds[0].0 == url {
        Some(embeds[0].1)
    } else {
        markup_for(embeds.drop_first(), url)
    }
}

/// Caption, URL and location class of a file.
pub open spec fn file_parts(f: notion::File) -> (Seq<RichText>, Seq<char>, Seq<char>) {
    match f {
        notion::File::File { caption, file } => (caption@, file.url@, "internal"@),
        notion::File::External { caption, external } => (caption@, external.url@, "external"@),
    }
}

/// A paragraph that holds one link to `url`. The caption is the link's text;
/// where there is none, the URL itself is.
pub open spec fn link_block(url: Seq<char>, caption: Seq<RichText>, classes: Seq<Seq<char>>) -> BlockView {
    BlockView::Para(
        seq![
            InlineView::Link(
                AttrView::classes(classes),
                if caption.len() == 0 {
                    seq![InlineView::Str(url)]
                } else {
                    span_inlines(caption)
                },
                TargetView { url, title: seq![] },
            ),
        ],
    )
}

/// The contents of the text spans among `s`; other spans count as empty.
pub open spec fn contents(s: Seq<RichText>) -> Seq<Seq<char>> {
    Seq::new(
        s.len(),
        |i: int|
            match s[i] {
                RichText::Text { annotations, text } => text.content@,
                _ => seq![],
            },
    )
}

/// Whether every span is a text span.
pub open spec fn all_text(s: Seq<RichText>) -> bool {
    forall|i: int| 0 <= i < s.len() ==> #[trigger] s[i] is Text
}

/// One table cell: default attributes, spanning one row and one column, with the spans as plain text.
pub open spec fn cell_view(cell: Seq<RichText>) -> CellView {
    CellView {
        attr: AttrView::empty(),
        align: Alignment::AlignDefault,
        row_span: 1,
        col_span: 1,
        content: seq![BlockView::Plain(span_inlines(cell))],
    }
}

/// One table row: a cell for each entry, in order.
pub open spec fn row_view(row: Seq<Vec<RichText>>) -> RowView {
    RowView { attr: AttrView::empty(), cells: Seq::new(row.len(), |i: int| cell_view(row[i]@)) }
}

/// The cells that a block holds as a table row; none for any other block.
pub open spec fn row_cells(b: notion::BlockView) -> Seq<Vec<RichText>> {
    match b.var {
        Var::TableRow { table_row } => table_row.cells@,
        _ => seq![],
    }
}

/// The rows of a table's children, in order.
pub open spec fn table_rows(s: Seq<notion::BlockView>) -> Seq<RowView> {
    Seq::new(s.len(), |i: int| row_view(row_cells(s[i])))
}

/// How many of a table's rows form its head: the first one where the table has a column header.
pub open spec fn head_rows(table: notion::Table) -> int {
    if table.has_column_header {
        1
    } else {
        0
    }
}

/// The table made of the rows `c`: as many default columns as the table
/// declares, the head rows, one body with the remaining rows, and neither
/// caption nor foot.
pub open spec fn table_view(table: notion::Table, c: Seq<notion::BlockView>) -> TableView {
    TableView {
        attr: AttrView::empty(),
        short_caption: None,
        caption: seq![],
        col_specs: Seq::new(
            table.table_width as nat,
            |i: int| ColSpec(Alignment::AlignDefault, ColWidth::ColWidthDefault),
        ),
        head_attr: AttrView::empty(),
        head: table_rows(c.take(head_rows(table))),
        bodies: seq![
            TableBodyView {
                attr: AttrView::empty(),
                row_head_columns: 0,
                head: seq![],
                body: table_rows(c.skip(head_rows(table))),
            },
        ],
        foot_attr: AttrView::empty(),
        foot: seq![],
    }
}

/// The attribute of a reference to the page `id`.
pub open spec fn page_attr(id: u128) -> AttrView {
    AttrView { id: seq![], classes: seq!["link_to_page"@], pairs: seq![("id"@, uuid_text(id))] }
}

/// What an embed or a bookmark becomes: the resolved markup as raw HTML, or
/// else a link of class `embed`.
pub open spec fn embed_block(embed: notion::Embed, e: Seq<(Seq<char>, Seq<char>)>) -> BlockView {
    match markup_for(e, embed.url@) {
        Some(markup) => BlockView::RawBlock("html"@, markup),
        None => link_block(embed.url@, embed.caption@, seq!["embed"@]),
    }
}

/// The glyph in front of a to-do item: a crossed box when checked, an empty one when not.
pub open spec fn check_mark(checked: bool) -> Seq<char> {
    if checked {
        "\u{2612}"@
    } else {
        "\u{2610}"@
    }
}

/// The block that `b` becomes, or `None` where it gives no output.
pub open spec fn convert_block(b: notion::BlockView, e: Seq<(Seq<char>, Seq<char>)>) -> Option<BlockView>
    decreases b, 2nat,
{
    match b.var {
        Var::Paragraph { inline } => Some(BlockView::Para(inline_run(inline.rich_text@))),
        Var::Heading1 { inline } => Some(
            BlockView::Header(2, AttrView::empty(), inline_run(inline.rich_text@)),
        ),
        Var::Heading2 { inline } => Some(
            BlockView::Header(3, AttrView::empty(), inline_run(inline.rich_text@)),
        ),
        Var::Heading3 { inline } => Some(
            BlockView::Header(4, AttrView::empty(), inline_run(inline.rich_text@)),
        ),
        Var::Quote { inline } => Some(
            BlockView::BlockQuote(with_children(inline.rich_text@, b.children, e)),
        ),
        Var::Callout { callout } => Some(
            BlockView::Div(
                AttrView::classes(seq!["callout"@]),
                seq![BlockView::Plain(span_inlines(callout.rich_text@))],
            ),
        ),
        Var::Code { code } => Some(
            BlockView::CodeBlock(
                AttrView::classes(seq![code.language@]),
                joined(contents(code.rich_text@), seq![]),
            ),
        ),
        Var::Equation { equation } => Some(
            BlockView::Para(seq![InlineView::Math(MathType::DisplayMath, equation.expression@)]),
        ),
        Var::Image { file } => Some(
            BlockView::Para(
                seq![
                    InlineView::Image(
                        AttrView::classes(seq![file_parts(file).2]),
                        span_inlines(file_parts(file).0),
                        TargetView { url: file_parts(file).1, title: seq![] },
                    ),
                ],
            ),
        ),
        Var::Video { file } => Some(
            link_block(file_parts(file).1, file_parts(file).0, seq!["video"@, file_parts(file).2]),
        ),
        Var::File { file } => Some(
            link_block(file_parts(file).1, file_parts(file).0, seq!["file"@, file_parts(file).2]),
        ),
        Var::PDF { file } => Some(
            link_block(file_parts(file).1, file_parts(file).0, seq!["pdf"@, file_parts(file).2]),
        ),
        Var::Embed { embed } => Some(embed_block(embed, e)),
        Var::Bookmark { embed } => Some(embed_block(embed, e)),
        Var::LinkPreview { link_preview } => Some(
            BlockView::Para(
                seq![
                    InlineView::Link(
                        AttrView::empty(),
                        seq![InlineView::Str(link_preview.url@)],
                        TargetView { url: link_preview.url@, title: seq![] },
                    ),
                ],
            ),
        ),
        Var::LinkToPage { link_to_page } => match link_to_page {
            notion::LinkToPage::PageId { page_id } => Some(BlockView::Div(page_attr(page_id), seq![])),
            notion::LinkToPage::DatabaseId { database_id } => None,
        },
        Var::Table { table } => match b.children {
            Some(c) => Some(BlockView::Table(table_view(table, c))),
            None => None,
        },
        Var::Divider => Some(BlockView::HorizontalRule),
        Var::BulletedList => Some(BlockView::BulletList(convert_items(b.children, e))),
        Var::NumberedList => Some(
            BlockView::OrderedList(
                ListAttributes(1, ListNumberStyle::Decimal, ListNumberDelim::Period),
                convert_items(b.children, e),
            ),
        ),
        _ => None,
    }
}

/// The blocks that a sequence of trees becomes: each tree's block, in order,
/// without those that give none.
pub open spec fn convert_forest(s: Seq<notion::BlockView>, e: Seq<(Seq<char>, Seq<char>)>) -> Seq<BlockView>
    decreases s, 0nat,
{
    if s.len() == 0 {
        seq![]
    } else {
        convert_forest(s.drop_last(), e) + match convert_block(s.last(), e) {
            Some(x) => seq![x],
            None => seq![],
        }
    }
}

/// The block's text as plain content, followed by what its children become.
pub open spec fn with_children(
    text: Seq<RichText>,
    children: Option<Seq<notion::BlockView>>,
    e: Seq<(Seq<char>, Seq<char>)>,
) -> Seq<BlockView>
    decreases children, 1nat,
{
    seq![BlockView::Plain(inline_run(text))] + below(children, e)
}

/// What a block's children become; nothing where it has none.
pub open spec fn below(children: Option<Seq<notion::BlockView>>, e: Seq<(Seq<char>, Seq<char>)>) -> Seq<BlockView>
    decreases children, 0nat,
{
    match children {
        Some(c) => convert_forest(c, e),
        None => seq![],
    }
}

/// The blocks of one list entry. A to-do item starts with its check mark and a space.
pub open spec fn convert_list_item(x: notion::BlockView, e: Seq<(Seq<char>, Seq<char>)>) -> Seq<BlockView>
    decreases x, 2nat,
{
    match x.var {
        Var::BulletedListItem { inline } => with_children(inline.rich_text@, x.children, e),
        Var::NumberedListItem { inline } => with_children(inline.rich_text@, x.children, e),
        Var::ToggleListItem { inline } => with_children(inline.rich_text@, x.children, e),
        Var::ToDoListItem { to_do } => seq![
            BlockView::Plain(
                seq![InlineView::Str(check_mark(to_do.checked)), InlineView::Space] + span_inlines(
                    to_do.rich_text@,
                ),
            ),
        ] + below(x.children, e),
        _ => seq![],
    }
}

/// The entries of a list: one for each child of the container, in order.
pub open spec fn convert_items(children: Option<Seq<notion::BlockView>>, e: Seq<(Seq<char>, Seq<char>)>) -> Seq<Seq<BlockView>>
    decreases children, 0nat,
{
    match children {
        Some(c) => Seq::new(
            c.len(),
            |i: int|
                if 0 <= i < c.len() {
                    convert_list_item(c[i], e)
                } else {
                    arbitrary()
                },
        ),
        None => seq![],
    }
}

// ---------------------------------------------------------------------------
// Blocks: which can be converted

/// Whether `b` can stand where a block is converted.
///
/// List items stand only inside a list container and table rows only inside
/// a table. A code block holds at most one span, a text span. A list
/// container has children, all of them valid entries. The children of a
/// table are rows, at least one where the table has a column header. The
/// children of a quote can be converted themselves.
pub open spec fn convertible(b: notion::BlockView) -> bool
    decreases b, 2nat,
{
    match b.var {
        Var::BulletedListItem { .. } | Var::NumberedListItem { .. } | Var::ToDoListItem { .. }
        | Var::ToggleListItem { .. } | Var::TableRow { .. } => false,
        Var::Code { code } => code.rich_text@.len() <= 1 && all_text(code.rich_text@),
        Var::BulletedList | Var::NumberedList => b.children is Some && items_convertible(b.children->0),
        Var::Table { table } => b.children is Some ==> all_rows(b.children->0) && head_rows(table)
            <= b.children->0.len(),
        Var::Quote { .. } => children_convertible(b.children),
        _ => true,
    }
}

/// Whether every tree can be converted.
pub open spec fn forest_convertible(s: Seq<notion::BlockView>) -> bool
    decreases s, 0nat,
{
    forall|i: int| 0 <= i < s.len() ==> convertible(#[trigger] s[i])
}

/// Whether the children, where there are any, can be converted.
pub open spec fn children_convertible(children: Option<Seq<notion::BlockView>>) -> bool
    decreases children, 1nat,
{
    match children {
        Some(c) => forest_convertible(c),
        None => true,
    }
}

/// Whether `x` can stand as an entry of a list: it is a list item, and its children can be converted.
pub open spec fn item_convertible(x: notion::BlockView) -> bool
    decreases x, 2nat,
{
    x.var.list_item() && children_convertible(x.children)
}

/// Whether every tree can stand as an entry of a list.
pub open spec fn items_convertible(s: Seq<notion::BlockView>) -> bool
    decreases s, 0nat,
{
    forall|i: int| 0 <= i < s.len() ==> item_convertible(#[trigger] s[i])
}

/// Whether every tree is a table row.
pub open spec fn all_rows(s: Seq<notion::BlockView>) -> bool {
    forall|i: int| 0 <= i < s.len() ==> (#[trigger] s[i]).var is TableRow
}

// ---------------------------------------------------------------------------
// Blocks: converting them

/// The model of an optional block.
pub open spec fn block_option(o: Option<pandoc::Block>) -> Option<BlockView> {
    match o {
        Some(b) => Some(b@),
        None => None,
    }
}

/// The text of an optional string.
pub open spec fn text_option(o: Option<String>) -> Option<Seq<char>> {
    match o {
        Some(s) => Some(s@),
        None => None,
    }
}

fn one_block(block: pandoc::Block) -> (v: Vec<pandoc::Block>)
    ensures
        blocks(v@) == seq![block@],
{
    let mut v: Vec<pandoc::Block> = Vec::new();
    v.push(block);
    assert(blocks(v@) =~= seq![block@]);
    v
}

fn no_blocks() -> (v: Vec<pandoc::Block>)
    ensures
        blocks(v@) == Seq::<BlockView>::empty(),
{
    let v: Vec<pandoc::Block> = Vec::new();
    assert(blocks(v@) =~= Seq::<BlockView>::empty());
    v
}

fn no_rows() -> (v: Vec<pandoc::Row>)
    ensures
        rows(v@) == Seq::<RowView>::empty(),
{
    let v: Vec<pandoc::Row> = Vec::new();
    assert(rows(v@) =~= Seq::<RowView>::empty());
    v
}

fn classes(first: &str, second: String) -> (v: Vec<String>)
    ensures
        texts(v@) == seq![first@, second@],
{
    let mut v: Vec<String> = Vec::new();
    v.push(first.to_owned());
    v.push(second);
    assert(texts(v@) =~= seq![first@, second@]);
    v
}

/// The markup that `embeds` holds for `url`: that of the first pair for it.
pub fn lookup_markup(embeds: &Embeds, url: &String) -> (r: Option<String>)
    ensures
        text_option(r) == markup_for(text_pairs(embeds@), url@),
{
    let ghost all = text_pairs(embeds@);
    let mut i: usize = 0;
    assert(all.skip(0) =~= all);
    while i < embeds.len()
        invariant
            i <= embeds.len(),
            all == text_pairs(embeds@),
            markup_for(all, url@) == markup_for(all.skip(i as int), url@),
        decreases embeds.len() - i,
    {
        proof {
            assert(all.skip(i as int)[0] == all[i as int]);
            assert(all.skip(i as int).drop_first() =~= all.skip(i as int + 1));
        }
        if embeds[i].0 == *url {
            return Some(embeds[i].1.clone());
        }
        i += 1;
    }
    assert(all.skip(i as int).len() == 0);
    None
}

/// The contents of the text spans, in order; a span of another kind gives an empty string.
pub fn text_contents(spans: Vec<RichText>) -> (r: Vec<String>)
    ensures
        texts(r@) == contents(spans@),
{
    let mut r: Vec<String> = Vec::new();
    for span in it: spans
        invariant
            it.seq() == spans@,
            texts(r@) == contents(spans@.take(it.index() as int)),
    {
        let ghost k = it.index() as int;
        let ghost done = r@;
        let content = match span {
            RichText::Text { annotations, text } => text.content,
            _ => String::new(),
        };
        r.push(content);
        assert(texts(r@) =~= texts(done).push(content@));
        assert(contents(spans@.take(k + 1)) =~= contents(spans@.take(k)).push(content@));
    }
    assert(spans@.take(spans@.len() as int) =~= spans@);
    r
}

/// The plain text of a run of text spans: their contents, one after the other.
pub fn plain_text(spans: Vec<RichText>) -> (r: String)
    requires
        all_text(spans@),
    ensures
        r@ == joined(contents(spans@), seq![]),
{
    proof {
        reveal_strlit("");
        assert(""@ =~= Seq::<char>::empty());
    }
    join(text_contents(spans), "")
}

fn convert_rows(children: Vec<notion::Block>) -> (r: Vec<pandoc::Row>)
    requires
        all_rows(forest(children@)),
    ensures
        rows(r@) == table_rows(forest(children@)),
{
    let mut r: Vec<pandoc::Row> = Vec::new();
    for child in it: children
        invariant
            it.seq() == children@,
            all_rows(forest(children@)),
            rows(r@) == table_rows(forest(children@).take(it.index() as int)),
    {
        let ghost k = it.index() as int;
        let ghost done = r@;
        let ghost f = forest(children@);
        assert(f[k] == child@);
        let row = notion::Block::convert_table_row(child);
        r.push(row);
        assert(rows(r@) =~= rows(done).push(row@));
        assert(table_rows(f.take(k + 1)) =~= table_rows(f.take(k)).push(row_view(row_cells(f[k]))));
    }
    assert(forest(children@).take(children@.len() as int) =~= forest(children@));
    r
}

fn convert_table(table: notion::Table, children: Vec<notion::Block>) -> (r: pandoc::Block)
    requires
        all_rows(forest(children@)),
        head_rows(table) <= children@.len(),
    ensures
        r@ == BlockView::Table(table_view(table, forest(children@))),
{
    let ghost f = forest(children@);
    let at: usize = if table.has_column_header {
        1
    } else {
        0
    };
    let mut header = children;
    let body = header.split_off(at);
    proof {
        assert(forest(header@) =~= f.take(at as int));
        assert(forest(body@) =~= f.skip(at as int));
    }
    let head = convert_rows(header);
    let rest = convert_rows(body);
    let mut col_specs: Vec<ColSpec> = Vec::new();
    let mut i: u64 = 0;
    while i < table.table_width
        invariant
            i <= table.table_width,
            col_specs@ =~= Seq::new(
                i as nat,
                |j: int| ColSpec(Alignment::AlignDefault, ColWidth::ColWidthDefault),
            ),
        decreases table.table_width - i,
    {
        col_specs.push(ColSpec::default());
        i += 1;
    }
    let mut table_bodies: Vec<pandoc::TableBody> = Vec::new();
    let table_body = pandoc::TableBody(Attr::default(), pandoc::RowHeadColumns(0), no_rows(), rest);
    table_bodies.push(table_body);
    assert(pandoc::bodies(table_bodies@) =~= seq![table_body@]);
    pandoc::Block::Table(
        Attr::default(),
        pandoc::Caption::default(),
        col_specs,
        pandoc::TableHead(Attr::default(), head),
        table_bodies,
        pandoc::TableFoot::default(),
    )
}

fn convert_blocks(children: Vec<notion::Block>, embeds: &Embeds) -> (r: Vec<pandoc::Block>)
    requires
        forest_convertible(forest(children@)),
    ensures
        blocks(r@) == convert_forest(forest(children@), text_pairs(embeds@)),
    decreases children, 0nat,
{
    let mut r: Vec<pandoc::Block> = Vec::new();
    for child in it: children
        invariant
            it.seq() == children@,
            forest_convertible(forest(children@)),
            blocks(r@) == convert_forest(
                forest(children@).take(it.index() as int),
                text_pairs(embeds@),
            ),
    {
        let ghost k = it.index() as int;
        let ghost done = r@;
        let ghost f = forest(children@);
        proof {
            assert(f[k] == child@);
            assert(f.take(k + 1).drop_last() =~= f.take(k));
            assert(f.take(k + 1).last() == child@);
        }
        match child.to_pandoc(embeds) {
            Some(block) => {
                proof {
                    lemma_blocks_push(done, block);
                    assert(blocks(done).push(block@) =~= blocks(done) + seq![block@]);
                }
                r.push(block);
            },
            None => {
                assert(blocks(done) + Seq::<BlockView>::empty() =~= blocks(done));
            },
        }
    }
    assert(forest(children@).take(children@.len() as int) =~= forest(children@));
    r
}

fn convert_children(children: Option<Vec<notion::Block>>, embeds: &Embeds) -> (r: Vec<pandoc::Block>)
    requires
        children is Some ==> forest_convertible(forest(children->0@)),
    ensures
        blocks(r@) == below(
            match children {
                Some(c) => Some(forest(c@)),
                None => None,
            },
            text_pairs(embeds@),
        ),
    decreases children, 0nat,
{
    match children {
        Some(children) => convert_blocks(children, embeds),
        None => no_blocks(),
    }
}

fn convert_list_items(children: Vec<notion::Block>, embeds: &Embeds) -> (r: Vec<Vec<pandoc::Block>>)
    requires
        items_convertible(forest(children@)),
    ensures
        block_lists(r@) == convert_items(Some(forest(children@)), text_pairs(embeds@)),
    decreases children, 0nat,
{
    let mut r: Vec<Vec<pandoc::Block>> = Vec::new();
    let ghost f = forest(children@);
    let ghost e = text_pairs(embeds@);
    for child in it: children
        invariant
            it.seq() == children@,
            f == forest(children@),
            e == text_pairs(embeds@),
            items_convertible(f),
            r@.len() == it.index(),
            forall|j: int| 0 <= j < r@.len() ==> blocks(#[trigger] r@[j]@) == convert_list_item(f[j], e),
    {
        let ghost k = it.index() as int;
        assert(f[k] == child@);
        let entry = notion::Block::convert_list_item(child, embeds);
        r.push(entry);
    }
    assert(block_lists(r@) =~= convert_items(Some(f), e));
    r
}

impl notion::Inline {
    /// The text as plain content, followed by what the children become.
    pub fn to_pandoc_with_children(self, children: Option<Vec<notion::Block>>, embeds: &Embeds) -> (r: Vec<pandoc::Block>)
        requires
            children is Some ==> forest_convertible(forest(children->0@)),
        ensures
            blocks(r@) == with_children(
                self.rich_text@,
                match children {
                    Some(c) => Some(forest(c@)),
                    None => None,
                },
                text_pairs(embeds@),
            ),
        decreases children, 1nat,
    {
        let mut result = one_block(pandoc::Block::Plain(self.to_pandoc()));
        let mut rest = convert_children(children, embeds);
        proof {
            lemma_blocks_add(result@, rest@);
        }
        result.append(&mut rest);
        result
    }
}

impl notion::Block {
    /// Converts the block and what stands below it. `embeds` holds the
    /// markup of the embeds and bookmarks that could be resolved.
    pub fn to_pandoc(self, embeds: &Embeds) -> (r: Option<pandoc::Block>)
        requires
            convertible(self@),
        ensures
            block_option(r) == convert_block(self@, text_pairs(embeds@)),
        decreases self, 0nat,
    {
        let ghost me = self@;
        let notion::Block { id, archived, var, children } = self;
        proof {
            assert(me.var == var);
            assert(me.children == match children {
                Some(c) => Some(forest(c@)),
                None => None,
            });
        }
        match var {
            Var::Paragraph { inline } => Some(pandoc::Block::Para(inline.to_pandoc())),
            Var::Heading1 { inline } => Some(
                pandoc::Block::Header(2, Attr::default(), inline.to_pandoc()),
            ),
            Var::Heading2 { inline } => Some(
                pandoc::Block::Header(3, Attr::default(), inline.to_pandoc()),
            ),
            Var::Heading3 { inline } => Some(
                pandoc::Block::Header(4, Attr::default(), inline.to_pandoc()),
            ),
            Var::Quote { inline } => Some(
                pandoc::Block::BlockQuote(inline.to_pandoc_with_children(children, embeds)),
            ),
            Var::Callout { callout } => Some(
                pandoc::Block::Div(
                    Attr::with_classes(class("callout")),
                    one_block(pandoc::Block::Plain(convert_rich_texts(callout.rich_text))),
                ),
            ),
            Var::Code { code } => {
                let notion::Code { rich_text, caption, language } = code;
                let text = plain_text(rich_text);
                let mut languages: Vec<String> = Vec::new();
                languages.push(language);
                assert(texts(languages@) =~= seq![language@]);
                Some(pandoc::Block::CodeBlock(Attr::with_classes(languages), text))
            },
            Var::Equation { equation } => Some(
                pandoc::Block::Para(
                    one(pandoc::Inline::Math(MathType::DisplayMath, equation.expression)),
                ),
            ),
            Var::Image { file } => {
                let (caption, url, loc) = Self::unpack_file(file);
                let mut locs: Vec<String> = Vec::new();
                locs.push(loc);
                assert(texts(locs@) =~= seq![loc@]);
                Some(
                    pandoc::Block::Para(
                        one(
                            pandoc::Inline::Image(
                                Attr::with_classes(locs),
                                convert_rich_texts(caption),
                                Target(url, String::new()),
                            ),
                        ),
                    ),
                )
            },
            Var::Video { file } => {
                let (caption, url, loc) = Self::unpack_file(file);
                Some(Self::link(url, caption, classes("video", loc)))
            },
            Var::File { file } => {
                let (caption, url, loc) = Self::unpack_file(file);
                Some(Self::link(url, caption, classes("file", loc)))
            },
            Var::PDF { file } => {
                let (caption, url, loc) = Self::unpack_file(file);
                Some(Self::link(url, caption, classes("pdf", loc)))
            },
            Var::Embed { embed } => Some(Self::convert_embed(embed, embeds)),
            Var::Bookmark { embed } => Some(Self::convert_embed(embed, embeds)),
            Var::LinkPreview { link_preview } => {
                let text = pandoc::Inline::Str(link_preview.url.clone());
                Some(pandoc::Block::Para(one(text.to_link(link_preview.url))))
            },
            Var::LinkToPage { link_to_page } => match link_to_page {
                notion::LinkToPage::PageId { page_id } => {
                    let mut pairs: Vec<(String, String)> = Vec::new();
                    pairs.push(("id".to_owned(), uuid_to_string(page_id)));
                    let attr = Attr(String::new(), class("link_to_page"), pairs);
                    assert(attr@.pairs =~= seq![("id"@, uuid_text(page_id))]);
                    Some(pandoc::Block::Div(attr, no_blocks()))
                },
                notion::LinkToPage::DatabaseId { database_id } => None,
            },
            Var::Table { table } => match children {
                Some(children) => Some(convert_table(table, children)),
                None => None,
            },
            Var::Divider => Some(pandoc::Block::HorizontalRule),
            Var::BulletedList => {
                let entries = convert_list_items(children.unwrap(), embeds);
                Some(pandoc::Block::BulletList(entries))
            },
            Var::NumberedList => {
                let entries = convert_list_items(children.unwrap(), embeds);
                Some(
                    pandoc::Block::OrderedList(
                        ListAttributes(1, ListNumberStyle::Decimal, ListNumberDelim::Period),
                        entries,
                    ),
                )
            },
            _ => None,
        }
    }

    /// Caption, URL and location class of a file.
    pub fn unpack_file(file: notion::File) -> (r: (Vec<RichText>, String, String))
        ensures
            (r.0@, r.1@, r.2@) == file_parts(file),
    {
        match file {
            notion::File::File { caption, file } => (caption, file.url, "internal".to_owned()),
            notion::File::External { caption, external } => (
                caption,
                external.url,
                "external".to_owned(),
            ),
        }
    }

    /// A paragraph that holds one link to `url`, with the classes `attr`.
    pub fn link(url: String, cap: Vec<RichText>, attr: Vec<String>) -> (r: pandoc::Block)
        ensures
            r@ == link_block(url@, cap@, texts(attr@)),
    {
        let caption = if cap.len() == 0 {
            one(pandoc::Inline::Str(url.clone()))
        } else {
            convert_rich_texts(cap)
        };
        pandoc::Block::Para(
            one(
                pandoc::Inline::Link(Attr::with_classes(attr), caption, Target(url, String::new())),
            ),
        )
    }

    /// An embed or a bookmark: raw HTML where `embeds` holds markup for its URL, else a link.
    pub fn convert_embed(embed: notion::Embed, embeds: &Embeds) -> (r: pandoc::Block)
        ensures
            r@ == embed_block(embed, text_pairs(embeds@)),
    {
        match lookup_markup(embeds, &embed.url) {
            Some(markup) => pandoc::Block::RawBlock(pandoc::Format("html".to_owned()), markup),
            None => Self::link(embed.url, embed.caption, class("embed")),
        }
    }

    /// The row that a table-row block becomes.
    pub fn convert_table_row(x: notion::Block) -> (r: pandoc::Row)
        requires
            x@.var is TableRow,
        ensures
            r@ == row_view(row_cells(x@)),
    {
        match x.var {
            Var::TableRow { table_row } => Self::convert_table_cells(table_row.cells),
            _ => pandoc::Row(Attr::default(), Vec::new()),
        }
    }

    /// A row with one cell for each entry.
    pub fn convert_table_cells(x: Vec<Vec<RichText>>) -> (r: pandoc::Row)
        ensures
            r@ == row_view(x@),
    {
        let mut row_cells: Vec<pandoc::Cell> = Vec::new();
        for cell in it: x
            invariant
                it.seq() == x@,
                row_cells@.len() == it.index(),
                forall|j: int| 0 <= j < row_cells@.len() ==> (#[trigger] row_cells@[j])@ == cell_view(x@[j]@),
        {
            row_cells.push(Self::convert_table_cell(cell));
        }
        let r = pandoc::Row(Attr::default(), row_cells);
        assert(r@.cells =~= row_view(x@).cells);
        r
    }

    /// A cell that holds the spans as plain text.
    pub fn convert_table_cell(x: Vec<RichText>) -> (r: pandoc::Cell)
        ensures
            r@ == cell_view(x@),
    {
        pandoc::Cell(
            Attr::default(),
            Alignment::default(),
            pandoc::RowSpan(1),
            pandoc::ColSpan(1),
            one_block(pandoc::Block::Plain(convert_rich_texts(x))),
        )
    }

    /// The blocks of the list entry that a list item becomes.
    pub fn convert_list_item(x: notion::Block, embeds: &Embeds) -> (r: Vec<pandoc::Block>)
        requires
            item_convertible(x@),
        ensures
            blocks(r@) == convert_list_item(x@, text_pairs(embeds@)),
        decreases x, 0nat,
    {
        let ghost me = x@;
        let notion::Block { id, archived, var, children } = x;
        proof {
            assert(me.var == var);
            assert(me.children == match children {
                Some(c) => Some(forest(c@)),
                None => None,
            });
        }
        match var {
            Var::BulletedListItem { inline } => inline.to_pandoc_with_children(children, embeds),
            Var::NumberedListItem { inline } => inline.to_pandoc_with_children(children, embeds),
            Var::ToggleListItem { inline } => inline.to_pandoc_with_children(children, embeds),
            Var::ToDoListItem { to_do } => {
                let mark = if to_do.checked {
                    "\u{2612}"
                } else {
                    "\u{2610}"
                };
                let mut text_with_box: Vec<pandoc::Inline> = Vec::new();
                text_with_box.push(pandoc::Inline::Str(mark.to_owned()));
                text_with_box.push(pandoc::Inline::Space);
                let mut text = convert_rich_texts(to_do.rich_text);
                proof {
                    lemma_inlines_add(text_with_box@, text@);
                    assert(inlines(text_with_box@) =~= seq![
                        InlineView::Str(check_mark(to_do.checked)),
                        InlineView::Space,
                    ]);
                }
                text_with_box.append(&mut text);
                let mut result = one_block(pandoc::Block::Plain(text_with_box));
                let mut rest = convert_children(children, embeds);
                proof {
                    lemma_blocks_add(result@, rest@);
                }
                result.append(&mut rest);
                result
            },
            _ => no_blocks(),
        }
    }
}

// ---------------------------------------------------------------------------
// Blocks: deciding whether they can be converted

/// `convertible`, one level down.
pub proof fn lemma_unfold_convertible(b: notion::BlockView)
    ensures
        convertible(b) == match b.var {
            Var::BulletedListItem { .. } | Var::NumberedListItem { .. } | Var::ToDoListItem { .. }
            | Var::ToggleListItem { .. } | Var::TableRow { .. } => false,
            Var::Code { code } => code.rich_text@.len() <= 1 && all_text(code.rich_text@),
            Var::BulletedList | Var::NumberedList => b.children is Some && items_convertible(
                b.children->0,
            ),
            Var::Table { table } => b.children is Some ==> all_rows(b.children->0) && head_rows(table)
                <= b.children->0.len(),
            Var::Quote { .. } => children_convertible(b.children),
            _ => true,
        },
        item_convertible(b) == (b.var.list_item() && children_convertible(b.children)),
{
}

/// Whether every span is a text span.
pub fn all_text_spans(spans: &Vec<RichText>) -> (r: bool)
    ensures
        r == all_text(spans@),
{
    let mut i: usize = 0;
    while i < spans.len()
        invariant
            i <= spans.len(),
            forall|j: int| 0 <= j < i ==> #[trigger] spans@[j] is Text,
        decreases spans.len() - i,
    {
        match &spans[i] {
            RichText::Text { .. } => {},
            _ => {
                return false;
            },
        }
        i += 1;
    }
    true
}

fn all_convertible(blocks: &Vec<notion::Block>) -> (r: bool)
    ensures
        r == forest_convertible(forest(blocks@)),
    decreases blocks, 0nat,
{
    let ghost f = forest(blocks@);
    let mut i: usize = 0;
    while i < blocks.len()
        invariant
            i <= blocks.len(),
            f == forest(blocks@),
            forall|j: int| 0 <= j < i ==> convertible(#[trigger] f[j]),
        decreases blocks.len() - i,
    {
        assert(f[i as int] == blocks[i as int]@);
        if !blocks[i].is_convertible() {
            return false;
        }
        i += 1;
    }
    true
}

fn all_items_convertible(blocks: &Vec<notion::Block>) -> (r: bool)
    ensures
        r == items_convertible(forest(blocks@)),
    decreases blocks, 0nat,
{
    let ghost f = forest(blocks@);
    let mut i: usize = 0;
    while i < blocks.len()
        invariant
            i <= blocks.len(),
            f == forest(blocks@),
            forall|j: int| 0 <= j < i ==> item_convertible(#[trigger] f[j]),
        decreases blocks.len() - i,
    {
        assert(f[i as int] == blocks[i as int]@);
        if !blocks[i].is_convertible_item() {
            return false;
        }
        i += 1;
    }
    true
}

fn all_table_rows(blocks: &Vec<notion::Block>) -> (r: bool)
    ensures
        r == all_rows(forest(blocks@)),
{
    let ghost f = forest(blocks@);
    let mut i: usize = 0;
    while i < blocks.len()
        invariant
            i <= blocks.len(),
            f == forest(blocks@),
            forall|j: int| 0 <= j < i ==> (#[trigger] f[j]).var is TableRow,
        decreases blocks.len() - i,
    {
        assert(f[i as int] == blocks[i as int]@);
        match &blocks[i].var {
            Var::TableRow { .. } => {},
            _ => {
                return false;
            },
        }
        i += 1;
    }
    true
}

fn children_are_convertible(children: &Option<Vec<notion::Block>>) -> (r: bool)
    ensures
        r == children_convertible(
            match *children {
                Some(c) => Some(forest(c@)),
                None => None,
            },
        ),
    decreases children, 1nat,
{
    match children {
        Some(c) => all_convertible(c),
        None => true,
    }
}

impl notion::Block {
    /// Whether the block can be converted where it stands as a block.
    pub fn is_convertible(&self) -> (r: bool)
        ensures
            r == convertible(self@),
        decreases self, 2nat,
    {
        proof {
            lemma_unfold_convertible(self@);
        }
        match &self.var {
            Var::BulletedListItem { .. } | Var::NumberedListItem { .. } | Var::ToDoListItem { .. }
            | Var::ToggleListItem { .. } | Var::TableRow { .. } => false,
            Var::Code { code } => code.rich_text.len() <= 1 && all_text_spans(&code.rich_text),
            Var::BulletedList | Var::NumberedList => match &self.children {
                Some(c) => all_items_convertible(c),
                None => false,
            },
            Var::Table { table } => match &self.children {
                Some(c) => all_table_rows(c) && (!table.has_column_header || c.len() >= 1),
                None => true,
            },
            Var::Quote { .. } => children_are_convertible(&self.children),
            _ => true,
        }
    }

    /// Whether the block can be converted where it stands as an entry of a list.
    pub fn is_convertible_item(&self) -> (r: bool)
        ensures
            r == item_convertible(self@),
        decreases self, 2nat,
    {
        proof {
            lemma_unfold_convertible(self@);
        }
        (self.var.is_bulleted_family() || self.var.is_numbered_item()) && children_are_convertible(
            &self.children,
        )
    }
}

// ---------------------------------------------------------------------------
// Pages

/// The metadata of a document: date, last modification, title, and whether
/// the page holds a table of contents.
pub open spec fn meta_view(title: Seq<char>, date: Seq<char>, lastmod: Seq<char>, toc: bool) -> Seq<(Seq<char>, MetaValueView)> {
    seq![
        ("date"@, MetaValueView::MetaString(date)),
        ("lastmod"@, MetaValueView::MetaString(lastmod)),
        ("title"@, MetaValueView::MetaString(title)),
        ("toc"@, MetaValueView::MetaBool(toc)),
    ]
}

/// The four entries of a document's metadata have four different keys.
pub proof fn lemma_meta_keys_distinct(title: Seq<char>, date: Seq<char>, lastmod: Seq<char>, toc: bool)
    ensures
        pandoc::keys_distinct(meta_view(title, date, lastmod, toc)),
{
    reveal_strlit("date");
    reveal_strlit("lastmod");
    reveal_strlit("title");
    reveal_strlit("toc");
    assert("date"@.len() == 4);
    assert("lastmod"@.len() == 7);
    assert("title"@.len() == 5);
    assert("toc"@.len() == 3);
}

impl Page {
    /// Whether every block of the page can be converted.
    pub fn is_convertible(&self) -> (r: bool)
        ensures
            r == forest_convertible(forest(self.blocks@)),
    {
        all_convertible(&self.blocks)
    }

    /// The document that the page becomes, under the given title and dates.
    pub fn to_pandoc(self, title: String, date: String, lastmod: String, embeds: &Embeds) -> (r: Pandoc)
        requires
            forest_convertible(forest(self.blocks@)),
        ensures
            r@ == (PandocView {
                pandoc_api_version: seq![1u64, 22u64, 2u64, 1u64],
                meta: meta_view(title@, date@, lastmod@, any_contains_toc(forest(self.blocks@))),
                blocks: convert_forest(forest(self.blocks@), text_pairs(embeds@)),
            }),
            r.meta.keys_distinct(),
    {
        let toc = self.has_toc();
        let mut entries: Vec<(String, MetaValue)> = Vec::new();
        entries.push(("date".to_owned(), MetaValue::MetaString(date)));
        entries.push(("lastmod".to_owned(), MetaValue::MetaString(lastmod)));
        entries.push(("title".to_owned(), MetaValue::MetaString(title)));
        entries.push(("toc".to_owned(), MetaValue::MetaBool(toc)));
        let meta = pandoc::Meta(entries);
        assert(meta@ =~= meta_view(title@, date@, lastmod@, toc));
        proof {
            lemma_meta_keys_distinct(title@, date@, lastmod@, toc);
        }
        let r = Pandoc {
            pandoc_api_version: PANDOC_API_VERSION,
            meta,
            blocks: convert_blocks(self.blocks, embeds),
        };
        assert(r.pandoc_api_version@ =~= seq![1u64, 22u64, 2u64, 1u64]);
        r
    }
}

} // verus!
