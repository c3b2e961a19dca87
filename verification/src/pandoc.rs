//! The Pandoc document model, as far as the converter emits it.

use vstd::prelude::*;

verus! {

/// Version of the Pandoc type definitions that the emitted document follows.
pub const PANDOC_API_VERSION: [u64; 4] = [1, 22, 2, 1];

#[derive(Debug, PartialEq, Eq)]
pub struct Pandoc {
    pub pandoc_api_version: [u64; 4],
    pub meta: Meta,
    pub blocks: Vec<Block>,
}

/// Document metadata: keyed entries, in the order in which they were set.
#[derive(Debug, PartialEq, Eq)]
pub struct Meta(pub Vec<(String, MetaValue)>);

#[derive(Debug, PartialEq, Eq)]
pub enum MetaValue {
    MetaString(String),
    MetaBool(bool),
}

#[derive(Debug, PartialEq, Eq)]
pub enum Block {
    Plain(Vec<Inline>),
    Para(Vec<Inline>),
    CodeBlock(Attr, String),
    RawBlock(Format, String),
    BlockQuote(Vec<Block>),
    OrderedList(ListAttributes, Vec<Vec<Block>>),
    BulletList(Vec<Vec<Block>>),
    Header(u64, Attr, Vec<Inline>),
    HorizontalRule,
    Table(Attr, Caption, Vec<ColSpec>, TableHead, Vec<TableBody>, TableFoot),
    Div(Attr, Vec<Block>),
    Null,
}

#[derive(Debug, PartialEq, Eq)]
pub enum Inline {
    Str(String),
    Emph(Vec<Inline>),
    Strong(Vec<Inline>),
    Strikeout(Vec<Inline>),
    Code(Attr, String),
    Space,
    Math(MathType, String),
    Link(Attr, Vec<Inline>, Target),
    Image(Attr, Vec<Inline>, Target),
    Span(Attr, Vec<Inline>),
}

#[derive(Debug, PartialEq, Eq, Clone, Copy)]
pub enum Alignment {
    AlignDefault,
}

#[derive(Debug, PartialEq, Eq, Clone, Copy)]
pub struct ListAttributes(pub u64, pub ListNumberStyle, pub ListNumberDelim);

#[derive(Debug, PartialEq, Eq, Clone, Copy)]
pub enum ListNumberStyle {
    DefaultStyle,
    Decimal,
}

#[derive(Debug, PartialEq, Eq, Clone, Copy)]
pub enum ListNumberDelim {
    DefaultDelim,
    Period,
}

#[derive(Debug, PartialEq, Eq)]
pub struct Format(pub String);

/// Identifier, classes and key-value pairs of an element.
#[derive(Debug, PartialEq, Eq)]
pub struct Attr(pub String, pub Vec<String>, pub Vec<(String, String)>);

/// URL and title of a link or an image.
#[derive(Debug, PartialEq, Eq)]
pub struct Target(pub String, pub String);

#[derive(Debug, PartialEq, Eq)]
pub struct TableCell(pub Vec<Block>);

#[derive(Debug, PartialEq, Eq, Clone, Copy)]
pub enum MathType {
    DisplayMath,
    InlineMath,
}

#[derive(Debug, PartialEq, Eq)]
pub struct Caption(pub Option<ShortCaption>, pub Vec<Block>);

#[derive(Debug, PartialEq, Eq)]
pub struct ShortCaption(pub Vec<Inline>);

#[derive(Debug, PartialEq, Eq)]
pub struct Row(pub Attr, pub Vec<Cell>);

#[derive(Debug, PartialEq, Eq, Clone, Copy)]
pub struct ColSpec(pub Alignment, pub ColWidth);

#[derive(Debug, PartialEq, Eq, Clone, Copy)]
pub struct RowHeadColumns(pub u64);

#[derive(Debug, PartialEq, Eq)]
pub struct TableHead(pub Attr, pub Vec<Row>);

#[derive(Debug, PartialEq, Eq)]
pub struct TableBody(pub Attr, pub RowHeadColumns, pub Vec<Row>, pub Vec<Row>);

#[derive(Debug, PartialEq, Eq)]
pub struct TableFoot(pub Attr, pub Vec<Row>);

#[derive(Debug, PartialEq, Eq, Clone, Copy)]
pub enum ColWidth {
    ColWidthDefault,
}

#[derive(Debug, PartialEq, Eq)]
pub struct Cell(pub Attr, pub Alignment, pub RowSpan, pub ColSpan, pub Vec<Block>);

#[derive(Debug, PartialEq, Eq, Clone, Copy)]
pub struct RowSpan(pub u64);

#[derive(Debug, PartialEq, Eq, Clone, Copy)]
pub struct ColSpan(pub u64);

// ---------------------------------------------------------------------------
// Mathematical models

pub struct AttrView {
    pub id: Seq<char>,
    pub classes: Seq<Seq<char>>,
    pub pairs: Seq<(Seq<char>, Seq<char>)>,
}

pub struct TargetView {
    pub url: Seq<char>,
    pub title: Seq<char>,
}

pub enum InlineView {
    Str(Seq<char>),
    Emph(Seq<InlineView>),
    Strong(Seq<InlineView>),
    Strikeout(Seq<InlineView>),
    Code(AttrView, Seq<char>),
    Space,
    Math(MathType, Seq<char>),
    Link(AttrView, Seq<InlineView>, TargetView),
    Image(AttrView, Seq<InlineView>, TargetView),
    Span(AttrView, Seq<InlineView>),
}

pub struct CellView {
    pub attr: AttrView,
    pub align: Alignment,
    pub row_span: u64,
    pub col_span: u64,
    pub content: Seq<BlockView>,
}

pub struct RowView {
    pub attr: AttrView,
    pub cells: Seq<CellView>,
}

pub struct TableBodyView {
    pub attr: AttrView,
    pub row_head_columns: u64,
    pub head: Seq<RowView>,
    pub body: Seq<RowView>,
}

pub struct TableView {
    pub attr: AttrView,
    pub short_caption: Option<Seq<InlineView>>,
    pub caption: Seq<BlockView>,
    pub col_specs: Seq<ColSpec>,
    pub head_attr: AttrView,
    pub head: Seq<RowView>,
    pub bodies: Seq<TableBodyView>,
    pub foot_attr: AttrView,
    pub foot: Seq<RowView>,
}

pub enum BlockView {
    Plain(Seq<InlineView>),
    Para(Seq<InlineView>),
    CodeBlock(AttrView, Seq<char>),
    RawBlock(Seq<char>, Seq<char>),
    BlockQuote(Seq<BlockView>),
    OrderedList(ListAttributes, Seq<Seq<BlockView>>),
    BulletList(Seq<Seq<BlockView>>),
    Header(u64, AttrView, Seq<InlineView>),
    HorizontalRule,
    Table(TableView),
    Div(AttrView, Seq<BlockView>),
    Null,
}

pub enum MetaValueView {
    MetaString(Seq<char>),
    MetaBool(bool),
}

pub struct PandocView {
    pub pandoc_api_version: Seq<u64>,
    pub meta: Seq<(Seq<char>, MetaValueView)>,
    pub blocks: Seq<BlockView>,
}

impl AttrView {
    /// No identifier, no classes, no pairs.
    pub open spec fn empty() -> AttrView {
        AttrView { id: seq![], classes: seq![], pairs: seq![] }
    }

    /// No identifier and no pairs, with the given classes.
    pub open spec fn classes(classes: Seq<Seq<char>>) -> AttrView {
        AttrView { id: seq![], classes, pairs: seq![] }
    }
}

/// The texts of a sequence of strings.
pub open spec fn texts(s: Seq<String>) -> Seq<Seq<char>> {
    Seq::new(s.len(), |i: int| s[i]@)
}

/// The texts of a sequence of pairs of strings.
pub open spec fn text_pairs(s: Seq<(String, String)>) -> Seq<(Seq<char>, Seq<char>)> {
    Seq::new(s.len(), |i: int| (s[i].0@, s[i].1@))
}

impl View for Attr {
    type V = AttrView;

    open spec fn view(&self) -> AttrView {
        AttrView { id: self.0@, classes: texts(self.1@), pairs: text_pairs(self.2@) }
    }
}

impl View for Target {
    type V = TargetView;

    open spec fn view(&self) -> TargetView {
        TargetView { url: self.0@, title: self.1@ }
    }
}

impl View for Inline {
    type V = InlineView;

    open spec fn view(&self) -> InlineView
        decreases self,
    {
        match self {
            Inline::Str(s) => InlineView::Str(s@),
            Inline::Emph(v) => InlineView::Emph(inlines(v@)),
            Inline::Strong(v) => InlineView::Strong(inlines(v@)),
            Inline::Strikeout(v) => InlineView::Strikeout(inlines(v@)),
            Inline::Code(a, s) => InlineView::Code(a@, s@),
            Inline::Space => InlineView::Space,
            Inline::Math(t, s) => InlineView::Math(*t, s@),
            Inline::Link(a, v, t) => InlineView::Link(a@, inlines(v@), t@),
            Inline::Image(a, v, t) => InlineView::Image(a@, inlines(v@), t@),
            Inline::Span(a, v) => InlineView::Span(a@, inlines(v@)),
        }
    }
}

/// The models of a sequence of inlines, in order.
pub open spec fn inlines(s: Seq<Inline>) -> Seq<InlineView>
    decreases s,
{
    Seq::new(
        s.len(),
        |i: int|
            if 0 <= i < s.len() {
                s[i].view()
            } else {
                arbitrary()
            },
    )
}

impl View for Cell {
    type V = CellView;

    open spec fn view(&self) -> CellView
        decreases self,
    {
        CellView {
            attr: self.0@,
            align: self.1,
            row_span: self.2.0,
            col_span: self.3.0,
            content: blocks(self.4@),
        }
    }
}

/// The models of a sequence of cells, in order.
pub open spec fn cells(s: Seq<Cell>) -> Seq<CellView>
    decreases s,
{
    Seq::new(
        s.len(),
        |i: int|
            if 0 <= i < s.len() {
                s[i].view()
            } else {
                arbitrary()
            },
    )
}

impl View for Row {
    type V = RowView;

    open spec fn view(&self) -> RowView
        decreases self,
    {
        RowView { attr: self.0@, cells: cells(self.1@) }
    }
}

/// The models of a sequence of rows, in order.
pub open spec fn rows(s: Seq<Row>) -> Seq<RowView>
    decreases s,
{
    Seq::new(
        s.len(),
        |i: int|
            if 0 <= i < s.len() {
                s[i].view()
            } else {
                arbitrary()
            },
    )
}

impl View for TableBody {
    type V = TableBodyView;

    open spec fn view(&self) -> TableBodyView
        decreases self,
    {
        TableBodyView {
            attr: self.0@,
            row_head_columns: self.1.0,
            head: rows(self.2@),
            body: rows(self.3@),
        }
    }
}

/// The models of a sequence of table bodies, in order.
pub open spec fn bodies(s: Seq<TableBody>) -> Seq<TableBodyView>
    decreases s,
{
    Seq::new(
        s.len(),
        |i: int|
            if 0 <= i < s.len() {
                s[i].view()
            } else {
                arbitrary()
            },
    )
}

impl View for Block {
    type V = BlockView;

    open spec fn view(&self) -> BlockView
        decreases self,
    {
        match self {
            Block::Plain(v) => BlockView::Plain(inlines(v@)),
            Block::Para(v) => BlockView::Para(inlines(v@)),
            Block::CodeBlock(a, s) => BlockView::CodeBlock(a@, s@),
            Block::RawBlock(f, s) => BlockView::RawBlock(f.0@, s@),
            Block::BlockQuote(v) => BlockView::BlockQuote(blocks(v@)),
            Block::OrderedList(a, v) => BlockView::OrderedList(*a, block_lists(v@)),
            Block::BulletList(v) => BlockView::BulletList(block_lists(v@)),
            Block::Header(n, a, v) => BlockView::Header(*n, a@, inlines(v@)),
            Block::HorizontalRule => BlockView::HorizontalRule,
            Block::Table(a, c, specs, head, body, foot) => BlockView::Table(
                TableView {
                    attr: a@,
                    short_caption: match c.0 {
                        None => None,
                        Some(short) => Some(inlines(short.0@)),
                    },
                    caption: blocks(c.1@),
                    col_specs: specs@,
                    head_attr: head.0@,
                    head: rows(head.1@),
                    bodies: bodies(body@),
                    foot_attr: foot.0@,
                    foot: rows(foot.1@),
                },
            ),
            Block::Div(a, v) => BlockView::Div(a@, blocks(v@)),
            Block::Null => BlockView::Null,
        }
    }
}

/// The models of a sequence of blocks, in order.
pub open spec fn blocks(s: Seq<Block>) -> Seq<BlockView>
    decreases s,
{
    Seq::new(
        s.len(),
        |i: int|
            if 0 <= i < s.len() {
                s[i].view()
            } else {
                arbitrary()
            },
    )
}

/// The models of a sequence of block lists, in order.
pub open spec fn block_lists(s: Seq<Vec<Block>>) -> Seq<Seq<BlockView>>
    decreases s,
{
    Seq::new(
        s.len(),
        |i: int|
            if 0 <= i < s.len() {
                blocks(s[i]@)
            } else {
                arbitrary()
            },
    )
}

impl View for MetaValue {
    type V = MetaValueView;

    open spec fn view(&self) -> MetaValueView {
        match self {
            MetaValue::MetaString(s) => MetaValueView::MetaString(s@),
            MetaValue::MetaBool(b) => MetaValueView::MetaBool(*b),
        }
    }
}

/// Whether no key occurs twice among the entries.
pub open spec fn keys_distinct(entries: Seq<(Seq<char>, MetaValueView)>) -> bool {
    forall|i: int, j: int| 0 <= i < j < entries.len() ==> entries[i].0 != entries[j].0
}

impl Meta {
    /// Whether no key occurs twice, so that the entries form a map from keys to values.
    pub open spec fn keys_distinct(&self) -> bool {
        keys_distinct(self@)
    }
}

impl View for Meta {
    type V = Seq<(Seq<char>, MetaValueView)>;

    open spec fn view(&self) -> Seq<(Seq<char>, MetaValueView)> {
        Seq::new(self.0@.len(), |i: int| (self.0@[i].0@, self.0@[i].1@))
    }
}

impl View for Pandoc {
    type V = PandocView;

    open spec fn view(&self) -> PandocView {
        PandocView {
            pandoc_api_version: self.pandoc_api_version@,
            meta: self.meta@,
            blocks: blocks(self.blocks@),
        }
    }
}

// ---------------------------------------------------------------------------
// Constructors

impl Default for Attr {
    /// No identifier, no classes, no pairs.
    fn default() -> (r: Attr)
        ensures
            r@ == AttrView::empty(),
    {
        let r = Attr(String::new(), Vec::new(), Vec::new());
        assert(r@.classes =~= seq![]);
        assert(r@.pairs =~= seq![]);
        r
    }
}

impl Attr {
    /// An attribute with the given classes and nothing else.
    pub fn with_classes(classes: Vec<String>) -> (r: Attr)
        ensures
            r@ == AttrView::classes(texts(classes@)),
    {
        let r = Attr(String::new(), classes, Vec::new());
        assert(r@.pairs =~= seq![]);
        r
    }
}

impl Default for Alignment {
    fn default() -> (r: Alignment)
        ensures
            r == Alignment::AlignDefault,
    {
        Alignment::AlignDefault
    }
}

impl Default for ColWidth {
    fn default() -> (r: ColWidth)
        ensures
            r == ColWidth::ColWidthDefault,
    {
        ColWidth::ColWidthDefault
    }
}

impl Default for ColSpec {
    fn default() -> (r: ColSpec)
        ensures
            r == ColSpec(Alignment::AlignDefault, ColWidth::ColWidthDefault),
    {
        ColSpec(Alignment::AlignDefault, ColWidth::ColWidthDefault)
    }
}

impl Default for ListNumberStyle {
    fn default() -> (r: ListNumberStyle)
        ensures
            r == ListNumberStyle::DefaultStyle,
    {
        ListNumberStyle::DefaultStyle
    }
}

impl Default for ListNumberDelim {
    fn default() -> (r: ListNumberDelim)
        ensures
            r == ListNumberDelim::DefaultDelim,
    {
        ListNumberDelim::DefaultDelim
    }
}

impl Default for MathType {
    fn default() -> (r: MathType)
        ensures
            r == MathType::DisplayMath,
    {
        MathType::DisplayMath
    }
}

impl Default for RowHeadColumns {
    fn default() -> (r: RowHeadColumns)
        ensures
            r == RowHeadColumns(0),
    {
        RowHeadColumns(0)
    }
}

impl Default for ShortCaption {
    /// No inlines.
    fn default() -> (r: ShortCaption)
        ensures
            inlines(r.0@) == Seq::<InlineView>::empty(),
    {
        let r = ShortCaption(Vec::new());
        assert(inlines(r.0@) =~= Seq::<InlineView>::empty());
        r
    }
}

impl Default for Caption {
    /// Neither a short caption nor blocks.
    fn default() -> (r: Caption)
        ensures
            r.0 is None,
            blocks(r.1@) == Seq::<BlockView>::empty(),
    {
        let r = Caption(None, Vec::new());
        assert(blocks(r.1@) =~= Seq::<BlockView>::empty());
        r
    }
}

impl Default for Row {
    /// Default attributes and no cells.
    fn default() -> (r: Row)
        ensures
            r@ == (RowView { attr: AttrView::empty(), cells: seq![] }),
    {
        let r = Row(Attr::default(), Vec::new());
        assert(r@.cells =~= seq![]);
        r
    }
}

impl Default for TableHead {
    /// Default attributes and no rows.
    fn default() -> (r: TableHead)
        ensures
            r.0@ == AttrView::empty(),
            rows(r.1@) == Seq::<RowView>::empty(),
    {
        let r = TableHead(Attr::default(), Vec::new());
        assert(rows(r.1@) =~= Seq::<RowView>::empty());
        r
    }
}

impl Default for TableBody {
    /// Default attributes, no row-head columns and no rows.
    fn default() -> (r: TableBody)
        ensures
            r@ == (TableBodyView {
                attr: AttrView::empty(),
                row_head_columns: 0,
                head: seq![],
                body: seq![],
            }),
    {
        let r = TableBody(Attr::default(), RowHeadColumns(0), Vec::new(), Vec::new());
        assert(r@.head =~= seq![]);
        assert(r@.body =~= seq![]);
        r
    }
}

impl Default for TableFoot {
    /// Default attributes and no rows.
    fn default() -> (r: TableFoot)
        ensures
            r.0@ == AttrView::empty(),
            rows(r.1@) == Seq::<RowView>::empty(),
    {
        let r = TableFoot(Attr::default(), Vec::new());
        assert(rows(r.1@) =~= Seq::<RowView>::empty());
        r
    }
}

impl Inline {
    /// Wraps the inline in a link to `url`, without attributes or title.
    pub fn to_link(self, url: String) -> (r: Inline)
        ensures
            r@ == InlineView::Link(
                AttrView::empty(),
                seq![self@],
                (TargetView { url: url@, title: seq![] }),
            ),
    {
        let mut content: Vec<Inline> = Vec::new();
        content.push(self);
        assert(inlines(content@) =~= seq![self@]);
        Inline::Link(Attr::default(), content, Target(url, String::new()))
    }
}

/// Whether two lists of strings hold the same texts in the same order.
pub fn same_texts(a: &Vec<String>, b: &Vec<String>) -> (r: bool)
    ensures
        r == (texts(a@) == texts(b@)),
{
    if a.len() != b.len() {
        assert(texts(a@).len() != texts(b@).len());
        return false;
    }
    let mut i: usize = 0;
    while i < a.len()
        invariant
            a.len() == b.len(),
            i <= a.len(),
            forall|j: int| 0 <= j < i ==> texts(a@)[j] == texts(b@)[j],
        decreases a.len() - i,
    {
        if !(a[i] == b[i]) {
            assert(texts(a@)[i as int] != texts(b@)[i as int]);
            return false;
        }
        i += 1;
    }
    assert(texts(a@) =~= texts(b@));
    true
}

/// Whether two lists of pairs hold the same texts in the same order.
pub fn same_text_pairs(a: &Vec<(String, String)>, b: &Vec<(String, String)>) -> (r: bool)
    ensures
        r == (text_pairs(a@) == text_pairs(b@)),
{
    if a.len() != b.len() {
        assert(text_pairs(a@).len() != text_pairs(b@).len());
        return false;
    }
    let mut i: usize = 0;
    while i < a.len()
        invariant
            a.len() == b.len(),
            i <= a.len(),
            forall|j: int| 0 <= j < i ==> text_pairs(a@)[j] == text_pairs(b@)[j],
        decreases a.len() - i,
    {
        if !(a[i].0 == b[i].0 && a[i].1 == b[i].1) {
            assert(text_pairs(a@)[i as int] != text_pairs(b@)[i as int]);
            return false;
        }
        i += 1;
    }
    assert(text_pairs(a@) =~= text_pairs(b@));
    true
}

impl Attr {
    /// Whether the two attributes have the same identifier, classes and pairs.
    pub fn same(&self, other: &Attr) -> (r: bool)
        ensures
            r == (self@ == other@),
    {
        self.0 == other.0 && same_texts(&self.1, &other.1) && same_text_pairs(&self.2, &other.2)
    }
}

impl Target {
    /// Whether the two targets have the same URL and title.
    pub fn same(&self, other: &Target) -> (r: bool)
        ensures
            r == (self@ == other@),
    {
        self.0 == other.0 && self.1 == other.1
    }
}

impl Inline {
    /// Whether this is a link.
    pub fn is_link(&self) -> (r: bool)
        ensures
            r == (*self is Link),
            r == (self@ is Link),
    {
        match self {
            Inline::Link(..) => true,
            _ => false,
        }
    }
}

/// The models of a sequence with one more inline at its end.
pub proof fn lemma_inlines_push(s: Seq<Inline>, x: Inline)
    ensures
        inlines(s.push(x)) == inlines(s).push(x@),
{
    assert(inlines(s.push(x)) =~= inlines(s).push(x@));
}

/// The models of two sequences of inlines put together.
pub proof fn lemma_inlines_add(a: Seq<Inline>, b: Seq<Inline>)
    ensures
        inlines(a + b) == inlines(a) + inlines(b),
{
    assert(inlines(a + b) =~= inlines(a) + inlines(b));
}

/// The models of a sequence with one more block at its end.
pub proof fn lemma_blocks_push(s: Seq<Block>, x: Block)
    ensures
        blocks(s.push(x)) == blocks(s).push(x@),
{
    assert(blocks(s.push(x)) =~= blocks(s).push(x@));
}

/// The models of two sequences of blocks put together.
pub proof fn lemma_blocks_add(a: Seq<Block>, b: Seq<Block>)
    ensures
        blocks(a + b) == blocks(a) + blocks(b),
{
    assert(blocks(a + b) =~= blocks(a) + blocks(b));
}

} // verus!
