//! Notion blocks, and the passes that bring a fetched tree into its logical shape.

use crate::convert::forest_convertible;
use crate::pandoc::texts;
use crate::shape::{
    forest_grouped, forest_live, forest_raw, forest_sound, lemma_listed_live,
    lemma_normalized_convertible, lemma_normalized_grouped, lemma_normalized_live,
};
use vstd::prelude::*;

verus! {

/// A page: the normalised top-level blocks.
#[derive(Debug, PartialEq, Eq)]
pub struct Page {
    pub blocks: Vec<Block>,
}

/// One node of the block tree.
///
/// `id` is the block's UUID as a 128-bit number. `children` is `None` for a
/// block that never has children and `Some` for one that is flagged as
/// having them, fetched or not.
#[derive(Debug, PartialEq, Eq)]
pub struct Block {
    pub id: u128,
    pub archived: bool,
    pub var: Var,
    pub children: Option<Vec<Block>>,
}

#[derive(Debug, PartialEq, Eq, Clone)]
pub enum Var {
    Paragraph { inline: Inline },
    Heading1 { inline: Inline },
    Heading2 { inline: Inline },
    Heading3 { inline: Inline },
    Quote { inline: Inline },
    Callout { callout: Callout },
    BulletedListItem { inline: Inline },
    NumberedListItem { inline: Inline },
    ToDoListItem { to_do: ToDo },
    ToggleListItem { inline: Inline },
    Code { code: Code },
    Equation { equation: Equation },
    Image { file: File },
    Video { file: File },
    File { file: File },
    PDF { file: File },
    Embed { embed: Embed },
    Bookmark { embed: Embed },
    LinkPreview { link_preview: Link },
    LinkToPage { link_to_page: LinkToPage },
    Table { table: Table },
    TableRow { table_row: TableRow },
    Divider,
    TableOfContents,
    /// Synthetic container around a run of bulleted, toggle and to-do items.
    BulletedList,
    /// Synthetic container around a run of numbered items.
    NumberedList,
    Unsupported,
}

#[derive(Debug, PartialEq, Eq, Clone)]
pub struct Inline {
    pub rich_text: Vec<RichText>,
}

#[derive(Debug, PartialEq, Eq, Clone)]
pub struct Callout {
    pub rich_text: Vec<RichText>,
    pub icon: Icon,
}

#[derive(Debug, PartialEq, Eq, Clone)]
pub struct ToDo {
    pub rich_text: Vec<RichText>,
    pub checked: bool,
}

#[derive(Debug, PartialEq, Eq, Clone)]
pub struct Code {
    pub rich_text: Vec<RichText>,
    pub caption: Vec<RichText>,
    pub language: String,
}

#[derive(Debug, PartialEq, Eq, Clone)]
pub struct Equation {
    pub expression: String,
}

#[derive(Debug, PartialEq, Eq, Clone)]
pub enum File {
    External { caption: Vec<RichText>, external: ExternalFileLink },
    File { caption: Vec<RichText>, file: FileLink },
}

#[derive(Debug, PartialEq, Eq, Clone)]
pub struct Embed {
    pub caption: Vec<RichText>,
    pub url: String,
}

#[derive(Debug, PartialEq, Eq, Clone)]
pub struct Link {
    pub url: String,
}

/// The target of a link-to-page block, by its UUID as a 128-bit number.
#[derive(Debug, PartialEq, Eq, Clone)]
pub enum LinkToPage {
    PageId { page_id: u128 },
    DatabaseId { database_id: u128 },
}

#[derive(Debug, PartialEq, Eq, Clone)]
pub enum Icon {
    Emoji { emoji: String },
    External { external: Link },
}

#[derive(Debug, PartialEq, Eq, Clone)]
pub struct Emoji {
    pub emoji: String,
}

#[derive(Debug, PartialEq, Eq, Clone)]
pub struct ExternalFileLink {
    pub url: String,
}

/// A signed link to a hosted file. `expiry_time` is the instant at which the
/// link stops working, in milliseconds since the Unix epoch.
#[derive(Debug, PartialEq, Eq, Clone)]
pub struct FileLink {
    pub url: String,
    pub expiry_time: i64,
}

#[derive(Debug, PartialEq, Eq, Clone)]
pub struct Table {
    pub table_width: u64,
    pub has_column_header: bool,
    pub has_row_header: bool,
}

#[derive(Debug, PartialEq, Eq, Clone)]
pub struct TableRow {
    pub cells: Vec<Vec<RichText>>,
}

#[derive(Debug, PartialEq, Eq, Clone)]
pub enum RichText {
    Text { annotations: Annotations, text: Text },
    Mention { plain_text: String, annotations: Annotations, mention: Mention },
    Equation { annotations: Annotations, equation: Equation },
}

#[derive(Debug, PartialEq, Eq, Clone)]
pub struct Text {
    pub content: String,
    pub link: Option<Link>,
}

#[derive(Debug, PartialEq, Eq, Clone)]
pub enum Mention {
    Page { page: PageId },
    Date,
    User,
}

#[derive(Debug, PartialEq, Eq, Clone)]
pub struct PageId {
    pub id: u128,
}

#[derive(Debug, PartialEq, Eq, Clone)]
pub struct Annotations {
    pub bold: bool,
    pub italic: bool,
    pub strikethrough: bool,
    pub underline: bool,
    pub code: bool,
}

/// The mathematical tree behind a `Block`: the same node with its children as a sequence.
pub struct BlockView {
    pub id: u128,
    pub archived: bool,
    pub var: Var,
    pub children: Option<Seq<BlockView>>,
}

impl View for Block {
    type V = BlockView;

    open spec fn view(&self) -> BlockView
        decreases self,
    {
        BlockView {
            id: self.id,
            archived: self.archived,
            var: self.var,
            children: match self.children {
                None => None,
                Some(v) => Some(forest(v@)),
            },
        }
    }
}

/// The trees behind a sequence of blocks, in order.
pub open spec fn forest(s: Seq<Block>) -> Seq<BlockView>
    decreases s,
{
    Seq::new(
        s.len(),
        |i: int|
            if 0 <= i < s.len() {
                s[i].view()
            } else {
                arbitrary()
            },
    )
}

/// The trees behind a sequence with one more block at its end.
pub proof fn lemma_forest_push(s: Seq<Block>, b: Block)
    ensures
        forest(s.push(b)) == forest(s).push(b@),
{
    assert(forest(s.push(b)) =~= forest(s).push(b@));
}

/// The trees behind two sequences put together.
pub proof fn lemma_forest_add(a: Seq<Block>, b: Seq<Block>)
    ensures
        forest(a + b) == forest(a) + forest(b),
{
    assert(forest(a + b) =~= forest(a) + forest(b));
}

impl Var {
    /// Bulleted, toggle and to-do items: the kinds a bulleted list gathers.
    pub open spec fn bulleted_family(self) -> bool {
        self is BulletedListItem || self is ToggleListItem || self is ToDoListItem
    }

    /// Any of the four list-item kinds.
    pub open spec fn list_item(self) -> bool {
        self.bulleted_family() || self is NumberedListItem
    }

    /// Whether this is a paragraph.
    pub fn is_paragraph(&self) -> (r: bool)
        ensures
            r == (*self is Paragraph),
    {
        match self {
            Var::Paragraph { .. } => true,
            _ => false,
        }
    }

    /// Whether this is a bulleted, toggle or to-do item.
    pub fn is_bulleted_family(&self) -> (r: bool)
        ensures
            r == self.bulleted_family(),
    {
        match self {
            Var::BulletedListItem { .. } | Var::ToggleListItem { .. } | Var::ToDoListItem { .. } => true,
            _ => false,
        }
    }

    /// Whether this is a numbered item.
    pub fn is_numbered_item(&self) -> (r: bool)
        ensures
            r == (*self is NumberedListItem),
    {
        match self {
            Var::NumberedListItem { .. } => true,
            _ => false,
        }
    }

    /// Whether this is the container of a bulleted list.
    pub fn is_bulleted_list(&self) -> (r: bool)
        ensures
            r == (*self is BulletedList),
    {
        match self {
            Var::BulletedList => true,
            _ => false,
        }
    }

    /// Whether this is the container of a numbered list.
    pub fn is_numbered_list(&self) -> (r: bool)
        ensures
            r == (*self is NumberedList),
    {
        match self {
            Var::NumberedList => true,
            _ => false,
        }
    }

    /// Whether this is a table of contents.
    pub fn is_table_of_contents(&self) -> (r: bool)
        ensures
            r == (*self is TableOfContents),
    {
        match self {
            Var::TableOfContents => true,
            _ => false,
        }
    }
}

// ---------------------------------------------------------------------------
// Flattening

/// What flattening makes of one tree: a paragraph gives itself, childless,
/// followed by its flattened children as siblings; any other block keeps its
/// flattened children.
pub open spec fn flatten_block(b: BlockView) -> Seq<BlockView>
    decreases b, 1nat,
{
    match b.children {
        None => seq![b],
        Some(c) => if b.var is Paragraph {
            seq![BlockView { children: None, ..b }] + flatten_forest(c)
        } else {
            seq![BlockView { children: Some(flatten_forest(c)), ..b }]
        },
    }
}

/// What flattening makes of a sequence of trees: the results for each, in order.
pub open spec fn flatten_forest(s: Seq<BlockView>) -> Seq<BlockView>
    decreases s, 0nat,
{
    if s.len() == 0 {
        seq![]
    } else {
        flatten_forest(s.drop_last()) + flatten_block(s.last())
    }
}

/// Lifts the children of every paragraph up to be its siblings, at every depth.
pub fn flatten_paragraph_block(blocks: Vec<Block>) -> (result: Vec<Block>)
    ensures
        forest(result@) == flatten_forest(forest(blocks@)),
    decreases blocks,
{
    let mut result: Vec<Block> = Vec::new();
    for block in it: blocks
        invariant
            it.seq() == blocks@,
            forest(result@) == flatten_forest(forest(blocks@).take(it.index() as int)),
    {
        let ghost done = result@;
        let ghost k = it.index() as int;
        let ghost whole = forest(blocks@);
        proof {
            assert(whole.take(k + 1).drop_last() =~= whole.take(k));
            assert(whole.take(k + 1).last() == block@);
        }
        let ghost bv = block@;
        let Block { id, archived, var, children } = block;
        match children {
            Some(children) => {
                let mut flattened_children = flatten_paragraph_block(children);
                if var.is_paragraph() {
                    let head = Block { id, archived, var, children: None };
                    proof {
                        lemma_forest_push(done, head);
                        lemma_forest_add(done.push(head), flattened_children@);
                        assert(forest(done).push(head@) + forest(flattened_children@)
                            =~= forest(done) + (seq![head@] + forest(flattened_children@)));
                    }
                    result.push(head);
                    result.append(&mut flattened_children);
                    assert(forest(result@) == forest(done) + flatten_block(bv));
                } else {
                    let kept = Block { id, archived, var, children: Some(flattened_children) };
                    proof {
                        lemma_forest_push(done, kept);
                        assert(forest(done).push(kept@) =~= forest(done) + seq![kept@]);
                    }
                    result.push(kept);
                    assert(forest(result@) == forest(done) + flatten_block(bv));
                }
            },
            None => {
                let kept = Block { id, archived, var, children: None };
                proof {
                    lemma_forest_push(done, kept);
                    assert(forest(done).push(kept@) =~= forest(done) + seq![kept@]);
                }
                result.push(kept);
                assert(forest(result@) == forest(done) + flatten_block(bv));
            },
        }
        assert(flatten_forest(whole.take(k + 1)) == flatten_forest(whole.take(k)) + flatten_block(bv));
    }
    proof {
        assert(forest(blocks@).take(blocks@.len() as int) =~= forest(blocks@));
    }
    result
}

// ---------------------------------------------------------------------------
// List grouping

/// Whether `last`, the block emitted last, is a list container that takes `item`.
pub open spec fn gathers(last: BlockView, item: BlockView) -> bool {
    last.children is Some && ((last.var is BulletedList && item.var.bulleted_family()) || (last.var
        is NumberedList && item.var is NumberedListItem))
}

/// The container that a list item opens: it carries the item's id, is never
/// archived, and holds the item as its only child.
pub open spec fn container_for(item: BlockView) -> BlockView {
    BlockView {
        id: item.id,
        archived: false,
        var: if item.var is NumberedListItem {
            Var::NumberedList
        } else {
            Var::BulletedList
        },
        children: Some(seq![item]),
    }
}

/// One step of the left-to-right walk: `item` joins the container emitted
/// last, or opens a container of its own, or is emitted as it is.
pub open spec fn emit(acc: Seq<BlockView>, item: BlockView) -> Seq<BlockView> {
    if acc.len() > 0 && gathers(acc.last(), item) {
        acc.drop_last().push(
            BlockView { children: Some(acc.last().children->0.push(item)), ..acc.last() },
        )
    } else if item.var.list_item() {
        acc.push(container_for(item))
    } else {
        acc.push(item)
    }
}

/// A block with the grouping applied to its own children.
pub open spec fn group_block(b: BlockView) -> BlockView
    decreases b, 1nat,
{
    match b.children {
        None => b,
        Some(c) => BlockView { children: Some(group_forest(c)), ..b },
    }
}

/// What list grouping makes of a sequence of trees: each tree, grouped
/// below, is fed to the walk in order.
pub open spec fn group_forest(s: Seq<BlockView>) -> Seq<BlockView>
    decreases s, 0nat,
{
    if s.len() == 0 {
        seq![]
    } else {
        emit(group_forest(s.drop_last()), group_block(s.last()))
    }
}

/// Wraps every run of adjacent list items in a list container, at every depth.
pub fn join_list_block(blocks: Vec<Block>) -> (result: Vec<Block>)
    ensures
        forest(result@) == group_forest(forest(blocks@)),
    decreases blocks,
{
    let mut result: Vec<Block> = Vec::new();
    for block in it: blocks
        invariant
            it.seq() == blocks@,
            forest(result@) == group_forest(forest(blocks@).take(it.index() as int)),
    {
        let ghost done = result@;
        let ghost k = it.index() as int;
        let ghost whole = forest(blocks@);
        let ghost bv = block@;
        proof {
            assert(whole.take(k + 1).drop_last() =~= whole.take(k));
            assert(whole.take(k + 1).last() == bv);
        }
        let Block { id, archived, var, children } = block;
        let children = match children {
            Some(c) => Some(join_list_block(c)),
            None => None,
        };
        let item = Block { id, archived, var, children };
        assert(item@ == group_block(bv));
        let n = result.len();
        let joins = n > 0 && result[n - 1].takes(&item.var);
        proof {
            if n > 0 {
                assert(forest(done).last() == done[n - 1]@);
            }
        }
        if joins {
            let last = result.pop().unwrap();
            let ghost rest = result@;
            let ghost lv = last@;
            let Block { id: last_id, archived: last_archived, var: last_var, children: last_children } = last;
            let mut gathered = last_children.unwrap();
            proof {
                lemma_forest_push(gathered@, item);
            }
            gathered.push(item);
            let merged = Block {
                id: last_id,
                archived: last_archived,
                var: last_var,
                children: Some(gathered),
            };
            proof {
                lemma_forest_push(rest, merged);
                assert(rest =~= done.drop_last());
                assert(forest(rest) =~= forest(done).drop_last());
            }
            result.push(merged);
        } else if item.var.is_bulleted_family() {
            let item_id = item.id;
            let ghost iv = item@;
            let mut only: Vec<Block> = Vec::new();
            only.push(item);
            let container = Block {
                id: item_id,
                archived: false,
                var: Var::BulletedList,
                children: Some(only),
            };
            proof {
                assert(forest(only@) =~= seq![iv]);
                lemma_forest_push(done, container);
            }
            result.push(container);
        } else if item.var.is_numbered_item() {
            let item_id = item.id;
            let ghost iv = item@;
            let mut only: Vec<Block> = Vec::new();
            only.push(item);
            let container = Block {
                id: item_id,
                archived: false,
                var: Var::NumberedList,
                children: Some(only),
            };
            proof {
                assert(forest(only@) =~= seq![iv]);
                lemma_forest_push(done, container);
            }
            result.push(container);
        } else {
            proof {
                lemma_forest_push(done, item);
            }
            result.push(item);
        }
        assert(forest(result@) == emit(forest(done), group_block(bv)));
    }
    proof {
        assert(forest(blocks@).take(blocks@.len() as int) =~= forest(blocks@));
    }
    result
}

// ---------------------------------------------------------------------------
// Table of contents

/// Whether the tree holds a table-of-contents block, as its root or anywhere below.
pub open spec fn contains_toc(b: BlockView) -> bool
    decreases b,
{
    b.var is TableOfContents || match b.children {
        None => false,
        Some(c) => exists|i: int| 0 <= i < c.len() && contains_toc(#[trigger] c[i]),
    }
}

/// Whether any of the trees holds a table-of-contents block.
pub open spec fn any_contains_toc(s: Seq<BlockView>) -> bool {
    exists|i: int| 0 <= i < s.len() && contains_toc(#[trigger] s[i])
}

/// `contains_toc`, one level down: the root, or any of its children's trees.
pub proof fn lemma_unfold_toc(b: BlockView)
    ensures
        b.children is None ==> contains_toc(b) == (b.var is TableOfContents),
        b.children is Some ==> contains_toc(b) == (b.var is TableOfContents || any_contains_toc(b.children->0)),
{
}

fn any_has_toc(blocks: &Vec<Block>) -> (r: bool)
    ensures
        r == any_contains_toc(forest(blocks@)),
    decreases blocks, 1nat,
{
    let mut found = false;
    let mut i: usize = 0;
    while i < blocks.len()
        invariant
            i <= blocks.len(),
            found == exists|j: int| 0 <= j < i && contains_toc(#[trigger] forest(blocks@)[j]),
        decreases blocks.len() - i,
    {
        let here = blocks[i].has_toc();
        proof {
            let f = forest(blocks@);
            assert(f[i as int] == blocks[i as int]@);
            if here {
                assert(contains_toc(f[i as int]));
            }
        }
        found = found || here;
        i += 1;
    }
    found
}

impl Block {
    /// Whether this block, emitted last, is a list container that takes a block of kind `var`.
    pub fn takes(&self, var: &Var) -> (r: bool)
        ensures
            r == (self.children is Some && ((self.var is BulletedList && var.bulleted_family()) || (
            self.var is NumberedList && *var is NumberedListItem))),
    {
        self.children.is_some() && ((self.var.is_bulleted_list() && var.is_bulleted_family()) || (
        self.var.is_numbered_list() && var.is_numbered_item()))
    }

    /// Whether a table of contents stands at this block or anywhere below it.
    pub fn has_toc(&self) -> (r: bool)
        ensures
            r == contains_toc(self@),
        decreases self, 0nat,
    {
        let here = self.var.is_table_of_contents();
        match &self.children {
            Some(children) => {
                let below = any_has_toc(children);
                proof {
                    assert(self@.children == Some(forest(children@)));
                    lemma_unfold_toc(self@);
                }
                here || below
            },
            None => {
                proof {
                    lemma_unfold_toc(self@);
                }
                here
            },
        }
    }
}

impl Page {
    /// Whether a table of contents stands anywhere in the page.
    pub fn has_toc(&self) -> (r: bool)
        ensures
            r == any_contains_toc(forest(self.blocks@)),
    {
        any_has_toc(&self.blocks)
    }
}

// ---------------------------------------------------------------------------
// Fetching

/// One page of the listing of a block's children, as the API answers it.
#[derive(Debug, PartialEq, Eq)]
pub struct ChildrenPage {
    pub has_more: bool,
    pub next_cursor: Option<String>,
    pub results: Vec<Block>,
}

/// The children of one block, as far as the pages received so far give them.
#[derive(Debug, PartialEq, Eq)]
pub struct Listing {
    pub blocks: Vec<Block>,
    pub has_more: bool,
    pub next_cursor: Option<String>,
}

/// The trees that are not archived at their root, in order.
pub open spec fn unarchived(s: Seq<BlockView>) -> Seq<BlockView> {
    s.filter(|b: BlockView| !b.archived)
}

/// The blocks that are not archived, in order.
pub fn drop_archived(results: Vec<Block>) -> (kept: Vec<Block>)
    ensures
        forest(kept@) == unarchived(forest(results@)),
{
    let mut kept: Vec<Block> = Vec::new();
    let ghost f = forest(results@);
    proof {
        reveal_with_fuel(Seq::filter, 2);
    }
    for block in it: results
        invariant
            it.seq() == results@,
            f == forest(results@),
            forest(kept@) == unarchived(f.take(it.index() as int)),
    {
        let ghost k = it.index() as int;
        proof {
            reveal_with_fuel(Seq::filter, 2);
            assert(f.take(k + 1).drop_last() =~= f.take(k));
            assert(f.take(k + 1).last() == block@);
        }
        if !block.archived {
            proof {
                lemma_forest_push(kept@, block);
            }
            kept.push(block);
        }
    }
    assert(f.take(results@.len() as int) =~= f);
    kept
}

impl Listing {
    /// A listing of which no page has been received: the first page is still to be asked for.
    pub fn new() -> (r: Listing)
        ensures
            r.blocks@.len() == 0,
            r.has_more,
            r.next_cursor is None,
    {
        Listing { blocks: Vec::new(), has_more: true, next_cursor: None }
    }

    /// Whether another page has to be asked for, from the cursor `next_cursor`.
    pub fn pending(&self) -> (r: bool)
        ensures
            r == self.has_more,
    {
        self.has_more
    }

    /// Takes in the next page: its blocks that are not archived follow those
    /// gathered before, and its flag and cursor say how to go on.
    pub fn absorb(&mut self, page: ChildrenPage)
        ensures
            forest(final(self).blocks@) == forest(old(self).blocks@) + unarchived(
                forest(page.results@),
            ),
            final(self).has_more == page.has_more,
            final(self).next_cursor == page.next_cursor,
    {
        let ChildrenPage { has_more, next_cursor, results } = page;
        let mut kept = drop_archived(results);
        proof {
            lemma_forest_add(self.blocks@, kept@);
        }
        self.blocks.append(&mut kept);
        self.has_more = has_more;
        self.next_cursor = next_cursor;
    }
}

impl Block {
    /// Whether the block is flagged as having children, which are then to be fetched.
    pub fn expects_children(&self) -> (r: bool)
        ensures
            r == self.children is Some,
    {
        self.children.is_some()
    }

    /// Puts the fetched children in their place. A block that is not flagged
    /// as having children stays as it is.
    pub fn adopt(&mut self, children: Vec<Block>)
        ensures
            old(self).children is Some ==> final(self)@ == (BlockView {
                children: Some(forest(children@)),
                ..old(self)@
            }),
            old(self).children is None ==> *final(self) == *old(self),
    {
        if self.children.is_some() {
            self.children = Some(children);
        }
    }
}

// ---------------------------------------------------------------------------
// The whole fetch, from the answers of the API

/// A block as the API answered it, together with the answers to the
/// listing of its children. No listing is asked for a block that is
/// archived or not flagged as having children: its `below` is empty.
#[derive(Debug, PartialEq, Eq)]
pub struct Answer {
    pub block: Block,
    pub below: Vec<AnswerPage>,
}

/// One page of a listing, with the answers below each of its blocks.
#[derive(Debug, PartialEq, Eq)]
pub struct AnswerPage {
    pub has_more: bool,
    pub next_cursor: Option<String>,
    pub results: Vec<Answer>,
}

/// The tree that an answer gives: the block, with what its listing gives as
/// its children where it is flagged as having any.
pub open spec fn answered(a: Answer) -> BlockView
    decreases a, 0nat,
{
    BlockView {
        id: a.block.id,
        archived: a.block.archived,
        var: a.block.var,
        children: if a.block.children is Some {
            Some(listed(a.below@))
        } else {
            None
        },
    }
}

/// The trees that a sequence of answers gives, in order.
pub open spec fn answers(s: Seq<Answer>) -> Seq<BlockView>
    decreases s, 0nat,
{
    Seq::new(
        s.len(),
        |i: int|
            if 0 <= i < s.len() {
                answered(s[i])
            } else {
                arbitrary()
            },
    )
}

/// The trees that a listing gives: those of each page that are not
/// archived, page after page, up to the first page that says that no more
/// follows.
pub open spec fn listed(pages: Seq<AnswerPage>) -> Seq<BlockView>
    decreases pages, 0nat,
{
    if pages.len() == 0 {
        seq![]
    } else {
        unarchived(answers(pages[0].results@)) + if pages[0].has_more {
            listed(pages.drop_first())
        } else {
            seq![]
        }
    }
}

/// The request that comes next in a listing of which `pages` were
/// received: the first page is asked for without a cursor, each further
/// page with the cursor of the page before it, and nothing once a page says
/// that no more follows.
pub fn next_request(pages: &Vec<AnswerPage>) -> (r: Option<Option<String>>)
    ensures
        pages@.len() == 0 ==> r == Some(None::<String>),
        pages@.len() > 0 && pages@.last().has_more ==> r == Some(pages@.last().next_cursor),
        pages@.len() > 0 && !pages@.last().has_more ==> r is None,
{
    let n = pages.len();
    if n == 0 {
        Some(None)
    } else if pages[n - 1].has_more {
        Some(pages[n - 1].next_cursor.clone())
    } else {
        None
    }
}

fn answer_blocks(results: Vec<Answer>) -> (blocks: Vec<Block>)
    ensures
        forest(blocks@) == answers(results@),
    decreases results, 0nat,
{
    let mut blocks: Vec<Block> = Vec::new();
    for answer in it: results
        invariant
            it.seq() == results@,
            blocks@.len() == it.index(),
            forall|j: int| 0 <= j < blocks@.len() ==> (#[trigger] blocks@[j])@ == answered(results@[j]),
    {
        let Answer { block, below } = answer;
        let mut block = block;
        block.fetch_recursive(below);
        blocks.push(block);
    }
    assert(forest(blocks@) =~= answers(results@));
    blocks
}

/// The blocks that a listing gives, each with all that was fetched below
/// it. No block of the result is archived, at any depth.
pub fn fetch_blocks(pages: Vec<AnswerPage>) -> (blocks: Vec<Block>)
    ensures
        forest(blocks@) == listed(pages@),
        forest_live(forest(blocks@)),
    decreases pages, 0nat,
{
    let mut listing = Listing::new();
    assert(forest(listing.blocks@) =~= Seq::<BlockView>::empty());
    assert(pages@.skip(0) =~= pages@);
    for page in it: pages
        invariant
            it.seq() == pages@,
            listed(pages@) == forest(listing.blocks@) + if listing.has_more {
                listed(pages@.skip(it.index() as int))
            } else {
                seq![]
            },
    {
        let ghost k = it.index() as int;
        let ghost before = forest(listing.blocks@);
        proof {
            assert(pages@.skip(k)[0] == page);
            assert(pages@.skip(k).drop_first() =~= pages@.skip(k + 1));
        }
        if listing.pending() {
            let AnswerPage { has_more, next_cursor, results } = page;
            let results = answer_blocks(results);
            let ghost kept = unarchived(forest(results@));
            listing.absorb(ChildrenPage { has_more, next_cursor, results });
            proof {
                let rest = if has_more {
                    listed(pages@.skip(k + 1))
                } else {
                    seq![]
                };
                assert(before + (kept + rest) =~= (before + kept) + rest);
            }
        }
    }
    proof {
        assert(pages@.skip(pages@.len() as int) =~= Seq::<AnswerPage>::empty());
        assert(forest(listing.blocks@) + Seq::<BlockView>::empty() =~= forest(listing.blocks@));
        lemma_listed_live(pages@);
    }
    listing.blocks
}

impl Block {
    /// Whether the listing of the block's children is to be asked for: the
    /// block is flagged as having children and is not archived.
    pub fn asks_for_children(&self) -> (r: bool)
        ensures
            r == (self.children is Some && !self.archived),
    {
        self.children.is_some() && !self.archived
    }

    /// Puts what was fetched below the block in its place: where the block
    /// is flagged as having children, they are what the listing `below`
    /// gives, and no block among them is archived, at any depth. A block
    /// that is not flagged stays as it is.
    pub fn fetch_recursive(&mut self, below: Vec<AnswerPage>)
        ensures
            old(self).children is Some ==> final(self)@ == (BlockView {
                children: Some(listed(below@)),
                ..old(self)@
            }),
            old(self).children is None ==> *final(self) == *old(self),
            final(self)@.children is Some ==> forest_live(final(self)@.children->0),
        decreases below, 1nat,
    {
        if self.expects_children() {
            let children = fetch_blocks(below);
            self.adopt(children);
        }
    }
}

impl Page {
    /// The page that the listing of its top-level blocks gives, with all
    /// that was fetched below them: flattened, then grouped. No block of
    /// the page is archived, at any depth.
    pub fn fetch(pages: Vec<AnswerPage>) -> (page: Page)
        ensures
            forest(page.blocks@) == group_forest(flatten_forest(listed(pages@))),
            forest_live(forest(page.blocks@)),
    {
        Page::assemble(fetch_blocks(pages))
    }
}

/// The URLs of the embeds and bookmarks in the tree, the root first.
pub open spec fn tree_embed_urls(b: BlockView) -> Seq<Seq<char>>
    decreases b, 1nat,
{
    (match b.var {
        Var::Embed { embed } => seq![embed.url@],
        Var::Bookmark { embed } => seq![embed.url@],
        _ => seq![],
    }) + match b.children {
        Some(c) => forest_embed_urls(c),
        None => seq![],
    }
}

/// The URLs of the embeds and bookmarks in the trees, in order.
pub open spec fn forest_embed_urls(s: Seq<BlockView>) -> Seq<Seq<char>>
    decreases s, 0nat,
{
    if s.len() == 0 {
        seq![]
    } else {
        forest_embed_urls(s.drop_last()) + tree_embed_urls(s.last())
    }
}

fn collect_embed_urls(blocks: &Vec<Block>, out: &mut Vec<String>)
    ensures
        texts(final(out)@) == texts(old(out)@) + forest_embed_urls(forest(blocks@)),
    decreases blocks,
{
    let ghost f = forest(blocks@);
    let ghost before = texts(out@);
    let mut i: usize = 0;
    assert(before + forest_embed_urls(f.take(0)) =~= before);
    while i < blocks.len()
        invariant
            i <= blocks.len(),
            f == forest(blocks@),
            texts(out@) == before + forest_embed_urls(f.take(i as int)),
        decreases blocks.len() - i,
    {
        let ghost mid = texts(out@);
        let block = &blocks[i];
        proof {
            assert(f.take(i + 1).drop_last() =~= f.take(i as int));
            assert(f.take(i + 1).last() == block@);
        }
        match &block.var {
            Var::Embed { embed } => {
                out.push(embed.url.clone());
            },
            Var::Bookmark { embed } => {
                out.push(embed.url.clone());
            },
            _ => {},
        }
        let ghost own = texts(out@);
        assert(own =~= mid + match block.var {
            Var::Embed { embed } => seq![embed.url@],
            Var::Bookmark { embed } => seq![embed.url@],
            _ => seq![],
        });
        match &block.children {
            Some(children) => {
                collect_embed_urls(children, out);
            },
            None => {
                assert(own + Seq::<Seq<char>>::empty() =~= own);
            },
        }
        assert(texts(out@) =~= mid + tree_embed_urls(block@));
        assert(before + (forest_embed_urls(f.take(i as int)) + tree_embed_urls(block@)) =~= (before
            + forest_embed_urls(f.take(i as int))) + tree_embed_urls(block@));
        i += 1;
    }
    assert(f.take(blocks@.len() as int) =~= f);
}

/// The URLs of all embeds and bookmarks below `blocks`, in the order of the tree.
pub fn embed_urls(blocks: &Vec<Block>) -> (urls: Vec<String>)
    ensures
        texts(urls@) == forest_embed_urls(forest(blocks@)),
{
    let mut urls: Vec<String> = Vec::new();
    assert(texts(urls@) + forest_embed_urls(forest(blocks@)) =~= forest_embed_urls(forest(blocks@)));
    collect_embed_urls(blocks, &mut urls);
    urls
}

impl Page {
    /// The page whose fetched top-level blocks are `blocks`: flattened, then
    /// grouped. Where no block of the fetched trees is archived, none of the
    /// page is; where the fetched trees hold no list container, the page is
    /// grouped at every level, and where their tables and code blocks are
    /// sound besides, the page can be converted.
    pub fn assemble(blocks: Vec<Block>) -> (page: Page)
        ensures
            forest(page.blocks@) == group_forest(flatten_forest(forest(blocks@))),
            forest_live(forest(blocks@)) ==> forest_live(forest(page.blocks@)),
            forest_raw(forest(blocks@)) ==> forest_grouped(forest(page.blocks@)),
            forest_raw(forest(blocks@)) && forest_sound(forest(blocks@)) ==> forest_convertible(
                forest(page.blocks@),
            ),
    {
        proof {
            if forest_raw(forest(blocks@)) && forest_sound(forest(blocks@)) {
                lemma_normalized_convertible(forest(blocks@));
            }
            if forest_live(forest(blocks@)) {
                lemma_normalized_live(forest(blocks@));
            }
            if forest_raw(forest(blocks@)) {
                lemma_normalized_grouped(forest(blocks@));
            }
        }
        Page { blocks: join_list_block(flatten_paragraph_block(blocks)) }
    }
}

} // verus!
