//! What the normalisation passes keep and what they establish.

use crate::notion::{
    any_contains_toc, container_for, contains_toc, emit, flatten_block, flatten_forest, gathers,
    group_block, group_forest, answered, answers, lemma_unfold_toc, listed, unarchived, Answer,
    AnswerPage, BlockView, Var,
};
use crate::convert::{
    all_rows, all_text, convertible, forest_convertible, head_rows, item_convertible,
};
use vstd::prelude::*;

verus! {

// ---------------------------------------------------------------------------
// Flat trees

/// Whether no paragraph in the tree is flagged as having children.
pub open spec fn flat(b: BlockView) -> bool
    decreases b, 1nat,
{
    match b.children {
        None => true,
        Some(c) => !(b.var is Paragraph) && forest_flat(c),
    }
}

/// Whether every tree is flat.
pub open spec fn forest_flat(s: Seq<BlockView>) -> bool
    decreases s, 0nat,
{
    forall|i: int| 0 <= i < s.len() ==> flat(#[trigger] s[i])
}

/// Flattening distributes over concatenation.
pub proof fn lemma_flatten_concat(s: Seq<BlockView>, t: Seq<BlockView>)
    ensures
        flatten_forest(s + t) == flatten_forest(s) + flatten_forest(t),
    decreases t.len(),
{
    if t.len() == 0 {
        assert(s + t =~= s);
        assert(flatten_forest(s) + flatten_forest(t) =~= flatten_forest(s));
    } else {
        lemma_flatten_concat(s, t.drop_last());
        assert((s + t).drop_last() =~= s + t.drop_last());
        assert((s + t).last() == t.last());
        assert(flatten_forest(s) + (flatten_forest(t.drop_last()) + flatten_block(t.last())) =~= (
        flatten_forest(s) + flatten_forest(t.drop_last())) + flatten_block(t.last()));
    }
}

/// Flattening a single tree as a sequence of one.
pub proof fn lemma_flatten_single(b: BlockView)
    ensures
        flatten_forest(seq![b]) == flatten_block(b),
{
    let s = seq![b];
    assert(s.drop_last() =~= Seq::<BlockView>::empty());
    assert(flatten_forest(s.drop_last()) =~= Seq::<BlockView>::empty());
    assert(flatten_forest(s) =~= flatten_block(b));
}

/// A paragraph with the two children `a` and `b` flattens to itself without
/// children, then what `a` flattens to, then what `b` flattens to, all at
/// the paragraph's own level.
pub proof fn lemma_flatten_paragraph(p: BlockView, a: BlockView, b: BlockView)
    requires
        p.var is Paragraph,
        p.children == Some(seq![a, b]),
    ensures
        flatten_block(p) == seq![BlockView { children: None, ..p }] + flatten_block(a)
            + flatten_block(b),
{
    assert(seq![a, b] =~= seq![a] + seq![b]);
    lemma_flatten_concat(seq![a], seq![b]);
    lemma_flatten_single(a);
    lemma_flatten_single(b);
    assert(seq![BlockView { children: None, ..p }] + (flatten_block(a) + flatten_block(b)) =~= seq![
        BlockView { children: None, ..p },
    ] + flatten_block(a) + flatten_block(b));
}

/// Flattening leaves a flat tree as it is.
pub proof fn lemma_flatten_flat_block(b: BlockView)
    requires
        flat(b),
    ensures
        flatten_block(b) == seq![b],
    decreases b, 1nat,
{
    match b.children {
        None => {},
        Some(c) => {
            lemma_flatten_flat(c);
        },
    }
}

/// Flattening leaves a sequence of flat trees as it is.
pub proof fn lemma_flatten_flat(s: Seq<BlockView>)
    requires
        forest_flat(s),
    ensures
        flatten_forest(s) == s,
    decreases s, 0nat,
{
    if s.len() > 0 {
        assert forall|i: int| 0 <= i < s.drop_last().len() implies flat(#[trigger] s.drop_last()[i]) by {
            assert(s.drop_last()[i] == s[i]);
        }
        lemma_flatten_flat(s.drop_last());
        lemma_flatten_flat_block(s.last());
        assert(s.drop_last() + seq![s.last()] =~= s);
    } else {
        assert(flatten_forest(s) =~= s);
    }
}

/// What flattening gives for one tree is flat.
pub proof fn lemma_flattened_block_is_flat(b: BlockView)
    ensures
        forest_flat(flatten_block(b)),
    decreases b, 1nat,
{
    match b.children {
        None => {},
        Some(c) => {
            lemma_flattened_is_flat(c);
        },
    }
}

/// What flattening gives is flat.
pub proof fn lemma_flattened_is_flat(s: Seq<BlockView>)
    ensures
        forest_flat(flatten_forest(s)),
    decreases s, 0nat,
{
    if s.len() > 0 {
        lemma_flattened_is_flat(s.drop_last());
        lemma_flattened_block_is_flat(s.last());
    }
}

/// Flattening twice gives what flattening once gives.
pub proof fn lemma_flatten_idempotent(s: Seq<BlockView>)
    ensures
        flatten_forest(flatten_forest(s)) == flatten_forest(s),
{
    lemma_flattened_is_flat(s);
    lemma_flatten_flat(flatten_forest(s));
}

// ---------------------------------------------------------------------------
// Archived blocks

/// Whether neither the tree's root nor any block below it is archived.
pub open spec fn live(b: BlockView) -> bool
    decreases b, 1nat,
{
    !b.archived && match b.children {
        None => true,
        Some(c) => forest_live(c),
    }
}

/// Whether no block of any of the trees is archived.
pub open spec fn forest_live(s: Seq<BlockView>) -> bool
    decreases s, 0nat,
{
    forall|i: int| 0 <= i < s.len() ==> live(#[trigger] s[i])
}

/// Flattening a tree without archived blocks gives trees without archived blocks.
pub proof fn lemma_flatten_block_live(b: BlockView)
    requires
        live(b),
    ensures
        forest_live(flatten_block(b)),
    decreases b, 1nat,
{
    match b.children {
        None => {},
        Some(c) => {
            lemma_flatten_live(c);
        },
    }
}

/// Flattening trees without archived blocks gives trees without archived blocks.
pub proof fn lemma_flatten_live(s: Seq<BlockView>)
    requires
        forest_live(s),
    ensures
        forest_live(flatten_forest(s)),
    decreases s, 0nat,
{
    if s.len() > 0 {
        assert forall|i: int| 0 <= i < s.drop_last().len() implies live(#[trigger] s.drop_last()[i]) by {
            assert(s.drop_last()[i] == s[i]);
        }
        lemma_flatten_live(s.drop_last());
        lemma_flatten_block_live(s.last());
    }
}

/// Grouping below a tree without archived blocks leaves it without archived blocks.
pub proof fn lemma_group_block_live(b: BlockView)
    requires
        live(b),
    ensures
        live(group_block(b)),
    decreases b, 1nat,
{
    match b.children {
        None => {},
        Some(c) => {
            lemma_group_live(c);
        },
    }
}

/// One step of the grouping walk keeps the trees without archived blocks.
pub proof fn lemma_emit_live(acc: Seq<BlockView>, item: BlockView)
    requires
        forest_live(acc),
        live(item),
    ensures
        forest_live(emit(acc, item)),
{
    if acc.len() > 0 && gathers(acc.last(), item) {
        let last = acc.last();
        let kids = last.children->0.push(item);
        let merged = BlockView { children: Some(kids), ..last };
        assert(live(last));
        assert forall|i: int| 0 <= i < kids.len() implies live(#[trigger] kids[i]) by {
            if i < kids.len() - 1 {
                assert(kids[i] == last.children->0[i]);
            }
        }
        assert(live(merged));
    } else if item.var.list_item() {
        let c = container_for(item);
        assert(forest_live(seq![item]));
        assert(live(c));
    }
}

/// Grouping trees without archived blocks gives trees without archived blocks.
pub proof fn lemma_group_live(s: Seq<BlockView>)
    requires
        forest_live(s),
    ensures
        forest_live(group_forest(s)),
    decreases s, 0nat,
{
    if s.len() > 0 {
        assert forall|i: int| 0 <= i < s.drop_last().len() implies live(#[trigger] s.drop_last()[i]) by {
            assert(s.drop_last()[i] == s[i]);
        }
        lemma_group_live(s.drop_last());
        lemma_group_block_live(s.last());
        lemma_emit_live(group_forest(s.drop_last()), group_block(s.last()));
    }
}

/// A page put together from trees without archived blocks holds no archived block.
pub proof fn lemma_normalized_live(s: Seq<BlockView>)
    requires
        forest_live(s),
    ensures
        forest_live(group_forest(flatten_forest(s))),
{
    lemma_flatten_live(s);
    lemma_group_live(flatten_forest(s));
}

// ---------------------------------------------------------------------------
// Grouped trees

/// Whether the tree holds no list container, at its root or anywhere below:
/// it is as it was fetched.
pub open spec fn raw(b: BlockView) -> bool
    decreases b, 1nat,
{
    !(b.var is BulletedList) && !(b.var is NumberedList) && match b.children {
        None => true,
        Some(c) => forest_raw(c),
    }
}

/// Whether none of the trees holds a list container.
pub open spec fn forest_raw(s: Seq<BlockView>) -> bool
    decreases s, 0nat,
{
    forall|i: int| 0 <= i < s.len() ==> raw(#[trigger] s[i])
}

/// Whether `x` is an item of the kind that a container of kind `list` gathers.
pub open spec fn entry_of(list: Var, x: BlockView) -> bool {
    if list is NumberedList {
        x.var is NumberedListItem
    } else {
        x.var.bulleted_family()
    }
}

/// Whether both are list containers of the same kind.
pub open spec fn same_list(a: Var, b: Var) -> bool {
    (a is BulletedList && b is BulletedList) || (a is NumberedList && b is NumberedList)
}

/// Whether the tree is grouped: a list container holds at least one item,
/// only items of its kind, and what stands below each item is grouped; any
/// other block is no list item, and what stands below it is grouped.
pub open spec fn grouped(b: BlockView) -> bool
    decreases b, 2nat,
{
    if b.var is BulletedList || b.var is NumberedList {
        b.children is Some && b.children->0.len() > 0 && entries_grouped(b.var, b.children->0)
    } else {
        !b.var.list_item() && below_grouped(b.children)
    }
}

/// Whether each tree is an item for a container of kind `list`, grouped below.
pub open spec fn entries_grouped(list: Var, c: Seq<BlockView>) -> bool
    decreases c, 1nat,
{
    forall|i: int| 0 <= i < c.len() ==> entry_of(list, #[trigger] c[i]) && below_grouped(c[i].children)
}

/// Whether the children, where there are any, are grouped.
pub open spec fn below_grouped(children: Option<Seq<BlockView>>) -> bool
    decreases children, 1nat,
{
    match children {
        Some(c) => forest_grouped(c),
        None => true,
    }
}

/// Whether the sequence is grouped: each tree is, and no two neighbours are
/// list containers of the same kind, so that every run of items is gathered
/// whole.
pub open spec fn forest_grouped(s: Seq<BlockView>) -> bool
    decreases s, 0nat,
{
    &&& forall|i: int| 0 <= i < s.len() ==> grouped(#[trigger] s[i])
    &&& forall|i: int| 0 < i < s.len() ==> !same_list(s[i - 1].var, (#[trigger] s[i]).var)
}

/// One step of the grouping walk keeps the sequence grouped.
pub proof fn lemma_emit_grouped(acc: Seq<BlockView>, item: BlockView)
    requires
        forest_grouped(acc),
        !(item.var is BulletedList),
        !(item.var is NumberedList),
        below_grouped(item.children),
    ensures
        forest_grouped(emit(acc, item)),
{
    let out = emit(acc, item);
    if acc.len() > 0 {
        assert(grouped(acc.last()));
    }
    if acc.len() > 0 && gathers(acc.last(), item) {
        let last = acc.last();
        let kids = last.children->0.push(item);
        let merged = BlockView { children: Some(kids), ..last };
        assert(out == acc.drop_last().push(merged));
        assert forall|j: int| 0 <= j < kids.len() implies entry_of(merged.var, #[trigger] kids[j])
            && below_grouped(kids[j].children) by {
            if j < kids.len() - 1 {
                assert(kids[j] == last.children->0[j]);
            }
        }
        assert(grouped(merged));
        assert forall|i: int| 0 <= i < out.len() implies grouped(#[trigger] out[i]) by {
            if i < out.len() - 1 {
                assert(out[i] == acc[i]);
            }
        }
        assert forall|i: int| 0 < i < out.len() implies !same_list(out[i - 1].var, (#[trigger] out[i]).var) by {
            assert(out[i].var == acc[i].var);
            assert(out[i - 1].var == acc[i - 1].var);
        }
    } else if item.var.list_item() {
        let c = container_for(item);
        assert(out == acc.push(c));
        let only = seq![item];
        assert forall|j: int| 0 <= j < only.len() implies entry_of(c.var, #[trigger] only[j])
            && below_grouped(only[j].children) by {
            assert(only[j] == item);
        }
        assert(grouped(c));
        assert forall|i: int| 0 <= i < out.len() implies grouped(#[trigger] out[i]) by {
            if i < out.len() - 1 {
                assert(out[i] == acc[i]);
            }
        }
        assert forall|i: int| 0 < i < out.len() implies !same_list(out[i - 1].var, (#[trigger] out[i]).var) by {
            if i < out.len() - 1 {
                assert(out[i] == acc[i]);
                assert(out[i - 1] == acc[i - 1]);
            } else {
                assert(out[i - 1] == acc.last());
            }
        }
    } else {
        assert(out == acc.push(item));
        assert(grouped(item));
        assert forall|i: int| 0 <= i < out.len() implies grouped(#[trigger] out[i]) by {
            if i < out.len() - 1 {
                assert(out[i] == acc[i]);
            }
        }
        assert forall|i: int| 0 < i < out.len() implies !same_list(out[i - 1].var, (#[trigger] out[i]).var) by {
            if i < out.len() - 1 {
                assert(out[i] == acc[i]);
                assert(out[i - 1] == acc[i - 1]);
            }
        }
    }
}

/// Grouping below a fetched tree keeps its kind and leaves its children grouped.
pub proof fn lemma_group_block_grouped(b: BlockView)
    requires
        raw(b),
    ensures
        group_block(b).var == b.var,
        below_grouped(group_block(b).children),
    decreases b, 1nat,
{
    match b.children {
        None => {},
        Some(c) => {
            lemma_group_grouped(c);
        },
    }
}

/// Grouping applies at every level: what it makes of fetched trees is
/// grouped, in the top-level sequence and below every block, however deep.
pub proof fn lemma_group_grouped(s: Seq<BlockView>)
    requires
        forest_raw(s),
    ensures
        forest_grouped(group_forest(s)),
    decreases s, 0nat,
{
    if s.len() > 0 {
        assert forall|i: int| 0 <= i < s.drop_last().len() implies raw(#[trigger] s.drop_last()[i]) by {
            assert(s.drop_last()[i] == s[i]);
        }
        lemma_group_grouped(s.drop_last());
        lemma_group_block_grouped(s.last());
        lemma_emit_grouped(group_forest(s.drop_last()), group_block(s.last()));
    }
}

/// Flattening fetched trees gives trees without list containers.
pub proof fn lemma_flatten_raw(s: Seq<BlockView>)
    requires
        forest_raw(s),
    ensures
        forest_raw(flatten_forest(s)),
    decreases s, 0nat,
{
    if s.len() > 0 {
        assert forall|i: int| 0 <= i < s.drop_last().len() implies raw(#[trigger] s.drop_last()[i]) by {
            assert(s.drop_last()[i] == s[i]);
        }
        lemma_flatten_raw(s.drop_last());
        lemma_flatten_block_raw(s.last());
    }
}

/// Flattening a fetched tree gives trees without list containers.
pub proof fn lemma_flatten_block_raw(b: BlockView)
    requires
        raw(b),
    ensures
        forest_raw(flatten_block(b)),
    decreases b, 1nat,
{
    match b.children {
        None => {},
        Some(c) => {
            lemma_flatten_raw(c);
        },
    }
}

/// A page put together from fetched trees is grouped at every level.
pub proof fn lemma_normalized_grouped(s: Seq<BlockView>)
    requires
        forest_raw(s),
    ensures
        forest_grouped(group_forest(flatten_forest(s))),
{
    lemma_flatten_raw(s);
    lemma_group_grouped(flatten_forest(s));
}

/// Grouping a single tree that is no list item leaves it alone at the top.
pub proof fn lemma_group_single(b: BlockView)
    ensures
        group_forest(seq![b]) == emit(seq![], group_block(b)),
{
    let s = seq![b];
    assert(s.drop_last() =~= Seq::<BlockView>::empty());
    assert(group_forest(s.drop_last()) =~= Seq::<BlockView>::empty());
}

/// Three neighbours that are bulleted, toggle or to-do items, in any mix,
/// end up in one bulleted list: it has the first item's id and holds the
/// three, each grouped below, in their order.
pub proof fn lemma_three_items_one_list(a: BlockView, b: BlockView, c: BlockView)
    requires
        a.var.bulleted_family(),
        b.var.bulleted_family(),
        c.var.bulleted_family(),
    ensures
        group_forest(seq![a, b, c]) == seq![
            BlockView {
                id: a.id,
                archived: false,
                var: Var::BulletedList,
                children: Some(seq![group_block(a), group_block(b), group_block(c)]),
            },
        ],
{
    let s3 = seq![a, b, c];
    let s2 = seq![a, b];
    let s1 = seq![a];
    assert(s3.drop_last() =~= s2);
    assert(s2.drop_last() =~= s1);
    lemma_group_single(a);
    let g1 = group_forest(s1);
    assert(g1 =~= seq![container_for(group_block(a))]);
    let g2 = group_forest(s2);
    assert(g2 == emit(g1, group_block(b)));
    assert(g1.last().children->0.push(group_block(b)) =~= seq![group_block(a), group_block(b)]);
    assert(g2 =~= seq![
        BlockView {
            children: Some(seq![group_block(a), group_block(b)]),
            ..container_for(group_block(a))
        },
    ]);
    let g3 = group_forest(s3);
    assert(g3 == emit(g2, group_block(c)));
    assert(g2.last().children->0.push(group_block(c)) =~= seq![
        group_block(a),
        group_block(b),
        group_block(c),
    ]);
    assert(g3 =~= seq![
        BlockView {
            id: a.id,
            archived: false,
            var: Var::BulletedList,
            children: Some(seq![group_block(a), group_block(b), group_block(c)]),
        },
    ]);
}

/// A numbered item followed by a bulleted, toggle or to-do item gives two
/// lists, a numbered one and then a bulleted one, each with its one item.
pub proof fn lemma_numbered_then_bulleted(n: BlockView, b: BlockView)
    requires
        n.var is NumberedListItem,
        b.var.bulleted_family(),
    ensures
        group_forest(seq![n, b]) == seq![
            BlockView {
                id: n.id,
                archived: false,
                var: Var::NumberedList,
                children: Some(seq![group_block(n)]),
            },
            BlockView {
                id: b.id,
                archived: false,
                var: Var::BulletedList,
                children: Some(seq![group_block(b)]),
            },
        ],
{
    let s2 = seq![n, b];
    let s1 = seq![n];
    assert(s2.drop_last() =~= s1);
    lemma_group_single(n);
    let g1 = group_forest(s1);
    assert(g1 =~= seq![container_for(group_block(n))]);
    let g2 = group_forest(s2);
    assert(g2 == emit(g1, group_block(b)));
    assert(g2 =~= seq![container_for(group_block(n)), container_for(group_block(b))]);
}

// ---------------------------------------------------------------------------
// Archived blocks and fetching

/// Among the blocks kept from a page, none is archived.
pub proof fn lemma_unarchived_roots(s: Seq<BlockView>)
    ensures
        forall|i: int| 0 <= i < unarchived(s).len() ==> !(#[trigger] unarchived(s)[i]).archived,
{
    let keep = |b: BlockView| !b.archived;
    assert forall|i: int| 0 <= i < unarchived(s).len() implies !(#[trigger] unarchived(s)[i]).archived by {
        s.lemma_filter_pred(keep, i);
    }
}

/// Blocks kept from a page hold no archived block where what stands below
/// each of them holds none.
pub proof fn lemma_unarchived_live(s: Seq<BlockView>)
    requires
        forall|i: int| 0 <= i < s.len() ==> match (#[trigger] s[i]).children {
            Some(c) => forest_live(c),
            None => true,
        },
    ensures
        forest_live(unarchived(s)),
{
    let keep = |b: BlockView| !b.archived;
    let kept = unarchived(s);
    assert forall|i: int| 0 <= i < kept.len() implies live(#[trigger] kept[i]) by {
        s.lemma_filter_pred(keep, i);
        assert(kept.contains(kept[i]));
        s.lemma_filter_contains_rev(keep, kept[i]);
        let j = choose|j: int| 0 <= j < s.len() && s[j] == kept[i];
        assert(s[j] == kept[i]);
    }
}

/// What stands below each tree that answers give holds no archived block.
pub proof fn lemma_answers_below_live(s: Seq<Answer>)
    ensures
        forall|i: int| 0 <= i < answers(s).len() ==> match (#[trigger] answers(s)[i]).children {
            Some(c) => forest_live(c),
            None => true,
        },
    decreases s, 1nat,
{
    assert forall|i: int| 0 <= i < answers(s).len() implies match (#[trigger] answers(s)[i]).children {
        Some(c) => forest_live(c),
        None => true,
    } by {
        assert(answers(s)[i] == answered(s[i]));
        lemma_listed_live(s[i].below@);
    }
}

/// Whatever the API answered, what a listing gives holds no archived
/// block, at any depth.
pub proof fn lemma_listed_live(pages: Seq<AnswerPage>)
    ensures
        forest_live(listed(pages)),
    decreases pages, 1nat,
{
    if pages.len() > 0 {
        lemma_answers_below_live(pages[0].results@);
        lemma_unarchived_live(answers(pages[0].results@));
        if pages[0].has_more {
            lemma_listed_live(pages.drop_first());
        }
    }
}

// ---------------------------------------------------------------------------
// Table of contents

/// The tree reached from `b` by going down to the child of the given index
/// at each step of `path`; `None` where the path leaves the tree.
pub open spec fn subtree(b: BlockView, path: Seq<int>) -> Option<BlockView>
    decreases path.len(),
{
    if path.len() == 0 {
        Some(b)
    } else {
        match b.children {
            Some(c) => if 0 <= path[0] < c.len() {
                subtree(c[path[0]], path.drop_first())
            } else {
                None
            },
            None => None,
        }
    }
}

/// Whether a table-of-contents block stands at the end of `path`.
pub open spec fn toc_at(b: BlockView, path: Seq<int>) -> bool {
    subtree(b, path) is Some && subtree(b, path)->0.var is TableOfContents
}

/// A tree that holds a table of contents has a path that leads to one.
pub proof fn lemma_toc_has_path(b: BlockView)
    requires
        contains_toc(b),
    ensures
        exists|path: Seq<int>| toc_at(b, path),
    decreases b,
{
    lemma_unfold_toc(b);
    if b.var is TableOfContents {
        assert(toc_at(b, Seq::<int>::empty()));
    } else {
        let c = b.children->0;
        let i = choose|i: int| 0 <= i < c.len() && contains_toc(#[trigger] c[i]);
        lemma_toc_has_path(c[i]);
        let rest = choose|path: Seq<int>| toc_at(c[i], path);
        let path = seq![i] + rest;
        assert(path.drop_first() =~= rest);
        assert(toc_at(b, path));
    }
}

/// A tree in which a path leads to a table of contents holds one.
pub proof fn lemma_path_has_toc(b: BlockView, path: Seq<int>)
    requires
        toc_at(b, path),
    ensures
        contains_toc(b),
    decreases path.len(),
{
    lemma_unfold_toc(b);
    if path.len() > 0 {
        let c = b.children->0;
        lemma_path_has_toc(c[path[0]], path.drop_first());
    }
}

/// A tree holds a table of contents exactly if some block in it, at any
/// depth, is one.
pub proof fn lemma_toc_anywhere(b: BlockView)
    ensures
        contains_toc(b) <==> exists|path: Seq<int>| toc_at(b, path),
{
    if contains_toc(b) {
        lemma_toc_has_path(b);
    }
    if exists|path: Seq<int>| toc_at(b, path) {
        let path = choose|path: Seq<int>| toc_at(b, path);
        lemma_path_has_toc(b, path);
    }
}

/// A page holds a table of contents exactly if some block of one of its
/// trees, at any depth, is one.
pub proof fn lemma_page_toc_anywhere(s: Seq<BlockView>)
    ensures
        any_contains_toc(s) <==> exists|i: int, path: Seq<int>|
            0 <= i < s.len() && #[trigger] toc_at(s[i], path),
{
    if any_contains_toc(s) {
        let i = choose|i: int| 0 <= i < s.len() && contains_toc(#[trigger] s[i]);
        lemma_toc_has_path(s[i]);
        let path = choose|path: Seq<int>| toc_at(s[i], path);
        assert(0 <= i < s.len() && toc_at(s[i], path));
    }
    if exists|i: int, path: Seq<int>| 0 <= i < s.len() && #[trigger] toc_at(s[i], path) {
        let (i, path) = choose|i: int, path: Seq<int>| 0 <= i < s.len() && #[trigger] toc_at(s[i], path);
        lemma_path_has_toc(s[i], path);
    }
}

// ---------------------------------------------------------------------------
// From fetched trees to trees that can be converted

/// Whether tables and code blocks are sound throughout the tree: a table
/// row stands only directly below a table, the children of a table are
/// rows, at least one where the table has a column header, and a code block
/// holds at most one span, a text span.
pub open spec fn sound(b: BlockView) -> bool
    decreases b, 1nat,
{
    match b.var {
        Var::TableRow { .. } => false,
        Var::Code { code } => code.rich_text@.len() <= 1 && all_text(code.rich_text@),
        Var::Table { table } => b.children is Some ==> all_rows(b.children->0) && head_rows(table)
            <= b.children->0.len(),
        _ => match b.children {
            Some(c) => forest_sound(c),
            None => true,
        },
    }
}

/// Whether every tree is sound.
pub open spec fn forest_sound(s: Seq<BlockView>) -> bool
    decreases s, 0nat,
{
    forall|i: int| 0 <= i < s.len() ==> sound(#[trigger] s[i])
}

/// A grouped and sound tree can be converted.
pub proof fn lemma_grouped_sound_block_convertible(b: BlockView)
    requires
        grouped(b),
        sound(b),
    ensures
        convertible(b),
    decreases b, 1nat,
{
    match b.var {
        Var::BulletedList | Var::NumberedList => {
            let c = b.children->0;
            assert forall|i: int| 0 <= i < c.len() implies item_convertible(#[trigger] c[i]) by {
                assert(entry_of(b.var, c[i]) && below_grouped(c[i].children));
                assert(sound(c[i]));
                match c[i].children {
                    Some(cc) => {
                        lemma_grouped_sound_convertible(cc);
                    },
                    None => {},
                }
            }
        },
        Var::Quote { .. } => {
            match b.children {
                Some(c) => {
                    lemma_grouped_sound_convertible(c);
                },
                None => {},
            }
        },
        _ => {},
    }
}

/// Grouped and sound trees can be converted.
pub proof fn lemma_grouped_sound_convertible(s: Seq<BlockView>)
    requires
        forest_grouped(s),
        forest_sound(s),
    ensures
        forest_convertible(s),
    decreases s, 0nat,
{
    assert forall|i: int| 0 <= i < s.len() implies convertible(#[trigger] s[i]) by {
        lemma_grouped_sound_block_convertible(s[i]);
    }
}

/// Flattening keeps the rows of a table: as many, and rows all.
pub proof fn lemma_flatten_rows(c: Seq<BlockView>)
    requires
        all_rows(c),
    ensures
        all_rows(flatten_forest(c)),
        flatten_forest(c).len() == c.len(),
    decreases c.len(),
{
    if c.len() > 0 {
        assert forall|i: int| 0 <= i < c.drop_last().len() implies (#[trigger] c.drop_last()[i]).var is TableRow by {
            assert(c.drop_last()[i] == c[i]);
        }
        lemma_flatten_rows(c.drop_last());
        assert(c.last().var is TableRow);
        assert(flatten_block(c.last()).len() == 1);
        assert(flatten_block(c.last())[0].var is TableRow);
    }
}

/// Grouping keeps the rows of a table: as many, and rows all.
pub proof fn lemma_group_rows(c: Seq<BlockView>)
    requires
        all_rows(c),
    ensures
        all_rows(group_forest(c)),
        group_forest(c).len() == c.len(),
    decreases c.len(),
{
    if c.len() > 0 {
        assert forall|i: int| 0 <= i < c.drop_last().len() implies (#[trigger] c.drop_last()[i]).var is TableRow by {
            assert(c.drop_last()[i] == c[i]);
        }
        lemma_group_rows(c.drop_last());
        assert(c.last().var is TableRow);
        let acc = group_forest(c.drop_last());
        let item = group_block(c.last());
        assert(item.var is TableRow);
        if acc.len() > 0 {
            assert(acc.last().var is TableRow);
        }
        assert(emit(acc, item) == acc.push(item));
    }
}

/// Flattening a sound tree gives sound trees.
pub proof fn lemma_flatten_block_sound(b: BlockView)
    requires
        sound(b),
    ensures
        forest_sound(flatten_block(b)),
    decreases b, 1nat,
{
    match b.children {
        None => {},
        Some(c) => {
            match b.var {
                Var::Table { table } => {
                    lemma_flatten_rows(c);
                },
                Var::Code { .. } => {},
                Var::TableRow { .. } => {},
                _ => {
                    lemma_flatten_sound(c);
                },
            }
        },
    }
}

/// Flattening sound trees gives sound trees.
pub proof fn lemma_flatten_sound(s: Seq<BlockView>)
    requires
        forest_sound(s),
    ensures
        forest_sound(flatten_forest(s)),
    decreases s, 0nat,
{
    if s.len() > 0 {
        assert forall|i: int| 0 <= i < s.drop_last().len() implies sound(#[trigger] s.drop_last()[i]) by {
            assert(s.drop_last()[i] == s[i]);
        }
        lemma_flatten_sound(s.drop_last());
        lemma_flatten_block_sound(s.last());
    }
}

/// Grouping below a sound tree leaves it sound.
pub proof fn lemma_group_block_sound(b: BlockView)
    requires
        sound(b),
    ensures
        sound(group_block(b)),
    decreases b, 1nat,
{
    match b.children {
        None => {},
        Some(c) => {
            match b.var {
                Var::Table { table } => {
                    lemma_group_rows(c);
                },
                Var::Code { .. } => {},
                Var::TableRow { .. } => {},
                _ => {
                    lemma_group_sound(c);
                },
            }
        },
    }
}

/// One step of the grouping walk keeps the trees sound.
pub proof fn lemma_emit_sound(acc: Seq<BlockView>, item: BlockView)
    requires
        forest_sound(acc),
        sound(item),
    ensures
        forest_sound(emit(acc, item)),
{
    if acc.len() > 0 && gathers(acc.last(), item) {
        let last = acc.last();
        let kids = last.children->0.push(item);
        let merged = BlockView { children: Some(kids), ..last };
        assert(sound(last));
        assert forall|i: int| 0 <= i < kids.len() implies sound(#[trigger] kids[i]) by {
            if i < kids.len() - 1 {
                assert(kids[i] == last.children->0[i]);
            }
        }
        assert(sound(merged));
    } else if item.var.list_item() {
        let c = container_for(item);
        assert(forest_sound(seq![item]));
        assert(sound(c));
    }
}

/// Grouping sound trees gives sound trees.
pub proof fn lemma_group_sound(s: Seq<BlockView>)
    requires
        forest_sound(s),
    ensures
        forest_sound(group_forest(s)),
    decreases s, 0nat,
{
    if s.len() > 0 {
        assert forall|i: int| 0 <= i < s.drop_last().len() implies sound(#[trigger] s.drop_last()[i]) by {
            assert(s.drop_last()[i] == s[i]);
        }
        lemma_group_sound(s.drop_last());
        lemma_group_block_sound(s.last());
        lemma_emit_sound(group_forest(s.drop_last()), group_block(s.last()));
    }
}

/// A page put together from fetched trees with sound tables and code blocks
/// can be converted.
pub proof fn lemma_normalized_convertible(s: Seq<BlockView>)
    requires
        forest_raw(s),
        forest_sound(s),
    ensures
        forest_convertible(group_forest(flatten_forest(s))),
{
    lemma_normalized_grouped(s);
    lemma_flatten_sound(s);
    lemma_group_sound(flatten_forest(s));
    lemma_grouped_sound_convertible(group_forest(flatten_forest(s)));
}

} // verus!
