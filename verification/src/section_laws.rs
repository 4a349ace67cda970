//! What holds of a section whatever is done to it.
use vstd::prelude::*;

use crate::animation::AnimationKind;
use crate::axis::AxisMap;
use crate::config::Options;
use crate::geometry::Size;
use crate::order::{law_sorting, lemma_sorted_len, sorted_upto};
use crate::scalar::{law_pixels_are_ordered, num, Pixels, Scalar};
use crate::section::{axis_of, lemma_section_tiles, SectionView};
use crate::section_edit::{
    beside_idx, lemma_beside, lemma_children_within, lemma_extend, lemma_leaf_swap_wf, lemma_replaced_leaves,
    lemma_row,
};
use crate::section_resize::{auto_heights, keyed_heights, kept_weight};
use crate::section_size::{lemma_with_sizes, Work};
use crate::space_display::lemma_active_layout;
use crate::space_remove::lemma_weight_reset;
use crate::tab_header::TabHeaderView;
use crate::tile::Tile;
use crate::tile_node::{ChildSpan, Layout, SplitChildData, Tree};
use crate::tree_edit::{
    lemma_activated_path, lemma_activated_wf, lemma_inserted_wf, lemma_leaf_swap_keeps_paths,
    lemma_without_leaf_sane,
};
use crate::tree_layout::Measures;
use crate::tree_leaves::{
    lemma_inserted_leaves, lemma_leaves_before_leaf, lemma_node_at_replaced, lemma_without_leaf,
};
use crate::tree_simplify::law_simplifying_keeps_tiles;
use crate::tree_walk::{
    lemma_leaf_paths, lemma_node_wf, lemma_parent, lemma_wf_is_sane, lemma_with_node_wf,
};

verus! {

/// Exchanging a node for one with the same active leaf keeps the active leaf.
pub proof fn lemma_same_active<N>(tree: Tree<N>, path: Seq<usize>, node: Tree<N>)
    requires
        tree.has_path(path),
        node.active_leaf() == tree.node(path).active_leaf(),
    ensures
        tree.with_node(path, node).active_leaf() == tree.active_leaf(),
    decreases path.len(),
{
    if path.len() > 0 {
        lemma_same_active(tree->children[path[0] as int], path.skip(1), node);
    }
}

/// A path is a beginning of another one if its first step is and the rest is.
proof fn lemma_prefix_step(path: Seq<usize>, first: usize, rest: Seq<usize>)
    requires
        path.len() > 0,
    ensures
        path.is_prefix_of(seq![first] + rest) <==> path[0] == first && path.skip(1).is_prefix_of(
            rest,
        ),
{
    let whole = seq![first] + rest;
    if path.is_prefix_of(whole) {
        assert(path[0] == whole.subrange(0, path.len() as int)[0]);
        assert(path.skip(1) =~= rest.subrange(0, path.len() - 1)) by {
            assert forall|i: int| 0 <= i < path.len() - 1 implies path.skip(1)[i] == rest.subrange(
                0,
                path.len() - 1,
            )[i] by {
                assert(path[i + 1] == whole.subrange(0, path.len() as int)[i + 1]);
            }
        }
    }
    if path[0] == first && path.skip(1).is_prefix_of(rest) {
        assert(path =~= whole.subrange(0, path.len() as int)) by {
            assert forall|i: int| 0 <= i < path.len() implies path[i] == whole[i] by {
                if i > 0 {
                    assert(path.skip(1)[i - 1] == rest.subrange(0, path.len() - 1)[i - 1]);
                }
            }
        }
    }
}

/// Exchanging a node that the active leaf is below makes the active leaf of the new node active.
proof fn lemma_exchanged_active<N>(tree: Tree<N>, path: Seq<usize>, node: Tree<N>)
    requires
        tree.wf(),
        tree.has_path(path),
    ensures
        tree.with_node(path, node).active_leaf() == if path.is_prefix_of(tree.active_path()) {
            node.active_leaf()
        } else {
            tree.active_leaf()
        },
    decreases path.len(),
{
    if path.len() > 0 {
        let children = tree->children;
        let active = tree->active_idx;
        lemma_prefix_step(path, active, children[active as int].active_path());
        assert(children[path[0] as int].wf());
        lemma_exchanged_active(children[path[0] as int], path.skip(1), node);
    } else {
        assert(path =~= tree.active_path().subrange(0, 0));
    }
}

impl<N: Scalar> SectionView<N> {
    /// Whether a tab that is added to the tile `target_idx` is seen at once, though it is not
    /// activated: it takes the place of the active tile among its tabs, or of the target itself.
    pub open spec fn shows_tab_beside(self, target_idx: usize) -> bool {
        target_idx < self.tiles().len() && {
            let path = self.root.leaf_paths()[target_idx as int];
            let at = if self.root.node(path.drop_last()).is_tabbed() {
                path.drop_last()
            } else {
                path
            };
            at.is_prefix_of(self.root.active_path())
        }
    }
}

/// A leaf that is added beside another one without being activated leaves the active leaf active,
/// unless it is a tab among tabs that are seen.
#[verifier::spinoff_prover]
proof fn lemma_beside_active<N: Scalar>(
    tree: Tree<N>,
    path: Seq<usize>,
    layout: Layout,
    header: Option<TabHeaderView<N>>,
    new: (Tree<N>, SplitChildData<N>),
    place_after: bool,
)
    requires
        tree.wf(),
        tree.has_path(path),
        tree.node(path) is Leaf,
        path.len() > 0,
        tree.leaves().len() < usize::MAX,
    ensures
        tree.with_beside(path, layout, header, new, place_after, false).0.active_leaf() == {
            let at = if tree.node(path.drop_last()).is_tabbed() {
                path.drop_last()
            } else {
                path
            };
            if layout.spec_is_tabbing() && at.is_prefix_of(tree.active_path()) {
                new.0.active_leaf()
            } else {
                tree.active_leaf()
            }
        },
{
    let parent_path = path.drop_last();
    lemma_parent(tree, path);
    lemma_node_wf(tree, parent_path);
    lemma_children_within(tree, parent_path);
    let parent = tree.node(parent_path);
    let fits = if layout.spec_is_tabbing() {
        parent.is_tabbed()
    } else {
        parent.layout() == Some(layout)
    };
    if fits {
        let idx = path.last() + (if place_after {
            1int
        } else {
            0int
        });
        let active = parent.active_idx();
        let moved = if layout.spec_is_tabbing() {
            idx as usize
        } else if active >= idx {
            (active + 1) as usize
        } else {
            active
        };
        let node = parent.with_inserted(idx, new.0, new.1, moved);
        if layout.spec_is_tabbing() {
            assert(node->children[idx] == new.0);
            lemma_exchanged_active(tree, parent_path, node);
        } else {
            assert(node->children[moved as int] == parent->children[active as int]);
            lemma_same_active(tree, parent_path, node);
        }
    } else {
        let node = Tree::paired(
            layout,
            (tree.node(path), SplitChildData::spec_new_auto()),
            new,
            place_after,
            layout.spec_is_tabbing(),
            header,
        );
        if layout.spec_is_tabbing() {
            lemma_exchanged_active(tree, path, node);
        } else {
            lemma_same_active(tree, path, node);
        }
    }
}

/// A tile that is added beside another one, in a split or as a tab, comes to stand right after or
/// right before it, and all others keep their order. It is the active one afterwards if it is to
/// be activated, or if it is a tab among tabs that are seen; otherwise the one that was active stays
/// active.
#[verifier::spinoff_prover]
pub proof fn law_tile_is_added_beside<N: Scalar>(
    before: Work<N>,
    options: Options<N>,
    target_idx: usize,
    tile: Tile<N>,
    layout: Layout,
    place_after: bool,
    activate: bool,
)
    requires
        before.section.wf(),
        before.section.tiles().len() < usize::MAX,
    ensures
        before.add_beside(
            options,
            target_idx,
            tile,
            layout,
            place_after,
            activate,
        ).section.tiles() == before.section.tiles().insert(
            beside_idx(before.section.tiles().len() as int, target_idx, place_after),
            before.section.adopted(options.layout, tile),
        ),
        before.add_beside(
            options,
            target_idx,
            tile,
            layout,
            place_after,
            activate,
        ).section.root.active_leaf() == if activate || (layout.spec_is_tabbing()
            && before.section.shows_tab_beside(target_idx)) {
            before.section.adopted(options.layout, tile)
        } else {
            before.section.root.active_leaf()
        },
{
    reveal(Work::add_beside);
    let section = before.section;
    let tile = section.adopted(options.layout, tile);
    let slot = section.slot_for(options.layout, tile);
    let leaf = Tree::Leaf(tile);
    let header = if layout.spec_is_tabbing() {
        Some(TabHeaderView::fresh(options.layout.tab_header))
    } else {
        None
    };
    lemma_section_tiles(section, options.layout);
    lemma_wf_is_sane(section.root);
    lemma_leaf_paths(section.root);
    lemma_children_within(section.root, Seq::empty());
    let (root, path) = section.root_with_beside(
        options,
        target_idx,
        tile,
        layout,
        place_after,
        activate,
    );
    match section.root.path_for_leaf_index(target_idx) {
        Some(target) => {
            lemma_leaves_before_leaf(section.root, target_idx as int);
            lemma_beside(
                section.root,
                target,
                layout,
                header,
                tile,
                slot,
                place_after,
                activate,
            );
            lemma_beside_active(section.root, target, layout, header, (leaf, slot), place_after);
        },
        None => {
            let idx = section.root.child_count() as usize;
            let active = section.root.active_idx();
            lemma_inserted_wf(section.root, idx as int, leaf, slot, active);
            lemma_inserted_leaves(section.root, idx as int, leaf, slot, active);
            assert(leaf.leaves() =~= seq![tile]);
            assert(root.has_path(Seq::empty()));
            lemma_extend(root, Seq::empty(), idx);
            assert(Seq::<usize>::empty().push(idx) =~= seq![idx]);
            let children = section.root->children;
            assert(children.skip(idx as int) =~= Seq::empty());
            assert(root.leaves() =~= section.tiles().push(tile));
        },
    }
    lemma_activated_wf(root, path);
    lemma_activated_path(root, path);
    let shown = if activate {
        root.activated(path)
    } else {
        root
    };
    crate::tree_edit::lemma_activated_leaves(root, path);
    law_simplifying_keeps_tiles(shown);
    lemma_wf_is_sane(shown);
    crate::section_edit::lemma_normalized(shown);
    lemma_with_sizes(section.with_root(shown.normalized()), options);
}

/// A tile that is added as a row of its own comes to stand among the tiles where that row is, and
/// all others keep their order. It is the active one afterwards if it is to be activated; otherwise
/// the one that was active stays active.
#[verifier::spinoff_prover]
pub proof fn law_tile_is_added_as_row<N: Scalar>(
    before: Work<N>,
    options: Options<N>,
    leaf_idx: usize,
    tile: Tile<N>,
    activate: bool,
)
    requires
        before.section.wf(),
        before.section.tiles().len() < usize::MAX,
    ensures
        ({
            let adopted = before.section.adopted(options.layout, tile);
            let (root, row) = before.section.root_with_row(
                options.layout,
                leaf_idx,
                adopted,
                activate,
            );
            before.add_tile_at(options, leaf_idx, tile, activate).section.tiles()
                == before.section.tiles().insert(
                Tree::forest_leaves(root->children, row as int).len() as int,
                adopted,
            )
        }),
        before.add_tile_at(options, leaf_idx, tile, activate).section.root.active_leaf()
            == if activate {
            before.section.adopted(options.layout, tile)
        } else {
            before.section.root.active_leaf()
        },
{
    reveal(Work::add_tile_at);
    let section = before.section;
    let tile = section.adopted(options.layout, tile);
    lemma_row(section, options.layout, leaf_idx, tile, activate);
    lemma_section_tiles(section, options.layout);
    lemma_children_within(section.root, Seq::empty());
    let (root, idx) = section.root_with_row(options.layout, leaf_idx, tile, activate);
    if activate {
        assert(root.active_idx() == idx);
        assert(root.active_leaf() == Tree::Leaf(tile).active_leaf());
    } else if section.root.is_main_split() {
        assert(root->children[root.active_idx() as int] == section.root);
    } else {
        assert(root->children[root.active_idx() as int]
            == section.root->children[section.root.active_idx() as int]);
    }
    let added = SectionView {
        root,
        props: if section.root.is_tabbed() {
            section.props
        } else {
            crate::section::SectionProps {
                is_pending_fullscreen: false,
                is_pending_maximized: false,
                ..section.props
            }
        },
    };
    lemma_with_sizes(added, options);
}

/// Swapping two tiles of a section exchanges them and nothing else: every other leaf keeps its
/// tile, and all leaves stay where they are in the tree.
#[verifier::spinoff_prover]
pub proof fn law_swapping_leaves_exchanges_tiles<N: Scalar>(
    before: Work<N>,
    options: Options<N>,
    a: usize,
    b: usize,
)
    requires
        before.section.wf(),
        a < before.section.tiles().len(),
        b < before.section.tiles().len(),
        a != b,
    ensures
        ({
            let after = before.swap_leaves(options, a, b).section;
            let tiles = before.section.tiles();
            &&& after.tiles() == tiles.update(a as int, tiles[b as int]).update(
                b as int,
                tiles[a as int],
            )
            &&& after.root.leaf_paths() == before.section.root.leaf_paths()
            &&& after.props == before.section.props
        }),
{
    let section = before.section;
    let tree = section.root;
    lemma_wf_is_sane(tree);
    lemma_leaf_paths(tree);
    let pa = tree.leaf_paths()[a as int];
    let pb = tree.leaf_paths()[b as int];
    let tile_a = tree.node(pa)->Leaf_0;
    let tile_b = tree.node(pb)->Leaf_0;
    let mid = tree.with_node(pa, Tree::Leaf(tile_b));
    lemma_replaced_leaves(tree, a as int, tile_b);
    lemma_with_node_wf(tree, pa, Tree::Leaf(tile_b));
    lemma_leaf_swap_keeps_paths(tree, pa, tile_b);
    lemma_wf_is_sane(mid);
    lemma_replaced_leaves(mid, b as int, tile_a);
    lemma_leaf_paths(mid);
    lemma_leaf_swap_keeps_paths(mid, pb, tile_a);
    lemma_leaf_swap_wf(tree, pa, pb);
    lemma_with_sizes(section.with_root(tree.with_swapped_leaves(pa, pb)), options);
}

/// When heights become automatic, the median height gets weight one: every child of that height,
/// and there is one, has it. Stated in whole pixels, for a median that is not zero.
#[verifier::spinoff_prover]
pub proof fn law_median_height_has_weight_one(data: Seq<SplitChildData<Pixels>>)
    requires
        data.len() > 0,
        ({
            let sorted = sorted_upto(keyed_heights(data), data.len() as int);
            0 < sorted[sorted.len() as int / 2].key.value
        }),
    ensures
        ({
            let sorted = sorted_upto(keyed_heights(data), data.len() as int);
            let median = sorted[sorted.len() as int / 2].key;
            &&& exists|i: int| 0 <= i < data.len() && #[trigger] data[i].size.h == median
            &&& forall|i: int|
                0 <= i < data.len() && (#[trigger] data[i]).size.h == median ==> auto_heights(
                    data,
                )[i].span == (ChildSpan::Auto { weight: num::<Pixels>(1) })
        }),
{
    broadcast use vstd::seq_lib::group_to_multiset_ensures;

    let keys = keyed_heights(data);
    let n = data.len() as int;
    law_pixels_are_ordered();
    law_sorting(keys, n);
    lemma_sorted_len(keys, n);
    let sorted = sorted_upto(keys, n);
    let mid = sorted.len() as int / 2;
    let median = sorted[mid].key;
    assert(keys.take(n) =~= keys);
    assert(sorted.contains(sorted[mid]));
    assert(keys.to_multiset().count(sorted[mid]) > 0);
    assert(keys.contains(sorted[mid]));
    let i = choose|i: int| 0 <= i < keys.len() && keys[i] == sorted[mid];
    assert(data[i].size.h == median);
    let m = median.value as int;
    assert(m / m == 1) by (nonlinear_arith)
        requires
            m > 0,
    ;
    assert(kept_weight(median, median) == num::<Pixels>(1));
}

/// Sizes change no node.
proof fn lemma_sized_tidy<N: Scalar>(tree: Tree<N>, available: Size<N>, measures: Measures<N>)
    requires
        tree.tidy(),
    ensures
        tree.sized(available, measures).tidy(),
    decreases tree,
{
    if let Tree::Internal { children, .. } = tree {
        let new = tree.sized(available, measures);
        let sizes = tree.child_sizes(available, measures);
        assert forall|i: int| 0 <= i < new->children.len() implies (
        #[trigger] new->children[i]).tidy() && (new->children[i] is Internal
            ==> new->children[i]->children.len() >= 2) by {
            assert(children[i].tidy());
            lemma_sized_tidy(children[i], sizes[i], measures);
        }
    }
}

/// Activating a leaf changes no node.
proof fn lemma_activated_tidy<N: Scalar>(tree: Tree<N>, path: Seq<usize>)
    requires
        tree.tidy(),
        tree.has_path(path),
    ensures
        tree.activated(path).tidy(),
        tree is Internal ==> tree.activated(path) is Internal && tree.activated(
            path,
        )->children.len() == tree->children.len(),
        tree is Leaf ==> tree.activated(path) is Leaf,
    decreases path.len(),
{
    if path.len() > 0 {
        let children = tree->children;
        lemma_activated_tidy(children[path[0] as int], path.skip(1));
        let new = tree.activated(path)->children;
        assert forall|i: int| 0 <= i < new.len() implies (#[trigger] new[i]).tidy() && (
        new[i] is Internal ==> new[i]->children.len() >= 2) by {
            assert(children[i].tidy());
            if i != path[0] {
                assert(new[i] == children[i]);
            }
        }
    }
}

/// Requesting sizes leaves a tidy tree tidy.
pub proof fn law_sizes_keep_trees_tidy<N: Scalar>(section: SectionView<N>, options: Options<N>)
    requires
        section.root.tidy(),
    ensures
        section.with_sizes(options).root.tidy(),
{
    let layout = options.layout;
    lemma_sized_tidy(section.root, section.available_size(layout), section.measures(layout));
}

/// Whatever changes the shape of a tree leaves it tidy, whatever it was before: a tile that is
/// added beside another one, a tile that is taken out, and another layout of a container.
#[verifier::spinoff_prover]
pub proof fn law_reshaping_leaves_tidy_trees<N: Scalar>(
    before: Work<N>,
    options: Options<N>,
    idx: usize,
    tile: Tile<N>,
    layout: Layout,
    place_after: bool,
    activate: bool,
    transaction: u64,
    kind: AnimationKind,
)
    requires
        before.section.wf(),
        before.section.tiles().len() < usize::MAX,
    ensures
        before.add_beside(
            options,
            idx,
            tile,
            layout,
            place_after,
            activate,
        ).section.root.tidy(),
        before.section.with_active_layout(layout, options.layout.tab_header).root.tidy(),
        idx < before.section.tiles().len() && before.section.tiles().len() > 1
            ==> before.take_tile(options, idx, transaction, kind).section.root.tidy(),
{
    let section = before.section;
    lemma_added_tidy(before, options, idx, tile, layout, place_after, activate);
    lemma_active_layout(section, layout, options.layout.tab_header);
    let path = section.active_parent();
    lemma_normalized_tidy(
        section.root.with_node(
            path,
            section.root.node(path).relaid(layout, options.layout.tab_header),
        ),
    );
    if idx < section.tiles().len() && section.tiles().len() > 1 {
        reveal(Work::take_tile);
        lemma_wf_is_sane(section.root);
        lemma_leaf_paths(section.root);
        let path = section.root.leaf_paths()[idx as int];
        lemma_without_leaf(section.root, idx as int);
        lemma_without_leaf_sane(section.root, path);
        lemma_normalized_tidy(section.root.without_leaf(path));
        crate::section_edit::lemma_normalized(section.root.without_leaf(path));
        let rest = section.without_tile(idx);
        lemma_weight_reset(rest);
        let rest = rest.with_weight_reset();
        assert(rest.root.tidy());
        lemma_wf_is_sane(rest.root);
        lemma_leaf_paths(rest.root);
        law_sizes_keep_trees_tidy(rest, options);
        if idx > 0 && idx - 1 < rest.tiles().len() {
            let previous = rest.root.leaf_paths()[idx - 1];
            lemma_activated_tidy(rest.root, previous);
            law_sizes_keep_trees_tidy(rest.with_root(rest.root.activated(previous)), options);
        }
    }
}

/// A tree in its simplest shape is tidy.
proof fn lemma_normalized_tidy<N: Scalar>(tree: Tree<N>)
    requires
        tree.sane(),
        tree is Internal,
        0 < tree.leaves().len() <= usize::MAX,
    ensures
        tree.normalized().tidy(),
{
    crate::tree_simplify::lemma_simplified_wf(tree);
    crate::tree_simplify::lemma_collapsed(tree.simplified());
}

#[verifier::spinoff_prover]
proof fn lemma_added_tidy<N: Scalar>(
    before: Work<N>,
    options: Options<N>,
    target_idx: usize,
    tile: Tile<N>,
    layout: Layout,
    place_after: bool,
    activate: bool,
)
    requires
        before.section.wf(),
        before.section.tiles().len() < usize::MAX,
    ensures
        before.add_beside(
            options,
            target_idx,
            tile,
            layout,
            place_after,
            activate,
        ).section.root.tidy(),
{
    reveal(Work::add_beside);
    let section = before.section;
    let tile = section.adopted(options.layout, tile);
    let slot = section.slot_for(options.layout, tile);
    let leaf = Tree::Leaf(tile);
    let header = if layout.spec_is_tabbing() {
        Some(TabHeaderView::fresh(options.layout.tab_header))
    } else {
        None
    };
    lemma_section_tiles(section, options.layout);
    lemma_wf_is_sane(section.root);
    lemma_leaf_paths(section.root);
    lemma_children_within(section.root, Seq::empty());
    let (root, path) = section.root_with_beside(
        options,
        target_idx,
        tile,
        layout,
        place_after,
        activate,
    );
    match section.root.path_for_leaf_index(target_idx) {
        Some(target) => {
            lemma_beside(
                section.root,
                target,
                layout,
                header,
                tile,
                slot,
                place_after,
                activate,
            );
        },
        None => {
            let idx = section.root.child_count() as usize;
            let active = section.root.active_idx();
            lemma_inserted_wf(section.root, idx as int, leaf, slot, active);
            lemma_inserted_leaves(section.root, idx as int, leaf, slot, active);
            assert(leaf.leaves() =~= seq![tile]);
            assert(root.has_path(Seq::empty()));
            lemma_extend(root, Seq::empty(), idx);
            assert(Seq::<usize>::empty().push(idx) =~= seq![idx]);
        },
    }
    lemma_activated_wf(root, path);
    crate::tree_edit::lemma_activated_leaves(root, path);
    let shown = if activate {
        root.activated(path)
    } else {
        root
    };
    lemma_wf_is_sane(shown);
    lemma_normalized_tidy(shown);
    law_sizes_keep_trees_tidy(section.with_root(shown.normalized()), options);
}

/// A row that is added to a tidy tree leaves it tidy, unless the tree is a single tile in a split
/// along the main axis: that split is then wrapped as it is.
#[verifier::spinoff_prover]
pub proof fn law_rows_keep_trees_tidy<N: Scalar>(
    before: Work<N>,
    options: Options<N>,
    leaf_idx: usize,
    tile: Tile<N>,
    activate: bool,
)
    requires
        before.section.wf(),
        before.section.tiles().len() < usize::MAX,
        before.section.root.tidy(),
        before.section.root.is_main_split() ==> before.section.root.child_count() >= 2,
    ensures
        before.add_tile_at(options, leaf_idx, tile, activate).section.root.tidy(),
{
    reveal(Work::add_tile_at);
    let section = before.section;
    let tile = section.adopted(options.layout, tile);
    lemma_row(section, options.layout, leaf_idx, tile, activate);
    let (root, row) = section.root_with_row(options.layout, leaf_idx, tile, activate);
    let children = section.root->children;
    lemma_section_tiles(section, options.layout);
    lemma_wf_is_sane(section.root);
    lemma_leaf_paths(section.root);
    if !section.root.is_main_split() {
        if let Some(path) = section.root.path_for_leaf_index(leaf_idx) {
            assert(section.root.has_path(path));
        }
        assert(row <= children.len());
        assert(root->children == children.insert(row as int, Tree::Leaf(tile)));
    } else {
        assert(section.root.tidy());
    }
    assert forall|i: int| 0 <= i < root->children.len() implies (
    #[trigger] root->children[i]).tidy() && (root->children[i] is Internal
        ==> root->children[i]->children.len() >= 2) by {
        if !section.root.is_main_split() {
            if i < row {
                assert(root->children[i] == children[i]);
            } else if i > row {
                assert(root->children[i] == children[i - 1]);
            }
        }
    }
    let added = SectionView {
        root,
        props: if section.root.is_tabbed() {
            section.props
        } else {
            crate::section::SectionProps {
                is_pending_fullscreen: false,
                is_pending_maximized: false,
                ..section.props
            }
        },
    };
    law_sizes_keep_trees_tidy(added, options);
}

impl<N> Tree<N> {
    /// Whether the node shows tabs of which the one after `i` is a tile, the active one, and the
    /// one at `i` is another tile.
    pub open spec fn is_tab_pair(self, i: int, target: Tile<N>, tile: Tile<N>) -> bool {
        self matches Tree::Internal { layout, children, active_idx, .. } && {
            &&& layout.spec_is_tabbing()
            &&& 0 <= i
            &&& i + 1 < children.len()
            &&& children[i] == Tree::Leaf(target)
            &&& children[i + 1] == Tree::Leaf(tile)
            &&& active_idx == i + 1
        }
    }

    /// Whether a tile stands right after another one among the tabs of some container, as the
    /// active tab of it.
    pub open spec fn groups(self, target: Tile<N>, tile: Tile<N>) -> bool {
        exists|path: Seq<usize>, i: int|
            self.has_path(path) && #[trigger] self.node(path).is_tab_pair(i, target, tile)
    }

    /// The same, found from the root downwards.
    spec fn has_tab_pair(self, target: Tile<N>, tile: Tile<N>) -> bool
        decreases self,
    {
        match self {
            Tree::Leaf(_) => false,
            Tree::Internal { children, .. } => {
                ||| exists|i: int| self.is_tab_pair(i, target, tile)
                ||| exists|c: int|
                    0 <= c < children.len() && (#[trigger] children[c]).has_tab_pair(target, tile)
            },
        }
    }
}

/// A pair of tabs at the end of a path is in the tree.
proof fn lemma_pair_at<N>(
    tree: Tree<N>,
    path: Seq<usize>,
    i: int,
    target: Tile<N>,
    tile: Tile<N>,
)
    requires
        tree.has_path(path),
        tree.node(path).is_tab_pair(i, target, tile),
    ensures
        tree.has_tab_pair(target, tile),
    decreases path.len(),
{
    if path.len() > 0 {
        let child = tree->children[path[0] as int];
        lemma_pair_at(child, path.skip(1), i, target, tile);
        assert(tree->children[path[0] as int].has_tab_pair(target, tile));
    }
}

/// A pair of tabs in the tree is at the end of a path.
proof fn lemma_pair_path<N>(tree: Tree<N>, target: Tile<N>, tile: Tile<N>)
    requires
        tree.wf(),
        tree.has_tab_pair(target, tile),
    ensures
        tree.groups(target, tile),
    decreases tree,
{
    let children = tree->children;
    if exists|i: int| tree.is_tab_pair(i, target, tile) {
        let i = choose|i: int| tree.is_tab_pair(i, target, tile);
        let path = Seq::<usize>::empty();
        assert(tree.has_path(path) && tree.node(path).is_tab_pair(i, target, tile));
    } else {
        let c = choose|c: int|
            0 <= c < children.len() && (#[trigger] children[c]).has_tab_pair(target, tile);
        lemma_pair_path(children[c], target, tile);
        let (rest, i) = choose|path: Seq<usize>, i: int|
            children[c].has_path(path) && #[trigger] children[c].node(path).is_tab_pair(
                i,
                target,
                tile,
            );
        let path = seq![c as usize] + rest;
        assert(path.skip(1) =~= rest);
        assert(tree.has_path(path) && tree.node(path).is_tab_pair(i, target, tile));
    }
}

/// Activating the tab of a pair leaves the pair as it is.
proof fn lemma_pair_activated<N: Scalar>(
    tree: Tree<N>,
    path: Seq<usize>,
    i: int,
    target: Tile<N>,
    tile: Tile<N>,
)
    requires
        tree.has_path(path),
        tree.node(path).is_tab_pair(i, target, tile),
        i + 1 <= usize::MAX,
    ensures
        tree.activated(path.push((i + 1) as usize)).has_path(path),
        tree.activated(path.push((i + 1) as usize)).node(path).is_tab_pair(i, target, tile),
    decreases path.len(),
{
    let whole = path.push((i + 1) as usize);
    if path.len() > 0 {
        let child = tree->children[path[0] as int];
        lemma_pair_activated(child, path.skip(1), i, target, tile);
        assert(whole.skip(1) =~= path.skip(1).push((i + 1) as usize));
        assert(whole[0] == path[0]);
    } else {
        let child = tree->children[i + 1];
        assert(whole[0] == i + 1);
        assert(whole.skip(1) =~= Seq::<usize>::empty());
        assert(child.activated(whole.skip(1)) == child);
    }
}

/// Sizes leave pairs of tabs as they are.
proof fn lemma_pair_sized<N: Scalar>(
    tree: Tree<N>,
    available: Size<N>,
    measures: Measures<N>,
    target: Tile<N>,
    tile: Tile<N>,
)
    requires
        tree.has_tab_pair(target, tile),
    ensures
        tree.sized(available, measures).has_tab_pair(target, tile),
    decreases tree,
{
    let children = tree->children;
    let new = tree.sized(available, measures);
    let sizes = tree.child_sizes(available, measures);
    if exists|i: int| tree.is_tab_pair(i, target, tile) {
        let i = choose|i: int| tree.is_tab_pair(i, target, tile);
        assert(new->children[i] == children[i].sized(sizes[i], measures));
        assert(new->children[i + 1] == children[i + 1].sized(sizes[i + 1], measures));
        assert(new.is_tab_pair(i, target, tile));
    } else {
        let c = choose|c: int|
            0 <= c < children.len() && (#[trigger] children[c]).has_tab_pair(target, tile);
        lemma_pair_sized(children[c], sizes[c], measures, target, tile);
        assert(new->children[c].has_tab_pair(target, tile));
    }
}

/// A pair of tabs is in what is left of a node that has but one child.
proof fn lemma_pair_unwrapped<N>(node: Tree<N>, target: Tile<N>, tile: Tile<N>)
    requires
        node.has_tab_pair(target, tile),
    ensures
        node.unwrapped().has_tab_pair(target, tile),
{
    if node->children.len() == 1 {
        let c = choose|c: int|
            0 <= c < node->children.len() && (#[trigger] node->children[c]).has_tab_pair(
                target,
                tile,
            );
        assert(c == 0);
    }
}

/// A pair of tabs in a child is in one of the slots that the child takes.
#[verifier::spinoff_prover]
proof fn lemma_pair_merged<N>(
    node: Tree<N>,
    parent: Layout,
    slot: SplitChildData<N>,
    target: Tile<N>,
    tile: Tile<N>,
)
    requires
        node.has_tab_pair(target, tile),
    ensures
        exists|k: int|
            0 <= k < node.merged(parent, slot).len() && (#[trigger] node.merged(
                parent,
                slot,
            )[k]).0.has_tab_pair(target, tile),
{
    lemma_pair_unwrapped(node, target, tile);
    let inner = node.unwrapped();
    let slots = node.merged(parent, slot);
    if node->children.len() == 0 {
        assert(false);
    }
    if inner.merges_into(parent) {
        let c = choose|c: int|
            0 <= c < inner->children.len() && (#[trigger] inner->children[c]).has_tab_pair(
                target,
                tile,
            );
        assert(slots[c].0 == inner->children[c]);
    } else {
        assert(slots[0].0 == inner);
    }
}

/// Later slots leave the earlier ones where they are.
proof fn lemma_slots_grow<N>(
    layout: Layout,
    children: Seq<Tree<N>>,
    data: Seq<SplitChildData<N>>,
    from: int,
    upto: int,
    k: int,
)
    requires
        0 <= from <= upto <= children.len(),
        0 <= k < Tree::simplified_slots(layout, children, data, from).len(),
    ensures
        k < Tree::simplified_slots(layout, children, data, upto).len(),
        Tree::simplified_slots(layout, children, data, upto)[k] == Tree::simplified_slots(
            layout,
            children,
            data,
            from,
        )[k],
    decreases upto - from,
{
    if from < upto {
        lemma_slots_grow(layout, children, data, from, upto - 1, k);
    }
}

/// Simplifying leaves pairs of tabs as they are.
#[verifier::spinoff_prover]
proof fn lemma_pair_simplified<N>(tree: Tree<N>, target: Tile<N>, tile: Tile<N>)
    requires
        tree.has_tab_pair(target, tile),
        tree.sane(),
        tree.leaves().len() <= usize::MAX,
    ensures
        tree.simplified().has_tab_pair(target, tile),
    decreases tree,
{
    let (layout, children, data) = (tree->layout, tree->children, tree->data);
    let n = children.len() as int;
    let slots = Tree::simplified_slots(layout, children, data, n);
    let new = tree.simplified();
    if exists|i: int| tree.is_tab_pair(i, target, tile) {
        let i = choose|i: int| tree.is_tab_pair(i, target, tile);
        let before = Tree::simplified_slots(layout, children, data, i);
        let k = before.len() as int;
        let with_target = Tree::simplified_slots(layout, children, data, i + 1);
        let with_tile = Tree::simplified_slots(layout, children, data, i + 2);
        assert(children[i].simplified() == children[i]);
        assert(children[i + 1].simplified() == children[i + 1]);
        assert(with_target =~= before.push((children[i], data[i])));
        assert(with_tile =~= with_target.push((children[i + 1], data[i + 1])));
        lemma_slots_grow(layout, children, data, i + 1, n, k);
        lemma_slots_grow(layout, children, data, i + 2, n, k + 1);
        crate::tree_simplify::lemma_simplified(tree);
        assert(new->children[k] == children[i]);
        assert(new->children[k + 1] == children[i + 1]);
        assert(slots.len() <= usize::MAX) by {
            assert(new->children.len() == slots.len());
        }
        assert(new.is_tab_pair(k, target, tile));
    } else {
        let c = choose|c: int|
            0 <= c < children.len() && (#[trigger] children[c]).has_tab_pair(target, tile);
        let child = children[c];
        crate::tree_simplify::lemma_forest_bound(children, c, n);
        lemma_pair_simplified(child, target, tile);
        let own = child.simplified().merged(layout, data[c]);
        lemma_pair_merged(child.simplified(), layout, data[c], target, tile);
        let k = choose|k: int|
            0 <= k < own.len() && (#[trigger] own[k]).0.has_tab_pair(target, tile);
        let before = Tree::simplified_slots(layout, children, data, c);
        let with_own = Tree::simplified_slots(layout, children, data, c + 1);
        assert(with_own[before.len() + k] == own[k]);
        lemma_slots_grow(layout, children, data, c + 1, n, before.len() + k);
        assert(new->children[before.len() + k] == own[k].0);
    }
}

/// Dropping roots that have but one node below them leaves pairs of tabs as they are.
proof fn lemma_pair_collapsed<N>(tree: Tree<N>, target: Tile<N>, tile: Tile<N>)
    requires
        tree.has_tab_pair(target, tile),
    ensures
        tree.collapsed().has_tab_pair(target, tile),
    decreases tree,
{
    if let Tree::Internal { children, .. } = tree {
        if children.len() == 1 && children[0] is Internal {
            lemma_pair_unwrapped(tree, target, tile);
            lemma_pair_collapsed(children[0], target, tile);
        }
    }
}

/// A tile that is grouped into tabs with another one stands right after it among the tabs of one
/// container, and is the active tab of that container, whether or not the container is activated.
#[verifier::spinoff_prover]
pub proof fn law_grouped_tile_is_the_active_tab<N: Scalar>(
    before: Work<N>,
    options: Options<N>,
    target_idx: usize,
    tile: Tile<N>,
    activate: bool,
)
    requires
        before.section.wf(),
        before.section.tiles().len() < usize::MAX,
        target_idx < before.section.tiles().len(),
    ensures
        before.add_beside(
            options,
            target_idx,
            tile,
            Layout::Tabbed,
            true,
            activate,
        ).section.root.groups(
            before.section.tiles()[target_idx as int],
            before.section.adopted(options.layout, tile),
        ),
{
    reveal(Work::add_beside);
    let section = before.section;
    let target = section.tiles()[target_idx as int];
    let tile = section.adopted(options.layout, tile);
    let slot = section.slot_for(options.layout, tile);
    let header = Some(TabHeaderView::fresh(options.layout.tab_header));
    lemma_section_tiles(section, options.layout);
    lemma_wf_is_sane(section.root);
    lemma_leaf_paths(section.root);
    let at = section.root.leaf_paths()[target_idx as int];
    let (root, path) = section.root_with_beside(
        options,
        target_idx,
        tile,
        Layout::Tabbed,
        true,
        activate,
    );
    lemma_beside(section.root, at, Layout::Tabbed, header, tile, slot, true, activate);
    lemma_parent(section.root, at);
    let parent_path = at.drop_last();
    let parent = section.root.node(parent_path);
    lemma_children_within(section.root, parent_path);
    lemma_extend(section.root, parent_path, at.last());
    assert(parent_path.push(at.last()) =~= at);
    let (p, i) = if parent.is_tabbed() {
        (parent_path, at.last() as int)
    } else {
        (at, 0int)
    };
    lemma_node_at_replaced(section.root, p, root.node(p));
    if parent.is_tabbed() {
        lemma_node_at_replaced(
            section.root,
            p,
            parent.with_inserted(i + 1, Tree::Leaf(tile), slot, (i + 1) as usize),
        );
    } else {
        lemma_node_at_replaced(
            section.root,
            p,
            Tree::paired(
                Layout::Tabbed,
                (section.root.node(at), SplitChildData::spec_new_auto()),
                (Tree::Leaf(tile), slot),
                true,
                true,
                header,
            ),
        );
    }
    assert(root.node(p).is_tab_pair(i, target, tile));
    assert(path == p.push((i + 1) as usize));
    lemma_activated_wf(root, path);
    crate::tree_edit::lemma_activated_leaves(root, path);
    lemma_pair_activated(root, p, i, target, tile);
    let shown = if activate {
        root.activated(path)
    } else {
        root
    };
    lemma_pair_at(shown, p, i, target, tile);
    lemma_wf_is_sane(shown);
    lemma_pair_simplified(shown, target, tile);
    lemma_pair_collapsed(shown.simplified(), target, tile);
    let done = section.with_root(shown.normalized());
    lemma_pair_sized(
        done.root,
        done.available_size(options.layout),
        done.measures(options.layout),
        target,
        tile,
    );
    lemma_pair_fresh(done.root, axis_of(options.layout), target, tile);
    crate::section_edit::lemma_normalized(shown);
    lemma_with_sizes(done, options);
    lemma_pair_path(done.with_sizes(options).root, target, tile);
}

/// Data brought up to date leaves pairs of tabs as they are.
proof fn lemma_pair_fresh<N: Scalar>(
    tree: Tree<N>,
    axis: AxisMap,
    target: Tile<N>,
    tile: Tile<N>,
)
    requires
        tree.has_tab_pair(target, tile),
    ensures
        tree.with_fresh_data(axis).has_tab_pair(target, tile),
{
    let new = tree.with_fresh_data(axis);
    if exists|i: int| tree.is_tab_pair(i, target, tile) {
        let i = choose|i: int| tree.is_tab_pair(i, target, tile);
        assert(new.is_tab_pair(i, target, tile));
    } else {
        let c = choose|c: int|
            0 <= c < tree->children.len() && (#[trigger] tree->children[c]).has_tab_pair(
                target,
                tile,
            );
        assert(new->children[c].has_tab_pair(target, tile));
    }
}

} // verus!
