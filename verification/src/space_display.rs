//! How sections show their windows: as splits, as tabs, and where tabs are.
use vstd::prelude::*;

use crate::animation::AnimationKind;
use crate::config::{Options, ScrollDirection, SectionDisplay, TabHeaderConfig};
use crate::scalar::Scalar;
use crate::section::{Section, SectionView};
use crate::section_edit::{
    lemma_normalized, lemma_swapped_bag, lemma_swapped_count, lemma_swapped_wf,
};
use crate::section_laws::lemma_same_active;
use crate::section_resize::lemma_with_same_node;
use crate::section_size::{lemma_with_sizes, work, Work};
use crate::section_state::{lemma_header_only, lemma_layout_only};
use crate::space::{lemma_after_wf, ScrollingSpace, SpaceView};
use crate::tile::{Outbox, TileEffect};
use crate::tile_node::{Layout, Tree};
use crate::tree_simplify::law_simplifying_keeps_tiles;
use crate::tree_walk::{
    lemma_active_path, lemma_node_wf, lemma_parent, lemma_wf_is_sane, lemma_with_node_wf,
    path_prefix,
};
use crate::windows::keeps_windows;

verus! {

impl<N: Scalar> Tree<N> {
    /// The node with another layout. A header that is new appears.
    pub open spec fn relaid(self, new_layout: Layout, config: TabHeaderConfig<N>) -> Self {
        let laid = self.with_layout(new_layout, config);
        if new_layout.spec_is_tabbing() && !self.is_tabbed() && self is Internal {
            laid.with_header(Some(laid.header()->0.opening(AnimationKind::WindowMovement)))
        } else {
            laid
        }
    }
}

impl<N: Scalar> SectionView<N> {
    /// The path to the node that holds the active window.
    pub open spec fn active_parent(self) -> Seq<usize> {
        self.root.active_path().drop_last()
    }

    /// The layout of the node that holds the active window.
    pub open spec fn active_layout(self) -> Layout {
        self.root.node(self.active_parent()).layout()->0
    }

    /// The section with another layout of the node that holds the active window.
    pub open spec fn with_active_layout(
        self,
        new_layout: Layout,
        config: TabHeaderConfig<N>,
    ) -> Self {
        let path = self.active_parent();
        self.with_root(
            self.root.with_node(path, self.root.node(path).relaid(new_layout, config)).normalized(),
        )
    }

    /// The child of the root that the active tab changes places with.
    pub open spec fn tab_beside(self, forwards: bool) -> usize {
        let active = self.root.active_idx();
        if forwards {
            if active + 1 < self.root.child_count() {
                (active + 1) as usize
            } else {
                active
            }
        } else if active > 0 {
            (active - 1) as usize
        } else {
            0
        }
    }
}

impl<N: Scalar> Work<N> {
    /// The active tab moved among the tabs.
    pub open spec fn move_tab(self, options: Options<N>, forwards: bool) -> Self {
        let section = self.section;
        let active = section.root.active_idx();
        let beside = section.tab_beside(forwards);
        if !section.root.is_tabbed() || beside == active {
            self
        } else {
            let root = section.root.with_swapped(active as int, beside as int).with_active_idx(
                beside,
            );
            self.with_section(section.with_root(root)).push(
                root.active_leaf().id,
                TileEffect::EnsureAlphaAnimatesTo1,
            ).sized(options, true)
        }
    }
}

/// The layout that tabs turn into, or that turns into tabs.
pub open spec fn toggled_layout(layout: Layout) -> Layout {
    if layout.spec_is_tabbing() {
        layout.spec_split_of_family()
    } else {
        Layout::Tabbed
    }
}

/// The other split, or the split that tabs turn into.
pub open spec fn other_split(layout: Layout) -> Layout {
    match layout {
        Layout::SplitH => Layout::SplitV,
        Layout::SplitV => Layout::SplitH,
        _ => layout.spec_split_of_family(),
    }
}

impl<N: Scalar> SpaceView<N> {
    /// A section that shows several windows at once leaves fullscreen and maximized.
    pub open spec fn unfilled(self) -> Self {
        let section = self.active();
        if !section.root.is_tabbed() && section.tiles().len() > 1 {
            let window = section.root.active_leaf().id;
            self.set_fullscreen(window, false).set_maximized(window, false)
        } else {
            self
        }
    }

    pub open spec fn set_section_display(self, display: SectionDisplay) -> Self {
        let active = self.props.active_section_idx as int;
        if self.sections.len() == 0 || self.active().root.display_mode() == display {
            self
        } else {
            let free = self.resize_cancelled(active);
            free.after(
                active,
                free.at(active).set_section_display(self.options, display).sized(
                    self.options,
                    true,
                ),
            ).unfilled()
        }
    }

    pub open spec fn toggled_display(self) -> SectionDisplay {
        if self.active().root.is_tabbed() {
            SectionDisplay::Normal
        } else {
            SectionDisplay::Tabbed
        }
    }

    /// The active section with another layout of the node that holds the active window.
    pub open spec fn active_relaid(self, new_layout: Layout) -> Self {
        let active = self.props.active_section_idx as int;
        let free = self.resize_cancelled(active);
        SpaceView {
            sections: self.sections.update(
                active,
                self.active().with_active_layout(new_layout, self.layout().tab_header),
            ),
            ..free
        }
    }

    pub open spec fn active_sized(self) -> Self {
        let active = self.props.active_section_idx as int;
        self.after(active, self.at(active).sized(self.options, true))
    }

    /// The node that holds the active window toggled between split and tabs. Where that is the
    /// root, the whole section is.
    pub open spec fn toggle_tabbed(self) -> Self {
        let section = self.active();
        if self.sections.len() == 0 {
            self
        } else if section.active_parent().len() == 0 {
            self.set_section_display(self.toggled_display())
        } else {
            self.active_relaid(toggled_layout(section.active_layout())).active_sized()
        }
    }

    pub open spec fn set_active_layout(self, new_layout: Layout) -> Self {
        if self.sections.len() == 0 {
            self
        } else {
            self.active_relaid(new_layout).unfilled().active_sized()
        }
    }

    pub open spec fn toggle_split_layout(self) -> Self {
        if self.sections.len() == 0 {
            self
        } else {
            self.set_active_layout(other_split(self.active().active_layout()))
        }
    }

    pub open spec fn move_tab(self, forwards: bool) -> Self {
        let active = self.props.active_section_idx as int;
        if self.sections.len() == 0 {
            self
        } else {
            self.after(active, self.at(active).move_tab(self.options, forwards))
        }
    }

    pub open spec fn center_section(self) -> Self {
        let active = self.props.active_section_idx as int;
        if self.sections.len() == 0 {
            self
        } else {
            self.view_sent_to_center(
                None,
                active,
                AnimationKind::HorizontalViewMovement,
            ).resize_cancelled(active)
        }
    }

    /// The section of a window centered, where it is the active one.
    pub open spec fn center_window(self, window: Option<u64>) -> Self {
        let col = match window {
            Some(window) => self.section_of(window)->0,
            None => self.props.active_section_idx,
        };
        if self.sections.len() > 0 && col == self.props.active_section_idx {
            self.center_section()
        } else {
            self
        }
    }
}

/// Another layout of the node that holds the active window changes no tile.
#[verifier::spinoff_prover]
pub proof fn lemma_active_layout<N: Scalar>(
    section: SectionView<N>,
    new_layout: Layout,
    config: TabHeaderConfig<N>,
)
    requires
        section.wf(),
    ensures
        section.root.has_path(section.active_parent()),
        section.root.node(section.active_parent()) is Internal,
        section.with_active_layout(new_layout, config).wf(),
        section.with_active_layout(new_layout, config).tiles() == section.tiles(),
        ({
            let path = section.active_parent();
            let root = section.root.with_node(
                path,
                section.root.node(path).relaid(new_layout, config),
            );
            &&& root.sane()
            &&& root is Internal
            &&& 0 < root.leaves().len() <= usize::MAX
        }),
{
    let path = section.active_parent();
    lemma_active_path(section.root);
    lemma_parent(section.root, section.root.active_path());
    lemma_node_wf(section.root, path);
    let node = section.root.node(path);
    lemma_layout_only(node, new_layout, config);
    let laid = node.with_layout(new_layout, config);
    if new_layout.spec_is_tabbing() && !node.is_tabbed() {
        lemma_header_only(laid, Some(laid.header()->0.opening(AnimationKind::WindowMovement)));
    }
    let new = node.relaid(new_layout, config);
    lemma_with_node_wf(section.root, path, new);
    lemma_with_same_node(section.root, path, new);
    let root = section.root.with_node(path, new);
    lemma_wf_is_sane(root);
    crate::tree_walk::lemma_has_leaf(section.root);
    lemma_normalized(root);
}

/// Exchanging a node leaves what is neither above nor below it.
#[verifier::spinoff_prover]
proof fn lemma_elsewhere<N>(tree: Tree<N>, path: Seq<usize>, node: Tree<N>, other: Seq<usize>)
    requires
        tree.has_path(path),
        tree.has_path(other),
        !path.is_prefix_of(other),
        !other.is_prefix_of(path),
    ensures
        tree.with_node(path, node).has_path(other),
        tree.with_node(path, node).node(other) == tree.node(other),
    decreases path.len(),
{
    if path.len() > 0 && other.len() > 0 && path[0] == other[0] {
        let a = path.skip(1);
        let b = other.skip(1);
        if a.is_prefix_of(b) {
            assert(path =~= other.take(path.len() as int)) by {
                assert forall|i: int| 0 <= i < path.len() implies path[i] == other[i] by {
                    if i > 0 {
                        assert(a[i - 1] == b.subrange(0, a.len() as int)[i - 1]);
                    }
                }
            }
        }
        if b.is_prefix_of(a) {
            assert(other =~= path.take(other.len() as int)) by {
                assert forall|i: int| 0 <= i < other.len() implies other[i] == path[i] by {
                    if i > 0 {
                        assert(b[i - 1] == a.subrange(0, b.len() as int)[i - 1]);
                    }
                }
            }
        }
        lemma_elsewhere(tree->children[path[0] as int], a, node, b);
    } else if path.len() == 0 {
        assert(path =~= other.take(0));
    } else if other.len() == 0 {
        assert(other =~= path.take(0));
    }
}

/// Another layout of the container that holds the active window changes that container only, and
/// of it only the layout and the header; what is neither above nor below it stays as it is. Then
/// superfluous containers are merged away.
#[verifier::spinoff_prover]
pub proof fn law_layout_changes_one_container<N: Scalar>(
    section: SectionView<N>,
    new_layout: Layout,
    config: TabHeaderConfig<N>,
    other: Seq<usize>,
)
    requires
        section.wf(),
        section.root.has_path(other),
        !section.active_parent().is_prefix_of(other),
        !other.is_prefix_of(section.active_parent()),
    ensures
        ({
            let path = section.active_parent();
            let container = section.root.node(path);
            let relaid = container.relaid(new_layout, config);
            let root = section.root.with_node(path, relaid);
            let after = section.with_active_layout(new_layout, config);
            &&& relaid.layout() == Some(new_layout)
            &&& relaid->children == container->children
            &&& relaid.child_data() == container.child_data()
            &&& relaid.active_idx() == container.active_idx()
            &&& root.node(other) == section.root.node(other)
            &&& after.root == root.normalized()
            &&& after.props == section.props
        }),
{
    let path = section.active_parent();
    lemma_active_layout(section, new_layout, config);
    lemma_elsewhere(
        section.root,
        path,
        section.root.node(path).relaid(new_layout, config),
        other,
    );
}

/// Another layout of the container that holds the active window keeps the tiles in their order and
/// leaves that window active.
pub proof fn law_layout_change_keeps_active_window<N: Scalar>(
    section: SectionView<N>,
    new_layout: Layout,
    config: TabHeaderConfig<N>,
)
    requires
        section.wf(),
    ensures
        section.with_active_layout(new_layout, config).tiles() == section.tiles(),
        section.with_active_layout(new_layout, config).root.active_leaf()
            == section.root.active_leaf(),
{
    let path = section.active_parent();
    lemma_active_layout(section, new_layout, config);
    lemma_node_wf(section.root, path);
    let node = section.root.node(path);
    let new = node.relaid(new_layout, config);
    lemma_layout_only(node, new_layout, config);
    let laid = node.with_layout(new_layout, config);
    if new_layout.spec_is_tabbing() && !node.is_tabbed() {
        lemma_header_only(laid, Some(laid.header()->0.opening(AnimationKind::WindowMovement)));
    }
    lemma_same_active(section.root, path, new);
    lemma_with_node_wf(section.root, path, new);
    law_simplifying_keeps_tiles(section.root.with_node(path, new));
}

/// Toggling a split twice gives it back.
pub proof fn law_toggling_split_twice(layout: Layout)
    requires
        !layout.spec_is_tabbing(),
    ensures
        other_split(other_split(layout)) == layout,
        other_split(layout) != layout,
        !other_split(layout).spec_is_tabbing(),
{
}

impl<N: Scalar> Section<N> {
    /// Changes the layout of the node that holds the active window.
    #[verifier::spinoff_prover]
    pub fn set_active_layout(&mut self, new_layout: Layout, config: TabHeaderConfig<N>)
        requires
            old(self)@.wf(),
        ensures
            final(self)@ == old(self)@.with_active_layout(new_layout, config),
            final(self)@.wf(),
            final(self)@.place() == old(self)@.place(),
            final(self)@.tiles() == old(self)@.tiles(),
    {
        proof {
            lemma_active_layout(self@, new_layout, config);
            lemma_active_path(self@.root);
            lemma_node_wf(self@.root, self@.active_parent());
            lemma_layout_only(self@.root.node(self@.active_parent()), new_layout, config);
        }
        let active_path = self.root.active_path();
        let path = path_prefix(&active_path, active_path.len() - 1);
        assert(path@ =~= active_path@.drop_last());
        let node = self.root.node_at_mut(&path);
        let was_tabbing = node.is_tabbed();
        node.set_layout(new_layout, config);
        if new_layout.is_tabbing() && !was_tabbing {
            if let Some(header) = node.take_header() {
                let mut header = header;
                header.start_open_animation(AnimationKind::WindowMovement);
                node.set_header(Some(header));
            }
        }
        self.normalize();
    }

    /// The layout of the node that holds the active window.
    pub fn active_layout(&self) -> (r: Layout)
        requires
            self@.wf(),
        ensures
            r == self@.active_layout(),
    {
        proof {
            lemma_active_path(self@.root);
            lemma_parent(self@.root, self@.root.active_path());
        }
        let active_path = self.root.active_path();
        let path = path_prefix(&active_path, active_path.len() - 1);
        assert(path@ =~= active_path@.drop_last());
        match self.root.node_at(&path).layout() {
            Some(layout) => layout,
            None => Layout::SplitV,
        }
    }

    /// Moves the active tab among the tabs.
    #[verifier::spinoff_prover]
    pub fn move_tab(&mut self, options: &Options<N>, forwards: bool, out: &mut Outbox<N>)
        requires
            old(self)@.wf(),
        ensures
            work(final(self)@, final(out)@) == work(old(self)@, old(out)@).move_tab(
                *options,
                forwards,
            ),
            final(self)@.wf(),
            final(self)@.place() == old(self)@.place(),
            final(self)@.windows() == old(self)@.windows(),
    {
        let ghost before = self@;
        if !self.is_tabbed() {
            return;
        }
        let active: usize = self.root.active_idx();
        let beside: usize = if forwards {
            if active < self.root.child_count() - 1 {
                active + 1
            } else {
                active
            }
        } else if active > 0 {
            active - 1
        } else {
            0
        };
        if beside == active {
            return;
        }
        self.root.swap_leaves(active, beside);
        self.root.set_active_idx(beside);
        proof {
            lemma_swapped_wf(before.root, active as int, beside as int, beside);
            lemma_swapped_count(before.root, active as int, beside as int, beside);
            lemma_swapped_bag(before.root, active as int, beside as int, beside);
        }
        let window: u64 = self.active_tile().id;
        out.push(window, TileEffect::EnsureAlphaAnimatesTo1);
        self.update_tile_sizes(options, true, out);
    }
}

impl<N: Scalar> ScrollingSpace<N> {
    /// Lets a section that shows several windows at once leave fullscreen and maximized.
    #[verifier::spinoff_prover]
    fn unfill(&mut self)
        requires
            old(self)@.wf(),
            old(self)@.sections.len() > 0,
        ensures
            final(self)@ == old(self)@.unfilled(),
            final(self)@.wf(),
            keeps_windows(old(self)@, final(self)@),
            final(self)@.sections.len() == old(self)@.sections.len(),
            final(self)@.props.active_section_idx == old(self)@.props.active_section_idx,
    {
        let active: usize = self.props.active_section_idx;
        assert(self@.sections[active as int] == self.sections@[active as int]@);
        assert(self@.sections[active as int].wf());
        if !self.sections[active].is_tabbed() && self.sections[active].tiles_len() > 1 {
            let tile = self.sections[active].active_tile();
            proof {
                lemma_active_window_found(self@, tile.id);
            }
            self.set_fullscreen(tile.id, false);
            proof {
                lemma_window_stays(old(self)@, self@, tile.id);
            }
            let ghost mid = self@;
            self.set_maximized(tile.id, false);
            proof {
                let col = mid.section_of(tile.id)->0 as int;
                crate::space::lemma_section_of(mid, tile.id, mid.sections.len() as int);
                assert(mid.made_single(col, tile.id, false).0.sections == mid.sections);
                assert(self@.sections.len() == mid.sections.len());
            }
        }
    }

    #[verifier::spinoff_prover]
    fn display_active(&mut self, display: SectionDisplay)
        requires
            old(self)@.wf(),
            old(self)@.sections.len() > 0,
        ensures
            final(self)@ == old(self)@.after(
                old(self)@.props.active_section_idx as int,
                old(self)@.at(old(self)@.props.active_section_idx as int).set_section_display(
                    old(self)@.options,
                    display,
                ).sized(old(self)@.options, true),
            ),
            final(self)@.wf(),
            keeps_windows(old(self)@, final(self)@),
            final(self)@.sections.len() == old(self)@.sections.len(),
    {
        let ghost before = self@;
        let active: usize = self.props.active_section_idx;
        assert(before.sections[active as int] == self.sections@[active as int]@);
        assert(before.sections[active as int].wf());
        self.sections[active].set_section_display(&self.options, display, &mut self.outbox);
        self.sections[active].update_tile_sizes(&self.options, true, &mut self.outbox);
        proof {
            let done = before.at(active as int).set_section_display(
                before.options,
                display,
            ).sized(before.options, true);
            assert(self@ == before.after(active as int, done));
            lemma_after_wf(before, active as int, done);
        }
    }

    /// Shows the windows of the active section all at once or as tabs.
    pub fn set_section_display(&mut self, display: SectionDisplay)
        requires
            old(self)@.wf(),
        ensures
            final(self)@ == old(self)@.set_section_display(display),
            final(self)@.wf(),
            keeps_windows(old(self)@, final(self)@),
    {
        if self.is_empty() {
            return;
        }
        let active: usize = self.props.active_section_idx;
        assert(self@.sections[active as int] == self.sections@[active as int]@);
        if self.sections[active].root.display_mode() == display {
            return;
        }
        self.cancel_resize(active);
        self.display_active(display);
        self.unfill();
    }

    /// Toggles the active section between showing its windows all at once and as tabs.
    pub fn toggle_section_tabbed_display(&mut self)
        requires
            old(self)@.wf(),
        ensures
            final(self)@ == if old(self)@.sections.len() > 0 {
                old(self)@.set_section_display(old(self)@.toggled_display())
            } else {
                old(self)@
            },
            final(self)@.wf(),
            keeps_windows(old(self)@, final(self)@),
    {
        if self.is_empty() {
            return;
        }
        let active: usize = self.props.active_section_idx;
        assert(self@.sections[active as int] == self.sections@[active as int]@);
        let display = if self.sections[active].is_tabbed() {
            SectionDisplay::Normal
        } else {
            SectionDisplay::Tabbed
        };
        self.set_section_display(display);
    }

    fn relay_active(&mut self, new_layout: Layout)
        requires
            old(self)@.wf(),
            old(self)@.sections.len() > 0,
        ensures
            final(self)@ == old(self)@.active_relaid(new_layout),
            final(self)@.wf(),
            keeps_windows(old(self)@, final(self)@),
            final(self)@.sections.len() == old(self)@.sections.len(),
    {
        let active: usize = self.props.active_section_idx;
        self.cancel_resize(active);
        let ghost before = self@;
        assert(before.sections[active as int] == self.sections@[active as int]@);
        assert(before.sections[active as int].wf());
        self.sections[active].set_active_layout(new_layout, self.options.layout.tab_header);
        proof {
            let laid = before.active().with_active_layout(new_layout, before.layout().tab_header);
            assert(self@.sections =~= before.sections.update(active as int, laid));
            lemma_after_wf(before, active as int, work(laid, before.out));
        }
    }

    fn size_active(&mut self)
        requires
            old(self)@.wf(),
            old(self)@.sections.len() > 0,
        ensures
            final(self)@ == old(self)@.active_sized(),
            final(self)@.wf(),
            keeps_windows(old(self)@, final(self)@),
    {
        let ghost before = self@;
        let active: usize = self.props.active_section_idx;
        assert(before.sections[active as int] == self.sections@[active as int]@);
        assert(before.sections[active as int].wf());
        self.sections[active].update_tile_sizes(&self.options, true, &mut self.outbox);
        proof {
            let done = before.at(active as int).sized(before.options, true);
            assert(self@ == before.after(active as int, done));
            lemma_after_wf(before, active as int, done);
        }
    }

    /// Toggles the node that holds the active window between split and tabs. Where the window is
    /// directly below the root, the whole section is toggled; where it is in a nested split, only
    /// that split is, and the rest of the section stays in place.
    #[verifier::spinoff_prover]
    pub fn toggle_tabbed(&mut self)
        requires
            old(self)@.wf(),
        ensures
            final(self)@ == old(self)@.toggle_tabbed(),
            final(self)@.wf(),
            keeps_windows(old(self)@, final(self)@),
    {
        if self.is_empty() {
            return;
        }
        let active: usize = self.props.active_section_idx;
        assert(self@.sections[active as int] == self.sections@[active as int]@);
        assert(self@.sections[active as int].wf());
        proof {
            lemma_active_path(self@.sections[active as int].root);
        }
        if self.sections[active].root.active_path().len() == 1 {
            self.toggle_section_tabbed_display();
            return;
        }
        let layout = self.sections[active].active_layout();
        let new_layout = if layout.is_tabbing() {
            layout.split_of_family()
        } else {
            Layout::Tabbed
        };
        self.relay_active(new_layout);
        self.size_active();
    }

    /// Sets the layout of the node that holds the active window.
    pub fn set_active_layout(&mut self, new_layout: Layout)
        requires
            old(self)@.wf(),
        ensures
            final(self)@ == old(self)@.set_active_layout(new_layout),
            final(self)@.wf(),
            keeps_windows(old(self)@, final(self)@),
    {
        if self.is_empty() {
            return;
        }
        self.relay_active(new_layout);
        self.unfill();
        self.size_active();
    }

    /// Toggles the node that holds the active window between the two splits. Tabs turn into the
    /// split of their family.
    pub fn toggle_split_layout(&mut self)
        requires
            old(self)@.wf(),
        ensures
            final(self)@ == old(self)@.toggle_split_layout(),
            final(self)@.wf(),
            keeps_windows(old(self)@, final(self)@),
    {
        if self.is_empty() {
            return;
        }
        let active: usize = self.props.active_section_idx;
        assert(self@.sections[active as int] == self.sections@[active as int]@);
        assert(self@.sections[active as int].wf());
        let layout = self.sections[active].active_layout();
        let new_layout = match layout {
            Layout::SplitH => Layout::SplitV,
            Layout::SplitV => Layout::SplitH,
            _ => layout.split_of_family(),
        };
        self.set_active_layout(new_layout);
    }

    /// Moves the active tab among the tabs of the active section.
    pub fn move_tab(&mut self, direction: ScrollDirection)
        requires
            old(self)@.wf(),
        ensures
            final(self)@ == old(self)@.move_tab(direction == ScrollDirection::Right),
            final(self)@.wf(),
            keeps_windows(old(self)@, final(self)@),
    {
        if self.is_empty() {
            return;
        }
        let ghost before = self@;
        let forwards = matches!(direction, ScrollDirection::Right);
        let active: usize = self.props.active_section_idx;
        assert(before.sections[active as int] == self.sections@[active as int]@);
        assert(before.sections[active as int].wf());
        self.sections[active].move_tab(&self.options, forwards, &mut self.outbox);
        proof {
            let done = before.at(active as int).move_tab(before.options, forwards);
            assert(self@ == before.after(active as int, done));
            lemma_after_wf(before, active as int, done);
        }
    }

    /// Centers the active section in the view.
    pub fn center_section(&mut self)
        requires
            old(self)@.wf(),
        ensures
            final(self)@ == old(self)@.center_section(),
            final(self)@.wf(),
            keeps_windows(old(self)@, final(self)@),
    {
        if self.is_empty() {
            return;
        }
        let active: usize = self.props.active_section_idx;
        self.animate_view_offset_to_section_centered(
            None,
            active,
            AnimationKind::HorizontalViewMovement,
        );
        self.cancel_resize(active);
    }

    /// Centers the section of a window in the view, where it is the active one.
    pub fn center_window(&mut self, window: Option<u64>)
        requires
            old(self)@.wf(),
            old(self)@.sections.len() > 0 ==> (window matches Some(window) ==> old(
                self,
            )@.section_of(window) is Some),
        ensures
            final(self)@ == old(self)@.center_window(window),
            final(self)@.wf(),
            keeps_windows(old(self)@, final(self)@),
    {
        if self.is_empty() {
            return;
        }
        let col: usize = match window {
            Some(window) => match self.section_of(window) {
                Some(col) => col,
                None => 0,
            },
            None => self.props.active_section_idx,
        };
        if col == self.props.active_section_idx {
            self.center_section();
        }
    }
}

/// The active window of a section is found.
proof fn lemma_active_window_found<N: Scalar>(space: SpaceView<N>, window: u64)
    requires
        space.wf(),
        space.sections.len() > 0,
        window == space.active().root.active_leaf().id,
    ensures
        space.section_of(window) is Some,
{
    let active = space.props.active_section_idx as int;
    let section = space.sections[active];
    crate::tree_walk::lemma_active_leaf_idx(section.root);
    assert(section.tiles()[section.active_leaf_idx() as int].id == window);
    assert(section.contains(window));
    crate::space::lemma_section_of(space, window, space.sections.len() as int);
}

/// A window that leaves fullscreen is still found.
proof fn lemma_window_stays<N: Scalar>(had: SpaceView<N>, has: SpaceView<N>, window: u64)
    requires
        had.wf(),
        has == had.set_fullscreen(window, false),
        had.section_of(window) is Some,
    ensures
        has.section_of(window) is Some,
        has.sections.len() == had.sections.len(),
        has.props.active_section_idx == had.props.active_section_idx,
{
    reveal(Work::set_fullscreen);
    let col = had.section_of(window)->0 as int;
    crate::space::lemma_section_of(had, window, had.sections.len() as int);
    let section = had.sections[col];
    assert(section.wf());
    let told = SectionView {
        props: crate::section::SectionProps { is_pending_fullscreen: false, ..section.props },
        ..section
    };
    lemma_with_sizes(told, had.options);
    assert(has.sections[col].tiles() == section.tiles());
    assert(has.sections[col].contains(window));
    crate::space::lemma_section_of(has, window, has.sections.len() as int);
}

} // verus!
