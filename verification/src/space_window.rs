//! Windows of the space that change, are resized, activated or told of their state.
use vstd::prelude::*;

use crate::animation::AnimationKind;
use crate::axis::{AxisMap, ResizeEdge};
use crate::config::{ConfigureIntent, InteractiveResize, LayoutOptions, SizeChange, SizingMode};
use crate::geometry::{Point, Size};
use crate::scalar::{num, Scalar};
use crate::section::{axis_of, Section, SectionView};
use crate::space::{lemma_in_step, ScrollingSpace, SpaceProps, SpaceView};
use crate::tile::{Outbox, OutboxView, Tile, TileEffect};
use crate::view_offset::ViewOffset;
use crate::working_area::{compute_toplevel_bounds, toplevel_bounds};
use crate::windows::{
    keeps_windows, lemma_bag_same_ids, lemma_windows_contain, lemma_windows_pointwise,
    lemma_windows_update,
};

verus! {

/// What a configure intent of several tiles is, one after the other: a tile that should be told at
/// once decides; otherwise one that waits makes all wait.
pub open spec fn joined_intent(intent: ConfigureIntent, other: ConfigureIntent) -> ConfigureIntent {
    match (intent, other) {
        (_, ConfigureIntent::ShouldSend) => ConfigureIntent::ShouldSend,
        (ConfigureIntent::NotNeeded, other) => other,
        (ConfigureIntent::CanSend, ConfigureIntent::Throttled) => ConfigureIntent::Throttled,
        (intent, _) => intent,
    }
}

/// The configure intent of the first `upto` tiles.
pub open spec fn intent_upto<N>(tiles: Seq<Tile<N>>, upto: int) -> ConfigureIntent
    decreases upto,
{
    if upto <= 0 {
        ConfigureIntent::NotNeeded
    } else {
        joined_intent(intent_upto(tiles, upto - 1), tiles[upto - 1].configure_intent)
    }
}

fn combined_intent<N>(tiles: &Vec<Tile<N>>) -> (r: ConfigureIntent)
    ensures
        r == intent_upto(tiles@, tiles@.len() as int),
{
    let mut intent = ConfigureIntent::NotNeeded;
    let mut i: usize = 0;
    while i < tiles.len()
        invariant
            i <= tiles.len(),
            intent == intent_upto(tiles@, i as int),
        decreases tiles.len() - i,
    {
        intent = match (intent, tiles[i].configure_intent) {
            (_, ConfigureIntent::ShouldSend) => ConfigureIntent::ShouldSend,
            (ConfigureIntent::NotNeeded, other) => other,
            (ConfigureIntent::CanSend, ConfigureIntent::Throttled) => ConfigureIntent::Throttled,
            (intent, _) => intent,
        };
        i = i + 1;
    }
    intent
}

/// Whether a window with a configure intent is told of its new state.
pub open spec fn is_sent(intent: ConfigureIntent) -> bool {
    intent == ConfigureIntent::CanSend || intent == ConfigureIntent::ShouldSend
}

/// Tells whether a window with a configure intent is to be told of its new state.
pub fn may_send(intent: ConfigureIntent) -> (r: bool)
    ensures
        r == is_sent(intent),
{
    matches!(intent, ConfigureIntent::CanSend | ConfigureIntent::ShouldSend)
}

/// How a section is told of its state.
#[derive(Clone, Copy, PartialEq, Eq, Debug)]
pub struct RefreshState<N> {
    pub resize: Option<ResizeEdge>,
    pub is_active: bool,
    pub is_focused: bool,
    /// The size of the working area.
    pub working_size: Size<N>,
}

impl<N: Scalar> SectionView<N> {
    /// Whether each window is throttled by itself.
    pub open spec fn throttles_individually(self, layout: LayoutOptions<N>) -> bool {
        layout.disable_transactions || self.root.is_tabbed()
    }

    pub open spec fn is_tile_activated(
        self,
        layout: LayoutOptions<N>,
        state: RefreshState<N>,
        i: int,
    ) -> bool {
        let is_active_leaf = i == self.active_leaf_idx();
        state.is_active && if layout.deactivate_unfocused_windows {
            is_active_leaf && state.is_focused
        } else {
            is_active_leaf || self.root.is_tabbed()
        }
    }

    /// What the tile `i` is told of its state.
    pub open spec fn state_effect(
        self,
        layout: LayoutOptions<N>,
        state: RefreshState<N>,
        i: int,
    ) -> TileEffect<N> {
        TileEffect::SetState {
            active_in_section: i == self.active_leaf_idx(),
            floating: false,
            activated: self.is_tile_activated(layout, state, i),
            resize: state.resize,
            bounds: toplevel_bounds(
                self.tiles()[i].rules.border,
                state.working_size,
                self.extra_size(),
                layout.gaps,
            ),
        }
    }

    /// Whether all windows of the section are told of their state together.
    pub open spec fn sends_together(self, layout: LayoutOptions<N>) -> bool {
        layout.disable_resize_throttling || is_sent(
            intent_upto(self.tiles(), self.tiles().len() as int),
        )
    }

    /// What is queued for the first `upto` tiles when windows are told of their state.
    pub open spec fn refresh_upto(
        self,
        out: OutboxView<N>,
        layout: LayoutOptions<N>,
        state: RefreshState<N>,
        upto: int,
    ) -> OutboxView<N>
        decreases upto,
    {
        if upto <= 0 {
            out
        } else {
            let before = self.refresh_upto(out, layout, state, upto - 1);
            let window = self.tiles()[upto - 1].id;
            let told = before.push(window, self.state_effect(layout, state, upto - 1));
            let sent = if self.throttles_individually(layout) {
                told.push(window, TileEffect::SendPendingConfigureIfWanted)
            } else if self.sends_together(layout) {
                told.push(window, TileEffect::SendPendingConfigure)
            } else {
                told
            };
            sent.push(window, TileEffect::Refresh)
        }
    }
}

impl<N: Scalar> SpaceView<N> {
    /// The space with the movements of some sections shifted.
    pub open spec fn with_shifted(self, from: int, to: int, offset: N) -> Self {
        SpaceView {
            sections: Seq::new(
                self.sections.len(),
                |i: int|
                    if from <= i < to {
                        self.sections[i].with_shifted_move(offset)
                    } else {
                        self.sections[i]
                    },
            ),
            ..self
        }
    }

    /// The space with sections moving along with a section that was resized by `offset`.
    pub open spec fn with_resized(self, col: int, offset: N, is_animated: bool) -> Self {
        let end = self.sections.len() as int;
        let is_before = self.props.active_section_idx <= col;
        if offset.spec_same(num::<N>(0)) {
            self
        } else if is_animated {
            if is_before {
                self.with_moved(col + 1, end, offset, AnimationKind::WindowResize)
            } else {
                self.with_moved(0, col + 1, offset.spec_neg(), AnimationKind::WindowResize)
            }
        } else if is_before {
            self.with_shifted(col + 1, end, offset)
        } else {
            self.with_shifted(0, col + 1, offset.spec_neg())
        }
    }

    /// The view offset kept in place while the active window is resized by `offset`.
    pub open spec fn offset_for_resize(
        self,
        col: int,
        offset: N,
        resize: Option<ResizeEdge>,
    ) -> ViewOffset<N> {
        match resize {
            Some(edges) if !offset.spec_same(num::<N>(0)) => {
                let still = self.props.view_offset.without_gesture();
                let area = self.props.working_area;
                still.spec_offset(
                    if self.is_centering() {
                        (area.size.w - self.width(col)).spec_neg().spec_div(num::<N>(2))
                            - area.loc.x - still.spec_target()
                    } else if edges.left {
                        offset.spec_neg()
                    } else {
                        num::<N>(0)
                    },
                )
            },
            _ => self.props.view_offset,
        }
    }

    /// The view following the active section that has changed.
    pub open spec fn view_followed(
        self,
        col: int,
        offset: N,
        resize: Option<ResizeEdge>,
        was_normal: bool,
        is_animated: bool,
    ) -> Self {
        let is_normal = self.sections[col].sizing_mode() == SizingMode::Normal;
        let view_offset = self.offset_for_resize(col, offset, resize);
        let restored = if !was_normal && is_normal {
            self.props.view_offset_to_restore
        } else {
            None
        };
        let kept = self.with_props(
            SpaceProps {
                view_offset,
                view_offset_to_restore: if was_normal && !is_normal {
                    Some(view_offset.spec_stationary())
                } else if !was_normal && is_normal {
                    None
                } else {
                    self.props.view_offset_to_restore
                },
                ..self.props
            },
        );
        let kind = if is_animated {
            AnimationKind::WindowResize
        } else {
            AnimationKind::HorizontalViewMovement
        };
        if self.props.interactive_resize is None && !(view_offset is Gesture) {
            let back = match restored {
                Some(prev_offset) => kept.view_sent(col, prev_offset, kind),
                None => kept,
            };
            back.view_sent_to(None, col, None, kind)
        } else {
            kept
        }
    }

    /// A window that has changed: its section, the sections beside it and the view follow.
    pub open spec fn update_window(
        self,
        col: int,
        tile: Tile<N>,
        resize: Option<ResizeEdge>,
    ) -> Self {
        let layout = self.layout();
        let section = self.sections[col];
        let was_normal = section.sizing_mode() == SizingMode::Normal;
        let idx = section.position(tile.id)->0;
        let changed = self.after(
            col,
            self.at(col).update_window(layout, idx, tile).sized(self.options, false),
        );
        let offset = self.width(col) - changed.width(col);
        let resized = changed.with_resized(col, offset, tile.has_resize_animation);
        let now = resized.sections[col];
        let delta = section.tiles_origin(layout) - now.tiles_origin(layout);
        let moved = if delta.spec_same(Point::spec_zero()) {
            resized
        } else {
            SpaceView {
                out: resized.out.push_all(now.tiles(), TileEffect::AnimateMoveFrom { delta }),
                ..resized
            }
        };
        if col == self.props.active_section_idx {
            moved.view_followed(col, offset, resize, was_normal, tile.has_resize_animation)
        } else {
            moved
        }
    }

    /// How far the view would have to scroll to activate a section, in working area spans.
    pub open spec fn scroll_amount(self, col: int) -> N {
        if self.props.active_section_idx == col {
            num::<N>(0)
        } else {
            let target = self.target_view_pos();
            let offset = self.offset_for(Some(target), col, Some(self.props.active_section_idx));
            (target - self.section_pos(col) - offset).spec_abs().spec_div(
                self.props.working_area.size.w,
            )
        }
    }

    pub open spec fn activate_window(self, window: u64) -> Self {
        match self.section_of(window) {
            Some(col) => self.after(
                col as int,
                self.at(col as int).activate_idx(
                    self.sections[col as int].position(window)->0,
                ),
            ).activated(col, AnimationKind::HorizontalViewMovement),
            None => self,
        }
    }

    pub open spec fn start_open_animation(self, window: u64) -> Self {
        match self.section_of(window) {
            Some(col) => self.after(
                col as int,
                self.at(col as int).start_open_animation(window),
            ),
            None => self,
        }
    }

    /// Whether a resize of a window can begin.
    pub open spec fn can_resize(self, col: int) -> bool {
        self.props.interactive_resize is None && self.sections[col].pending_sizing_mode()
            == SizingMode::Normal
    }

    pub open spec fn resize_begun(self, col: int, window: u64, edges: ResizeEdge) -> Self {
        let axis = axis_of(self.layout());
        let section = self.sections[col];
        let tile = section.tiles()[section.position(window)->0 as int];
        self.with_props(
            SpaceProps {
                interactive_resize: Some(
                    InteractiveResize {
                        window,
                        original_window_size: axis.spec_size(tile.window_size),
                        edges: axis.spec_edges(edges),
                    },
                ),
                view_offset: ViewOffset::Static(self.props.view_offset.spec_current()),
                ..self.props
            },
        )
    }

    /// The width of a window that is resized by its edges along the main axis.
    pub open spec fn resized_width(self, resize: InteractiveResize<N>, delta: Point<N>) -> i32 {
        let dx = if resize.edges.left {
            delta.x.spec_neg()
        } else {
            delta.x
        };
        let dx = if self.is_centering() {
            dx * num::<N>(2)
        } else {
            dx
        };
        (resize.original_window_size.w + dx).spec_round().spec_to_i32()
    }

    pub open spec fn resized_height(self, resize: InteractiveResize<N>, delta: Point<N>) -> i32 {
        let dy = if resize.edges.top {
            delta.y.spec_neg()
        } else {
            delta.y
        };
        (resize.original_window_size.h + dy).spec_round().spec_to_i32()
    }

    /// A window resized by a movement on screen since the resize began.
    pub open spec fn resize_updated(self, resize: InteractiveResize<N>, delta: Point<N>) -> Self {
        let delta = axis_of(self.layout()).spec_point(delta);
        let edges = resize.edges;
        let col = self.section_of(resize.window)->0 as int;
        let idx = self.sections[col].position(resize.window)->0;
        let wide = if edges.left || edges.right {
            self.at(col).set_split_child_width(
                self.options,
                SizeChange::SetFixed(self.resized_width(resize, delta)),
                idx,
                false,
            )
        } else {
            self.at(col)
        };
        self.after(
            col,
            if (edges.top || edges.bottom) && !(edges.top && idx == 0) {
                wide.set_window_height(
                    self.options,
                    SizeChange::SetFixed(self.resized_height(resize, delta)),
                    idx,
                    false,
                )
            } else {
                wide
            },
        )
    }

    pub open spec fn resize_ended(self, window: Option<u64>) -> Self {
        match self.props.interactive_resize {
            None => self,
            Some(resize) => match window {
                Some(window) if window != resize.window => self,
                _ => {
                    let seen = if window is Some && self.active().contains(window->0) {
                        self.view_sent_to(
                            None,
                            self.props.active_section_idx as int,
                            None,
                            AnimationKind::HorizontalViewMovement,
                        )
                    } else {
                        self
                    };
                    seen.with_props(SpaceProps { interactive_resize: None, ..seen.props })
                },
            },
        }
    }

    /// How the section `col` is told of its state.
    pub open spec fn refresh_state(
        self,
        is_active: bool,
        is_focused: bool,
        col: int,
    ) -> RefreshState<N> {
        RefreshState {
            resize: match self.props.interactive_resize {
                Some(resize) if self.sections[col].contains(resize.window) => Some(resize.edges),
                _ => None,
            },
            is_active: is_active && self.props.active_section_idx == col,
            is_focused,
            working_size: self.props.working_area.size,
        }
    }

    /// What is queued once the windows of the first `upto` sections are told of their state.
    pub open spec fn refreshed_upto(self, is_active: bool, is_focused: bool, upto: int)
        -> OutboxView<N>
        decreases upto,
    {
        if upto <= 0 {
            self.out
        } else {
            let section = self.sections[upto - 1];
            section.refresh_upto(
                self.refreshed_upto(is_active, is_focused, upto - 1),
                self.layout(),
                self.refresh_state(is_active, is_focused, upto - 1),
                section.tiles().len() as int,
            )
        }
    }
}

impl<N: Scalar> Section<N> {
    /// Tells the windows of the section of their state.
    #[verifier::spinoff_prover]
    pub fn refresh(&self, layout: &LayoutOptions<N>, state: RefreshState<N>, out: &mut Outbox<N>)
        requires
            self@.wf(),
        ensures
            final(out)@ == self@.refresh_upto(
                old(out)@,
                *layout,
                state,
                self@.tiles().len() as int,
            ),
    {
        let ghost before = out@;
        let tiles = self.tiles();
        let is_tabbed = self.is_tabbed();
        let extra_size = self.extra_size();
        let individual = layout.disable_transactions || is_tabbed;
        let together = layout.disable_resize_throttling || may_send(combined_intent(&tiles));
        let active: usize = self.active_leaf_idx();
        let mut i: usize = 0;
        while i < tiles.len()
            invariant
                i <= tiles.len(),
                self@.wf(),
                tiles@ == self@.tiles(),
                is_tabbed == self@.root.is_tabbed(),
                extra_size == self@.extra_size(),
                individual == self@.throttles_individually(*layout),
                together == self@.sends_together(*layout),
                active == self@.active_leaf_idx(),
                out@ == self@.refresh_upto(before, *layout, state, i as int),
            decreases tiles.len() - i,
        {
            let window: u64 = tiles[i].id;
            let active_in_section = active == i;
            let activated = state.is_active && if layout.deactivate_unfocused_windows {
                active_in_section && state.is_focused
            } else {
                active_in_section || is_tabbed
            };
            let bounds = compute_toplevel_bounds(
                tiles[i].rules.border,
                state.working_size,
                extra_size,
                layout.gaps,
            );
            out.push(
                window,
                TileEffect::SetState {
                    active_in_section,
                    floating: false,
                    activated,
                    resize: state.resize,
                    bounds,
                },
            );
            if individual {
                out.push(window, TileEffect::SendPendingConfigureIfWanted);
            } else if together {
                out.push(window, TileEffect::SendPendingConfigure);
            }
            out.push(window, TileEffect::Refresh);
            i = i + 1;
        }
    }
}

impl<N: Scalar> ScrollingSpace<N> {
    #[verifier::spinoff_prover]
    fn shift_sections(&mut self, from: usize, to: usize, offset: N)
        requires
            old(self)@.wf(),
            from <= to <= old(self)@.sections.len(),
        ensures
            final(self)@ == old(self)@.with_shifted(from as int, to as int, offset),
            final(self)@.wf(),
            keeps_windows(old(self)@, final(self)@),
    {
        let ghost before = self@;
        let mut i: usize = from;
        assert(before.with_shifted(from as int, from as int, offset).sections =~= before.sections);
        while i < to
            invariant
                from <= i <= to <= before.sections.len(),
                before.wf(),
                self@ == before.with_shifted(from as int, i as int, offset),
                self@.wf(),
            decreases to - i,
        {
            let ghost prev = self@;
            assert(self@.sections[i as int] == self.sections@[i as int]@);
            assert(prev.sections[i as int] == before.sections[i as int]);
            self.sections[i].offset_move_anim_current(offset);
            proof {
                assert(self@.sections =~= prev.sections.update(
                    i as int,
                    self.sections@[i as int]@,
                ));
                assert(self@.sections =~= before.with_shifted(
                    from as int,
                    i as int + 1,
                    offset,
                ).sections);
                assert forall|j: int| 0 <= j < self@.sections.len() implies (
                #[trigger] self@.sections[j]).wf() by {
                    if j != i {
                        assert(self@.sections[j] == prev.sections[j]);
                    }
                }
                lemma_in_step(prev, self@);
            }
            i = i + 1;
        }
        proof {
            assert forall|j: int| 0 <= j < self@.sections.len() implies (
            #[trigger] self@.sections[j]).windows() == before.sections[j].windows() by {
                assert(self@.sections[j].tiles() == before.sections[j].tiles());
            }
            lemma_windows_pointwise(self@.sections, before.sections);
        }
    }

    fn follow_resize(&mut self, col: usize, offset: N, is_animated: bool)
        requires
            old(self)@.wf(),
            col < old(self)@.sections.len(),
        ensures
            final(self)@ == old(self)@.with_resized(col as int, offset, is_animated),
            final(self)@.wf(),
            keeps_windows(old(self)@, final(self)@),
    {
        if offset.same(N::of_int(0)) {
            return;
        }
        let end: usize = self.sections.len();
        if self.props.active_section_idx <= col {
            if is_animated {
                self.move_sections(col + 1, end, offset, AnimationKind::WindowResize);
            } else {
                self.shift_sections(col + 1, end, offset);
            }
        } else {
            if is_animated {
                self.move_sections(0, col + 1, offset.neg(), AnimationKind::WindowResize);
            } else {
                self.shift_sections(0, col + 1, offset.neg());
            }
        }
    }

    #[verifier::spinoff_prover]
    fn keep_view_for_resize(&mut self, col: usize, offset: N, resize: Option<ResizeEdge>)
        requires
            old(self)@.wf(),
            col < old(self)@.sections.len(),
        ensures
            final(self)@ == old(self)@.with_view_offset(
                old(self)@.offset_for_resize(col as int, offset, resize),
            ),
            final(self)@.wf(),
            keeps_windows(old(self)@, final(self)@),
    {
        if offset.same(N::of_int(0)) {
            return;
        }
        if let Some(edges) = resize {
            let width = self.section_width(col);
            let mut view_offset = self.props.view_offset;
            view_offset.cancel_gesture();
            let area = self.props.working_area;
            let delta = if self.is_centering_focused_section() {
                area.size.w.sub(width).neg().div(N::of_int(2)).sub(area.loc.x).sub(
                    view_offset.target(),
                )
            } else if edges.left {
                offset.neg()
            } else {
                N::of_int(0)
            };
            view_offset.offset(delta);
            self.props.view_offset = view_offset;
        }
    }

    #[verifier::spinoff_prover]
    fn follow_view(
        &mut self,
        col: usize,
        offset: N,
        resize: Option<ResizeEdge>,
        was_normal: bool,
        is_animated: bool,
    )
        requires
            old(self)@.wf(),
            col < old(self)@.sections.len(),
        ensures
            final(self)@ == old(self)@.view_followed(
                col as int,
                offset,
                resize,
                was_normal,
                is_animated,
            ),
            final(self)@.wf(),
            keeps_windows(old(self)@, final(self)@),
    {
        self.keep_view_for_resize(col, offset, resize);
        assert(self@.sections[col as int] == self.sections@[col as int]@);
        let is_normal = self.sections[col].sizing_mode().is_normal();
        let restored = if !was_normal && is_normal {
            self.props.view_offset_to_restore
        } else {
            None
        };
        if was_normal && !is_normal {
            self.props.view_offset_to_restore = Some(self.props.view_offset.stationary());
        } else if !was_normal && is_normal {
            self.props.view_offset_to_restore = None;
        }
        if self.props.interactive_resize.is_none() && !self.props.view_offset.is_gesture() {
            let kind = if is_animated {
                AnimationKind::WindowResize
            } else {
                AnimationKind::HorizontalViewMovement
            };
            if let Some(prev_offset) = restored {
                self.animate_view_offset_with_config(col, prev_offset, kind);
            }
            self.animate_view_offset_to_section_with_config(None, col, None, kind);
        }
    }

    #[verifier::spinoff_prover]
    fn change_tile(&mut self, col: usize, idx: usize, tile: Tile<N>)
        requires
            old(self)@.wf(),
            col < old(self)@.sections.len(),
            idx < old(self)@.sections[col as int].tiles().len(),
            old(self)@.sections[col as int].tiles()[idx as int].id == tile.id,
        ensures
            final(self)@ == old(self)@.after(
                col as int,
                old(self)@.at(col as int).update_window(old(self)@.layout(), idx, tile).sized(
                    old(self)@.options,
                    false,
                ),
            ),
            final(self)@.wf(),
            keeps_windows(old(self)@, final(self)@),
    {
        let ghost before = self@;
        assert(before.sections[col as int] == self.sections@[col as int]@);
        assert(before.sections[col as int].wf());
        self.sections[col].update_window(&self.options.layout, idx, tile, &mut self.outbox);
        self.sections[col].update_tile_sizes(&self.options, false, &mut self.outbox);
        proof {
            assert(self@ == before.after(
                col as int,
                before.at(col as int).update_window(before.layout(), idx, tile).sized(
                    before.options,
                    false,
                ),
            ));
            lemma_bag_same_ids(
                self@.sections[col as int].tiles(),
                before.sections[col as int].tiles(),
            );
            lemma_windows_update(before.sections, col as int, self@.sections[col as int]);
            assert forall|j: int| 0 <= j < self@.sections.len() implies (
            #[trigger] self@.sections[j]).wf() by {
                if j != col {
                    assert(self@.sections[j] == before.sections[j]);
                }
            }
            lemma_in_step(before, self@);
        }
    }

    /// Takes over how a window has changed, where it was being resized by some edges. Other
    /// sections move in tandem, and the view is kept or moved so that the window stays visible.
    #[verifier::spinoff_prover]
    pub fn update_window(&mut self, window: u64, tile: Tile<N>, resize: Option<ResizeEdge>)
        requires
            old(self)@.wf(),
            old(self)@.section_of(window) is Some,
            tile.id == window,
        ensures
            final(self)@ == old(self)@.update_window(
                old(self)@.section_of(window)->0 as int,
                tile,
                resize,
            ),
            final(self)@.wf(),
            keeps_windows(old(self)@, final(self)@),
    {
        let ghost before = self@;
        let col: usize = match self.section_of(window) {
            Some(col) => col,
            None => 0,
        };
        let layout = self.options.layout;
        assert(before.sections[col as int] == self.sections@[col as int]@);
        assert(before.sections[col as int].wf());
        let was_normal = self.sections[col].sizing_mode().is_normal();
        let prev_origin = self.sections[col].tiles_origin(&layout);
        let idx: usize = match self.sections[col].position(window) {
            Some(idx) => idx,
            None => 0,
        };
        let prev_width = self.section_width(col);
        self.change_tile(col, idx, tile);
        let ghost changed = self@;
        let offset = prev_width.sub(self.section_width(col));
        self.follow_resize(col, offset, tile.has_resize_animation);
        let ghost resized = self@;
        assert(resized.sections[col as int] == self.sections@[col as int]@);
        assert(resized.sections[col as int].wf());
        let delta = prev_origin.sub(self.sections[col].tiles_origin(&layout));
        if !delta.same(Point::zero()) {
            let tiles = self.sections[col].tiles();
            self.outbox.push_all(&tiles, TileEffect::AnimateMoveFrom { delta });
        }
        if col == self.props.active_section_idx {
            self.follow_view(col, offset, resize, was_normal, tile.has_resize_animation);
        }
    }

    /// How far the view would have to scroll to activate a window, in working area spans.
    pub fn scroll_amount_to_activate(&self, window: u64) -> (r: N)
        requires
            self@.wf(),
            self@.section_of(window) is Some,
        ensures
            r == self@.scroll_amount(self@.section_of(window)->0 as int),
    {
        let col: usize = match self.section_of(window) {
            Some(col) => col,
            None => 0,
        };
        if self.props.active_section_idx == col {
            return N::of_int(0);
        }
        let target = self.target_view_main_pos();
        let offset = self.compute_new_view_offset_for_section(
            Some(target),
            col,
            Some(self.props.active_section_idx),
        );
        target.sub(self.section_main_pos(col)).sub(offset).abs().div(
            self.props.working_area.size.w,
        )
    }

    /// Activates a window and brings it into view. Tells whether it is in the space.
    #[verifier::spinoff_prover]
    pub fn activate_window(&mut self, window: u64) -> (r: bool)
        requires
            old(self)@.wf(),
        ensures
            final(self)@ == old(self)@.activate_window(window),
            r == (old(self)@.section_of(window) is Some),
            final(self)@.wf(),
            keeps_windows(old(self)@, final(self)@),
    {
        let ghost before = self@;
        let col: usize = match self.section_of(window) {
            Some(col) => col,
            None => {
                return false;
            },
        };
        assert(before.sections[col as int] == self.sections@[col as int]@);
        assert(before.sections[col as int].wf());
        self.sections[col].activate_window(window, &mut self.outbox);
        proof {
            assert(self@ == before.after(
                col as int,
                before.at(col as int).activate_idx(
                    before.sections[col as int].position(window)->0,
                ),
            ));
            lemma_windows_update(before.sections, col as int, self@.sections[col as int]);
            assert forall|j: int| 0 <= j < self@.sections.len() implies (
            #[trigger] self@.sections[j]).wf() by {
                if j != col {
                    assert(self@.sections[j] == before.sections[j]);
                }
            }
            lemma_in_step(before, self@);
        }
        self.activate_section(col);
        true
    }

    /// Lets a window appear. Tells whether it is in the space.
    #[verifier::spinoff_prover]
    pub fn start_open_animation(&mut self, window: u64) -> (r: bool)
        requires
            old(self)@.wf(),
        ensures
            final(self)@ == old(self)@.start_open_animation(window),
            r == (old(self)@.section_of(window) is Some),
            final(self)@.wf(),
            keeps_windows(old(self)@, final(self)@),
    {
        let ghost before = self@;
        let col: usize = match self.section_of(window) {
            Some(col) => col,
            None => {
                return false;
            },
        };
        assert(before.sections[col as int] == self.sections@[col as int]@);
        assert(before.sections[col as int].wf());
        self.sections[col].start_open_animation(window, &mut self.outbox);
        proof {
            assert(self@ == before.after(
                col as int,
                before.at(col as int).start_open_animation(window),
            ));
            lemma_windows_update(before.sections, col as int, self@.sections[col as int]);
            assert forall|j: int| 0 <= j < self@.sections.len() implies (
            #[trigger] self@.sections[j]).wf() by {
                if j != col {
                    assert(self@.sections[j] == before.sections[j]);
                }
            }
            lemma_in_step(before, self@);
        }
        true
    }

    /// Begins a resize of a window by its edges on screen. Only one goes on at a time, and none of
    /// windows that are fullscreen or maximized.
    #[verifier::spinoff_prover]
    pub fn interactive_resize_begin(&mut self, window: u64, edges: ResizeEdge) -> (r: bool)
        requires
            old(self)@.wf(),
            old(self)@.section_of(window) is Some,
        ensures
            r == old(self)@.can_resize(old(self)@.section_of(window)->0 as int),
            final(self)@ == if r {
                old(self)@.resize_begun(old(self)@.section_of(window)->0 as int, window, edges)
            } else {
                old(self)@
            },
            final(self)@.wf(),
            keeps_windows(old(self)@, final(self)@),
    {
        if self.props.interactive_resize.is_some() {
            return false;
        }
        let col: usize = match self.section_of(window) {
            Some(col) => col,
            None => 0,
        };
        assert(self@.sections[col as int] == self.sections@[col as int]@);
        if !self.sections[col].pending_sizing_mode().is_normal() {
            return false;
        }
        let idx: usize = match self.sections[col].position(window) {
            Some(idx) => idx,
            None => 0,
        };
        let tile = self.sections[col].tile(idx);
        let axis = AxisMap::new(self.options.layout.main_axis);
        proof {
            lemma_windows_contain(self@.sections, col as int, window);
        }
        self.props.interactive_resize = Some(
            InteractiveResize {
                window,
                original_window_size: axis.size_in(tile.window_size),
                edges: axis.resize_edges_in(edges),
            },
        );
        let mut view_offset = self.props.view_offset;
        view_offset.stop_anim_and_gesture();
        self.props.view_offset = view_offset;
        true
    }

    /// Goes on with a resize: `delta` is the movement on screen since it began. Tells whether the
    /// window is the one that is being resized.
    #[verifier::spinoff_prover]
    pub fn interactive_resize_update(&mut self, window: u64, delta: Point<N>) -> (r: bool)
        requires
            old(self)@.wf(),
            old(self)@.props.interactive_resize matches Some(resize) ==> resize.window == window
                ==> old(self)@.section_of(window) is Some,
        ensures
            r == (old(self)@.props.interactive_resize matches Some(resize) && resize.window
                == window),
            final(self)@ == if r {
                old(self)@.resize_updated(old(self)@.props.interactive_resize->0, delta)
            } else {
                old(self)@
            },
            final(self)@.wf(),
            keeps_windows(old(self)@, final(self)@),
    {
        let ghost before = self@;
        let resize = match self.props.interactive_resize {
            Some(resize) => resize,
            None => {
                return false;
            },
        };
        if window != resize.window {
            return false;
        }
        let delta = AxisMap::new(self.options.layout.main_axis).point_in(delta);
        let is_centering = self.is_centering_focused_section();
        let col: usize = match self.section_of(window) {
            Some(col) => col,
            None => 0,
        };
        assert(before.sections[col as int] == self.sections@[col as int]@);
        assert(before.sections[col as int].wf());
        let idx: usize = match self.sections[col].position(window) {
            Some(idx) => idx,
            None => 0,
        };
        if resize.edges.left || resize.edges.right {
            let mut dx = delta.x;
            if resize.edges.left {
                dx = dx.neg();
            }
            if is_centering {
                dx = dx.mul(N::of_int(2));
            }
            let width: i32 = resize.original_window_size.w.add(dx).round().to_i32();
            self.sections[col].set_split_child_width(
                &self.options,
                SizeChange::SetFixed(width),
                idx,
                false,
                &mut self.outbox,
            );
        }
        let ghost wide = self@;
        if (resize.edges.top || resize.edges.bottom) && !(resize.edges.top && idx == 0) {
            let mut dy = delta.y;
            if resize.edges.top {
                dy = dy.neg();
            }
            let height: i32 = resize.original_window_size.h.add(dy).round().to_i32();
            self.sections[col].set_window_height(
                &self.options,
                SizeChange::SetFixed(height),
                idx,
                false,
                &mut self.outbox,
            );
        }
        proof {
            assert(self@.sections =~= before.sections.update(
                col as int,
                self.sections@[col as int]@,
            ));
            lemma_windows_update(before.sections, col as int, self.sections@[col as int]@);
            assert forall|j: int| 0 <= j < self@.sections.len() implies (
            #[trigger] self@.sections[j]).wf() by {
                if j != col {
                    assert(self@.sections[j] == before.sections[j]);
                }
            }
            lemma_in_step(before, self@);
        }
        true
    }

    /// Ends the resize, of a given window or of any. The active window is brought into view.
    pub fn interactive_resize_end(&mut self, window: Option<u64>)
        requires
            old(self)@.wf(),
            old(self)@.props.interactive_resize matches Some(resize) ==> window == Some(
                resize.window,
            ) ==> old(self)@.sections.len() > 0,
        ensures
            final(self)@ == old(self)@.resize_ended(window),
            final(self)@.wf(),
            keeps_windows(old(self)@, final(self)@),
    {
        let resize = match self.props.interactive_resize {
            Some(resize) => resize,
            None => {
                return;
            },
        };
        if let Some(window) = window {
            if window != resize.window {
                return;
            }
            let active: usize = self.props.active_section_idx;
            assert(self@.sections[active as int] == self.sections@[active as int]@);
            if self.sections[active].contains(window) {
                self.animate_view_offset_to_section(None, active, None);
            }
        }
        self.props.interactive_resize = None;
    }

    /// Tells all windows of their state: whether they are active, how they are resized and how
    /// large they can be.
    #[verifier::spinoff_prover]
    pub fn refresh(&mut self, is_active: bool, is_focused: bool)
        requires
            old(self)@.wf(),
        ensures
            final(self)@ == (SpaceView {
                out: old(self)@.refreshed_upto(
                    is_active,
                    is_focused,
                    old(self)@.sections.len() as int,
                ),
                ..old(self)@
            }),
            final(self)@.wf(),
            keeps_windows(old(self)@, final(self)@),
    {
        let ghost before = self@;
        let mut col: usize = 0;
        while col < self.sections.len()
            invariant
                col <= self.sections.len(),
                before.wf(),
                self@ == (SpaceView {
                    out: before.refreshed_upto(is_active, is_focused, col as int),
                    ..before
                }),
            decreases self.sections.len() - col,
        {
            assert(before.sections[col as int] == self.sections@[col as int]@);
            assert(before.sections[col as int].wf());
            let resize = match self.props.interactive_resize {
                Some(resize) => if self.sections[col].contains(resize.window) {
                    Some(resize.edges)
                } else {
                    None
                },
                None => None,
            };
            let state = RefreshState {
                resize,
                is_active: is_active && self.props.active_section_idx == col,
                is_focused,
                working_size: self.props.working_area.size,
            };
            self.sections[col].refresh(&self.options.layout, state, &mut self.outbox);
            col = col + 1;
        }
    }
}

} // verus!
