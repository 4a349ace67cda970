//! Moving focus between windows, and sections among each other.
use vstd::prelude::*;

use crate::animation::AnimationKind;
use crate::config::SplitAxis;
use crate::scalar::Scalar;
use crate::section_edit::{focused_index, step};
use crate::section_state::{cancel_resize_for_section, resize_without};
use crate::space::{in_step, lemma_after_wf, ScrollingSpace, SpaceProps, SpaceView};
use crate::tile::TileEffect;
use crate::tile_node::Tree;
use crate::windows::{keeps_windows, lemma_windows_insert, lemma_windows_remove};

verus! {

/// The index that a one-based number stands for, kept below a count.
pub open spec fn index_within(index: usize, count: int) -> int {
    let wanted = if index == 0 {
        0int
    } else {
        index - 1
    };
    if wanted < count - 1 {
        wanted
    } else {
        count - 1
    }
}

fn pick_index_within(index: usize, count: usize) -> (r: usize)
    requires
        count > 0,
    ensures
        r == index_within(index, count as int),
        r < count,
{
    let wanted: usize = if index == 0 {
        0
    } else {
        index - 1
    };
    if wanted < count - 1 {
        wanted
    } else {
        count - 1
    }
}

impl<N: Scalar> SpaceView<N> {
    /// Whether the active section has a window to focus in a direction along an axis.
    pub open spec fn can_focus_inside(self, axis: SplitAxis, forwards: bool) -> bool {
        self.sections.len() > 0 && self.active().root.focus_target(axis, forwards) is Some
    }

    /// Focus moved in a direction inside of the active section.
    pub open spec fn focus_inside(self, axis: SplitAxis, forwards: bool) -> Self {
        if self.sections.len() > 0 {
            let active = self.props.active_section_idx as int;
            self.after(active, self.at(active).focus_in_axis(axis, forwards))
        } else {
            self
        }
    }

    /// Whether there is a section next to the active one.
    pub open spec fn has_neighbor(self, forwards: bool) -> bool {
        0 <= self.props.active_section_idx + step(forwards) < self.sections.len()
    }

    /// Focus moved along the main axis: inside of the active section first, and then on to the
    /// next one.
    pub open spec fn focus_along_main(self, forwards: bool) -> Self {
        if self.can_focus_inside(SplitAxis::Main, forwards) {
            self.focus_inside(SplitAxis::Main, forwards)
        } else if self.has_neighbor(forwards) {
            self.activated(
                (self.props.active_section_idx + step(forwards)) as usize,
                AnimationKind::HorizontalViewMovement,
            )
        } else {
            self
        }
    }

    pub open spec fn can_focus_along_main(self, forwards: bool) -> bool {
        self.can_focus_inside(SplitAxis::Main, forwards) || self.has_neighbor(forwards)
    }

    /// Focus moved along the cross axis, or else along the main axis.
    pub open spec fn focus_cross_or_main(self, down: bool, forwards: bool) -> Self {
        if self.can_focus_inside(SplitAxis::Cross, down) {
            self.focus_inside(SplitAxis::Cross, down)
        } else {
            self.focus_along_main(forwards)
        }
    }

    /// A leaf of the active section activated.
    pub open spec fn focus_leaf(self, idx: usize) -> Self {
        let active = self.props.active_section_idx as int;
        self.after(active, self.at(active).activate_idx(idx))
    }

    /// The active section taken to another place, before anything moves.
    pub open spec fn section_replaced(self, new_idx: int) -> Self {
        let active = self.props.active_section_idx as int;
        let section = self.sections[active];
        SpaceView {
            sections: self.sections.remove(active).insert(new_idx, section),
            props: SpaceProps {
                interactive_resize: resize_without(self.props.interactive_resize, section),
                ..self.props
            },
            out: self.out.push_all(section.tiles(), TileEffect::CancelInteractiveResize),
            ..self
        }
    }

    /// The active section moved to another place among the sections.
    pub open spec fn move_section_to(self, new_idx: int) -> Self {
        let active = self.props.active_section_idx as int;
        let kind = AnimationKind::WindowMovement;
        if active == new_idx {
            self
        } else {
            let current = self.section_pos(active);
            let between = self.section_pos(active + 1) - current;
            let placed = self.section_replaced(new_idx);
            let seen = placed.with_view_offset(
                placed.props.view_offset.spec_offset(
                    placed.section_pos(active).spec_neg() + current,
                ),
            );
            let moved = seen.with_moved(
                new_idx,
                new_idx + 1,
                current - seen.section_pos(new_idx),
                kind,
            );
            let made_way = if active < new_idx {
                moved.with_moved(active, new_idx, between, kind)
            } else {
                moved.with_moved(new_idx + 1, active + 1, between.spec_neg(), kind)
            };
            made_way.activated(new_idx as usize, kind)
        }
    }

    /// What is active swapped with its sibling along the cross axis.
    pub open spec fn move_inside(self, forwards: bool) -> Self {
        if self.sections.len() > 0 {
            let active = self.props.active_section_idx as int;
            self.after(
                active,
                self.at(active).swap_in_axis(self.options, SplitAxis::Cross, forwards),
            )
        } else {
            self
        }
    }

    pub open spec fn can_move_inside(self, forwards: bool) -> bool {
        let root = self.active().root;
        let path = root.active_path();
        self.sections.len() > 0 && root.sibling_along(
            path,
            SplitAxis::Cross,
            forwards,
            path.len() as int,
        ) is Some
    }

    /// The trees of the sections.
    pub open spec fn roots(self) -> Seq<Tree<N>> {
        Seq::new(self.sections.len(), |i: int| self.sections[i].root)
    }
}

/// Moving a section takes it to its new place, keeps the others in their order, and changes none
/// of their windows. The moved section is the active one.
pub proof fn law_moving_a_section_reorders_sections<N: Scalar>(space: SpaceView<N>, new_idx: int)
    requires
        space.wf(),
        0 <= new_idx < space.sections.len(),
    ensures
        ({
            let active = space.props.active_section_idx as int;
            let after = space.move_section_to(new_idx);
            &&& after.roots() == space.roots().remove(active).insert(
                new_idx,
                space.roots()[active],
            )
            &&& after.props.active_section_idx == new_idx
        }),
{
    let active = space.props.active_section_idx as int;
    let after = space.move_section_to(new_idx);
    let expected = space.roots().remove(active).insert(new_idx, space.roots()[active]);
    if active == new_idx {
        assert(after.roots() =~= expected);
    } else {
        let placed = space.section_replaced(new_idx);
        assert(placed.roots() =~= expected);
        assert(after.roots() =~= placed.roots());
    }
}

/// Where there is a section on either side, moving focus to it and back leaves the section that
/// was active active.
pub proof fn law_focus_comes_back<N: Scalar>(space: SpaceView<N>, forwards: bool)
    requires
        space.wf(),
        space.has_neighbor(forwards),
        !space.can_focus_inside(SplitAxis::Main, forwards),
        !space.focus_along_main(forwards).can_focus_inside(SplitAxis::Main, !forwards),
    ensures
        space.focus_along_main(forwards).focus_along_main(!forwards).props.active_section_idx
            == space.props.active_section_idx,
        space.focus_along_main(forwards).focus_along_main(!forwards).sections == space.sections,
{
}

impl<N: Scalar> ScrollingSpace<N> {
    fn focus_inside(&mut self, axis: SplitAxis, forwards: bool) -> (r: bool)
        requires
            old(self)@.wf(),
        ensures
            final(self)@ == old(self)@.focus_inside(axis, forwards),
            r == old(self)@.can_focus_inside(axis, forwards),
            !r ==> final(self)@ == old(self)@,
            final(self)@.wf(),
            keeps_windows(old(self)@, final(self)@),
    {
        if self.is_empty() {
            return false;
        }
        let ghost before = self@;
        let active: usize = self.props.active_section_idx;
        assert(before.sections[active as int] == self.sections@[active as int]@);
        assert(before.sections[active as int].wf());
        let found = self.sections[active].focus_in_axis(axis, forwards, &mut self.outbox);
        proof {
            let done = before.at(active as int).focus_in_axis(axis, forwards);
            assert(self@ == before.after(active as int, done));
            lemma_after_wf(before, active as int, done);
            if !found {
                assert(before.after(active as int, before.at(active as int)).sections
                    =~= before.sections);
            }
        }
        found
    }

    fn focus_along_main(&mut self, forwards: bool) -> (r: bool)
        requires
            old(self)@.wf(),
        ensures
            final(self)@ == old(self)@.focus_along_main(forwards),
            r == old(self)@.can_focus_along_main(forwards),
            final(self)@.wf(),
            keeps_windows(old(self)@, final(self)@),
    {
        if self.focus_inside(SplitAxis::Main, forwards) {
            return true;
        }
        let active: usize = self.props.active_section_idx;
        if forwards {
            if self.is_empty() || active >= self.sections.len() - 1 {
                return false;
            }
            self.activate_section(active + 1);
        } else {
            if active == 0 {
                return false;
            }
            self.activate_section(active - 1);
        }
        true
    }

    /// Focuses what is to the left: a window of the active section, or else the section before it.
    pub fn focus_left(&mut self) -> (r: bool)
        requires
            old(self)@.wf(),
        ensures
            final(self)@ == old(self)@.focus_along_main(false),
            r == old(self)@.can_focus_along_main(false),
            final(self)@.wf(),
            keeps_windows(old(self)@, final(self)@),
    {
        self.focus_along_main(false)
    }

    /// Focuses what is to the right: a window of the active section, or else the section after it.
    pub fn focus_right(&mut self) -> (r: bool)
        requires
            old(self)@.wf(),
        ensures
            final(self)@ == old(self)@.focus_along_main(true),
            r == old(self)@.can_focus_along_main(true),
            final(self)@.wf(),
            keeps_windows(old(self)@, final(self)@),
    {
        self.focus_along_main(true)
    }

    fn focus_nth(&mut self, idx: usize)
        requires
            old(self)@.wf(),
            old(self)@.sections.len() > 0 ==> idx < old(self)@.sections.len(),
        ensures
            final(self)@ == if old(self)@.sections.len() > 0 {
                old(self)@.activated(idx, AnimationKind::HorizontalViewMovement)
            } else {
                old(self)@
            },
            final(self)@.wf(),
    {
        if !self.is_empty() {
            self.activate_section(idx);
        }
    }

    pub fn focus_section_first(&mut self)
        requires
            old(self)@.wf(),
        ensures
            final(self)@ == if old(self)@.sections.len() > 0 {
                old(self)@.activated(0, AnimationKind::HorizontalViewMovement)
            } else {
                old(self)@
            },
            final(self)@.wf(),
            keeps_windows(old(self)@, final(self)@),
    {
        self.focus_nth(0);
    }

    pub fn focus_section_last(&mut self)
        requires
            old(self)@.wf(),
        ensures
            final(self)@ == if old(self)@.sections.len() > 0 {
                old(self)@.activated(
                    (old(self)@.sections.len() - 1) as usize,
                    AnimationKind::HorizontalViewMovement,
                )
            } else {
                old(self)@
            },
            final(self)@.wf(),
            keeps_windows(old(self)@, final(self)@),
    {
        if !self.is_empty() {
            let last: usize = self.sections.len() - 1;
            self.focus_nth(last);
        }
    }

    /// Focuses a section by its number, counted from one and kept within the sections.
    pub fn focus_section(&mut self, index: usize)
        requires
            old(self)@.wf(),
        ensures
            final(self)@ == if old(self)@.sections.len() > 0 {
                old(self)@.activated(
                    index_within(index, old(self)@.sections.len() as int) as usize,
                    AnimationKind::HorizontalViewMovement,
                )
            } else {
                old(self)@
            },
            final(self)@.wf(),
            keeps_windows(old(self)@, final(self)@),
    {
        if !self.is_empty() {
            let idx: usize = pick_index_within(index, self.sections.len());
            self.focus_nth(idx);
        }
    }

    fn focus_leaf(&mut self, idx: usize)
        requires
            old(self)@.wf(),
            old(self)@.sections.len() > 0,
        ensures
            final(self)@ == old(self)@.focus_leaf(idx),
            final(self)@.wf(),
            keeps_windows(old(self)@, final(self)@),
    {
        let ghost before = self@;
        let active: usize = self.props.active_section_idx;
        assert(before.sections[active as int] == self.sections@[active as int]@);
        assert(before.sections[active as int].wf());
        self.sections[active].activate_idx(idx, &mut self.outbox);
        proof {
            let done = before.at(active as int).activate_idx(idx);
            assert(self@ == before.after(active as int, done));
            lemma_after_wf(before, active as int, done);
        }
    }

    /// Focuses a window of the active section by its number, counted from one and kept within the
    /// windows.
    pub fn focus_window_in_section(&mut self, index: u8)
        requires
            old(self)@.wf(),
        ensures
            final(self)@ == if old(self)@.sections.len() > 0 {
                old(self)@.focus_leaf(
                    focused_index(index, old(self)@.active().tiles().len() as int),
                )
            } else {
                old(self)@
            },
            final(self)@.wf(),
            keeps_windows(old(self)@, final(self)@),
    {
        if self.is_empty() {
            return;
        }
        let ghost before = self@;
        let active: usize = self.props.active_section_idx;
        assert(before.sections[active as int] == self.sections@[active as int]@);
        assert(before.sections[active as int].wf());
        self.sections[active].focus_index(index, &mut self.outbox);
        proof {
            let done = before.at(active as int).activate_idx(
                focused_index(index, before.active().tiles().len() as int),
            );
            assert(self@ == before.after(active as int, done));
            lemma_after_wf(before, active as int, done);
        }
    }

    pub fn focus_down(&mut self) -> (r: bool)
        requires
            old(self)@.wf(),
        ensures
            final(self)@ == old(self)@.focus_inside(SplitAxis::Cross, true),
            r == old(self)@.can_focus_inside(SplitAxis::Cross, true),
            final(self)@.wf(),
            keeps_windows(old(self)@, final(self)@),
    {
        self.focus_inside(SplitAxis::Cross, true)
    }

    pub fn focus_up(&mut self) -> (r: bool)
        requires
            old(self)@.wf(),
        ensures
            final(self)@ == old(self)@.focus_inside(SplitAxis::Cross, false),
            r == old(self)@.can_focus_inside(SplitAxis::Cross, false),
            final(self)@.wf(),
            keeps_windows(old(self)@, final(self)@),
    {
        self.focus_inside(SplitAxis::Cross, false)
    }

    fn focus_cross_or_main(&mut self, down: bool, forwards: bool)
        requires
            old(self)@.wf(),
        ensures
            final(self)@ == old(self)@.focus_cross_or_main(down, forwards),
            final(self)@.wf(),
            keeps_windows(old(self)@, final(self)@),
    {
        if !self.focus_inside(SplitAxis::Cross, down) {
            self.focus_along_main(forwards);
        }
    }

    pub fn focus_down_or_left(&mut self)
        requires
            old(self)@.wf(),
        ensures
            final(self)@ == old(self)@.focus_cross_or_main(true, false),
            final(self)@.wf(),
            keeps_windows(old(self)@, final(self)@),
    {
        self.focus_cross_or_main(true, false);
    }

    pub fn focus_down_or_right(&mut self)
        requires
            old(self)@.wf(),
        ensures
            final(self)@ == old(self)@.focus_cross_or_main(true, true),
            final(self)@.wf(),
            keeps_windows(old(self)@, final(self)@),
    {
        self.focus_cross_or_main(true, true);
    }

    pub fn focus_up_or_left(&mut self)
        requires
            old(self)@.wf(),
        ensures
            final(self)@ == old(self)@.focus_cross_or_main(false, false),
            final(self)@.wf(),
            keeps_windows(old(self)@, final(self)@),
    {
        self.focus_cross_or_main(false, false);
    }

    pub fn focus_up_or_right(&mut self)
        requires
            old(self)@.wf(),
        ensures
            final(self)@ == old(self)@.focus_cross_or_main(false, true),
            final(self)@.wf(),
            keeps_windows(old(self)@, final(self)@),
    {
        self.focus_cross_or_main(false, true);
    }

    /// Focuses the first window of the active section.
    pub fn focus_top(&mut self)
        requires
            old(self)@.wf(),
        ensures
            final(self)@ == if old(self)@.sections.len() > 0 {
                old(self)@.focus_leaf(0)
            } else {
                old(self)@
            },
            final(self)@.wf(),
            keeps_windows(old(self)@, final(self)@),
    {
        if !self.is_empty() {
            self.focus_leaf(0);
        }
    }

    /// Focuses the last window of the active section.
    pub fn focus_bottom(&mut self)
        requires
            old(self)@.wf(),
        ensures
            final(self)@ == if old(self)@.sections.len() > 0 {
                old(self)@.focus_leaf((old(self)@.active().tiles().len() - 1) as usize)
            } else {
                old(self)@
            },
            final(self)@.wf(),
            keeps_windows(old(self)@, final(self)@),
    {
        if !self.is_empty() {
            let active: usize = self.props.active_section_idx;
            assert(self@.sections[active as int] == self.sections@[active as int]@);
            proof {
                crate::tree_walk::lemma_has_leaf(self@.sections[active as int].root);
            }
            let last: usize = self.sections[active].tiles_len() - 1;
            self.focus_leaf(last);
        }
    }

    /// Moves the active section to a number, counted from one and kept within the sections.
    pub fn move_section_to_index(&mut self, index: usize)
        requires
            old(self)@.wf(),
        ensures
            final(self)@ == if old(self)@.sections.len() > 0 {
                old(self)@.move_section_to(index_within(index, old(self)@.sections.len() as int))
            } else {
                old(self)@
            },
            final(self)@.wf(),
            keeps_windows(old(self)@, final(self)@),
    {
        if !self.is_empty() {
            let idx: usize = pick_index_within(index, self.sections.len());
            self.move_section_to(idx);
        }
    }

    #[verifier::spinoff_prover]
    fn replace_section(&mut self, new_idx: usize)
        requires
            old(self)@.wf(),
            new_idx < old(self)@.sections.len(),
        ensures
            final(self)@ == old(self)@.section_replaced(new_idx as int),
            final(self)@.wf(),
            keeps_windows(old(self)@, final(self)@),
    {
        let ghost before = self@;
        let active: usize = self.props.active_section_idx;
        assert(before.sections[active as int] == self.sections@[active as int]@);
        let section = self.sections.remove(active);
        let mut resize = self.props.interactive_resize;
        cancel_resize_for_section(&mut resize, &section, &mut self.outbox);
        self.props.interactive_resize = resize;
        self.sections.insert(new_idx, section);
        proof {
            let removed = before.sections.remove(active as int);
            assert(self@.sections =~= removed.insert(new_idx as int, section@));
            lemma_windows_remove(before.sections, active as int);
            lemma_windows_insert(removed, new_idx as int, section@);
            assert forall|j: int| 0 <= j < self@.sections.len() implies (
            #[trigger] self@.sections[j]).wf() by {
                let k = if j == new_idx {
                    active as int
                } else {
                    let m = if j < new_idx {
                        j
                    } else {
                        j - 1
                    };
                    if m < active {
                        m
                    } else {
                        m + 1
                    }
                };
                assert(self@.sections[j] == before.sections[k]);
            }
            assert(self@.is_in_step()) by {
                reveal(in_step);
                assert forall|j: int| 0 <= j < self@.sections.len() implies (
                #[trigger] self@.sections[j]).place() == before.place() by {
                    assert(removed.insert(new_idx as int, section@)[j] == self@.sections[j]);
                    if j == new_idx {
                        assert(before.sections[active as int].place() == before.place());
                    } else {
                        let m = if j < new_idx {
                            j
                        } else {
                            j - 1
                        };
                        let k = if m < active {
                            m
                        } else {
                            m + 1
                        };
                        assert(self@.sections[j] == before.sections[k]);
                    }
                }
            }
        }
    }

    /// Moves the active section to another place. It and the sections in between move there from
    /// where they were, and the view is kept in place until it follows.
    pub fn move_section_to(&mut self, new_idx: usize)
        requires
            old(self)@.wf(),
            new_idx < old(self)@.sections.len(),
        ensures
            final(self)@ == old(self)@.move_section_to(new_idx as int),
            final(self)@.wf(),
            keeps_windows(old(self)@, final(self)@),
    {
        let active: usize = self.props.active_section_idx;
        if active == new_idx {
            return;
        }
        let current = self.section_main_pos(active);
        let next = self.section_main_pos(active + 1);
        self.replace_section(new_idx);
        let mut view_offset = self.props.view_offset;
        view_offset.offset(self.section_main_pos(active).neg().add(current));
        self.props.view_offset = view_offset;
        let new_main = self.section_main_pos(new_idx);
        let kind = AnimationKind::WindowMovement;
        self.move_sections(new_idx, new_idx + 1, current.sub(new_main), kind);
        let between = next.sub(current);
        if active < new_idx {
            self.move_sections(active, new_idx, between, kind);
        } else {
            self.move_sections(new_idx + 1, active + 1, between.neg(), kind);
        }
        self.activate_section_with_anim_config(new_idx, kind);
    }

    pub fn move_left(&mut self) -> (r: bool)
        requires
            old(self)@.wf(),
        ensures
            r == old(self)@.has_neighbor(false),
            final(self)@ == if r {
                old(self)@.move_section_to(old(self)@.props.active_section_idx - 1)
            } else {
                old(self)@
            },
            final(self)@.wf(),
            keeps_windows(old(self)@, final(self)@),
    {
        let active: usize = self.props.active_section_idx;
        if active == 0 {
            return false;
        }
        self.move_section_to(active - 1);
        true
    }

    pub fn move_right(&mut self) -> (r: bool)
        requires
            old(self)@.wf(),
        ensures
            r == old(self)@.has_neighbor(true),
            final(self)@ == if r {
                old(self)@.move_section_to(old(self)@.props.active_section_idx + 1)
            } else {
                old(self)@
            },
            final(self)@.wf(),
            keeps_windows(old(self)@, final(self)@),
    {
        let active: usize = self.props.active_section_idx;
        if self.is_empty() || active >= self.sections.len() - 1 {
            return false;
        }
        self.move_section_to(active + 1);
        true
    }

    pub fn move_section_to_first(&mut self)
        requires
            old(self)@.wf(),
        ensures
            final(self)@ == if old(self)@.sections.len() > 0 {
                old(self)@.move_section_to(0)
            } else {
                old(self)@
            },
            final(self)@.wf(),
            keeps_windows(old(self)@, final(self)@),
    {
        if !self.is_empty() {
            self.move_section_to(0);
        }
    }

    pub fn move_section_to_last(&mut self)
        requires
            old(self)@.wf(),
        ensures
            final(self)@ == if old(self)@.sections.len() > 0 {
                old(self)@.move_section_to(old(self)@.sections.len() - 1)
            } else {
                old(self)@
            },
            final(self)@.wf(),
            keeps_windows(old(self)@, final(self)@),
    {
        if !self.is_empty() {
            let last: usize = self.sections.len() - 1;
            self.move_section_to(last);
        }
    }

    #[verifier::spinoff_prover]
    fn move_inside(&mut self, forwards: bool) -> (r: bool)
        requires
            old(self)@.wf(),
        ensures
            final(self)@ == old(self)@.move_inside(forwards),
            r == old(self)@.can_move_inside(forwards),
            final(self)@.wf(),
            keeps_windows(old(self)@, final(self)@),
    {
        if self.is_empty() {
            return false;
        }
        let ghost before = self@;
        let active: usize = self.props.active_section_idx;
        assert(before.sections[active as int] == self.sections@[active as int]@);
        assert(before.sections[active as int].wf());
        let moved = self.sections[active].swap_in_axis(
            &self.options,
            SplitAxis::Cross,
            forwards,
            &mut self.outbox,
        );
        proof {
            let done = before.at(active as int).swap_in_axis(
                before.options,
                SplitAxis::Cross,
                forwards,
            );
            assert(self@ == before.after(active as int, done));
            lemma_after_wf(before, active as int, done);
        }
        moved
    }

    /// Moves what is active down in its section.
    pub fn move_down(&mut self) -> (r: bool)
        requires
            old(self)@.wf(),
        ensures
            final(self)@ == old(self)@.move_inside(true),
            r == old(self)@.can_move_inside(true),
            final(self)@.wf(),
            keeps_windows(old(self)@, final(self)@),
    {
        self.move_inside(true)
    }

    /// Moves what is active up in its section.
    pub fn move_up(&mut self) -> (r: bool)
        requires
            old(self)@.wf(),
        ensures
            final(self)@ == old(self)@.move_inside(false),
            r == old(self)@.can_move_inside(false),
            final(self)@.wf(),
            keeps_windows(old(self)@, final(self)@),
    {
        self.move_inside(false)
    }
}

} // verus!
