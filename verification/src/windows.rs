//! Which windows a layout holds, whatever their order.
use vstd::multiset::Multiset;
use vstd::prelude::*;

use crate::scalar::Scalar;
use crate::section::{has_window, SectionView};
use crate::section_size::Work;
use crate::space::SpaceView;
use crate::space_add::gained;
use crate::space_remove::{lost, lost_section};
use crate::tile::Tile;

verus! {

/// The windows of some tiles, in order.
pub open spec fn ids<N>(tiles: Seq<Tile<N>>) -> Seq<u64> {
    Seq::new(tiles.len(), |i: int| tiles[i].id)
}

/// The windows of some tiles.
#[verifier::opaque]
pub open spec fn bag<N>(tiles: Seq<Tile<N>>) -> Multiset<u64> {
    ids(tiles).to_multiset()
}

impl<N: Scalar> SectionView<N> {
    /// The windows of the section.
    pub open spec fn windows(self) -> Multiset<u64> {
        bag(self.tiles())
    }
}

/// The windows of some sections.
#[verifier::opaque]
pub open spec fn windows_of<N: Scalar>(sections: Seq<SectionView<N>>) -> Multiset<u64>
    decreases sections.len(),
{
    if sections.len() == 0 {
        Multiset::empty()
    } else {
        windows_of(sections.drop_last()).add(sections.last().windows())
    }
}

impl<N: Scalar> SpaceView<N> {
    /// The windows of the space.
    pub open spec fn windows(self) -> Multiset<u64> {
        windows_of(self.sections)
    }

    /// Whether the window that is being resized, if any is, is in the space.
    pub open spec fn resizes_own(self) -> bool {
        self.props.interactive_resize matches Some(resize) ==> self.windows().contains(
            resize.window,
        )
    }
}

/// Nothing was lost, added or doubled, and a resize that is going on is of a window that is there.
pub open spec fn keeps_windows<N: Scalar>(before: SpaceView<N>, after: SpaceView<N>) -> bool {
    &&& after.windows() == before.windows()
    &&& before.resizes_own() ==> after.resizes_own()
}

/// One window was added and nothing else changed.
pub open spec fn gains_window<N: Scalar>(
    before: SpaceView<N>,
    after: SpaceView<N>,
    window: u64,
) -> bool {
    &&& after.windows() == before.windows().insert(window)
    &&& before.resizes_own() ==> after.resizes_own()
}

/// Some windows were added and nothing else changed.
pub open spec fn gains_windows<N: Scalar>(
    before: SpaceView<N>,
    after: SpaceView<N>,
    windows: Multiset<u64>,
) -> bool {
    &&& after.windows() == before.windows().add(windows)
    &&& before.resizes_own() ==> after.resizes_own()
}

/// One window was taken away and nothing else changed.
pub open spec fn loses_window<N: Scalar>(
    before: SpaceView<N>,
    after: SpaceView<N>,
    window: u64,
) -> bool {
    &&& before.windows() == after.windows().insert(window)
    &&& before.resizes_own() ==> after.resizes_own()
}

/// Some windows were taken away and nothing else changed.
pub open spec fn loses_windows<N: Scalar>(
    before: SpaceView<N>,
    after: SpaceView<N>,
    windows: Multiset<u64>,
) -> bool {
    &&& before.windows() == after.windows().add(windows)
    &&& before.resizes_own() ==> after.resizes_own()
}

pub proof fn lemma_bag_insert<N>(tiles: Seq<Tile<N>>, i: int, tile: Tile<N>)
    requires
        0 <= i <= tiles.len(),
    ensures
        bag(tiles.insert(i, tile)) == bag(tiles).insert(tile.id),
{
    reveal(bag);
    assert(ids(tiles.insert(i, tile)) =~= ids(tiles).insert(i, tile.id));
    vstd::seq_lib::to_multiset_insert(ids(tiles), i, tile.id);
}

pub proof fn lemma_bag_concat<N>(a: Seq<Tile<N>>, b: Seq<Tile<N>>)
    ensures
        bag(a + b) == bag(a).add(bag(b)),
{
    reveal(bag);
    assert(ids(a + b) =~= ids(a) + ids(b));
    vstd::seq_lib::lemma_multiset_commutative(ids(a), ids(b));
}

pub proof fn lemma_bag_remove<N>(tiles: Seq<Tile<N>>, i: int)
    requires
        0 <= i < tiles.len(),
    ensures
        bag(tiles) == bag(tiles.remove(i)).insert(tiles[i].id),
{
    assert(tiles.remove(i).insert(i, tiles[i]) =~= tiles);
    lemma_bag_insert(tiles.remove(i), i, tiles[i]);
}

/// Tiles with the same windows in the same order hold the same windows.
pub proof fn lemma_bag_same_ids<N>(a: Seq<Tile<N>>, b: Seq<Tile<N>>)
    requires
        a.len() == b.len(),
        forall|i: int| 0 <= i < a.len() ==> (#[trigger] a[i]).id == b[i].id,
    ensures
        bag(a) == bag(b),
{
    reveal(bag);
    assert(ids(a) =~= ids(b));
}

/// Putting another tile in the place of one exchanges their windows.
pub proof fn lemma_bag_update<N>(tiles: Seq<Tile<N>>, i: int, tile: Tile<N>)
    requires
        0 <= i < tiles.len(),
    ensures
        bag(tiles.update(i, tile)).insert(tiles[i].id) == bag(tiles).insert(tile.id),
{
    lemma_bag_remove(tiles, i);
    lemma_bag_remove(tiles.update(i, tile), i);
    assert(tiles.update(i, tile).remove(i) =~= tiles.remove(i));
    let rest = bag(tiles.remove(i));
    assert(rest.insert(tile.id).insert(tiles[i].id) =~= rest.insert(tiles[i].id).insert(tile.id));
}

/// A window is among some tiles exactly if it is in their bag.
pub proof fn lemma_bag_contains<N>(tiles: Seq<Tile<N>>, window: u64)
    ensures
        bag(tiles).contains(window) <==> has_window(tiles, window),
{
    reveal(bag);
    let all = ids(tiles);
    all.to_multiset_ensures();
    assert(all.contains(window) <==> bag(tiles).contains(window));
    if has_window(tiles, window) {
        let i = choose|i: int| 0 <= i < tiles.len() && (#[trigger] tiles[i]).id == window;
        assert(all[i] == window);
    }
    if all.contains(window) {
        let i = choose|i: int| 0 <= i < all.len() && all[i] == window;
        assert(tiles[i].id == window);
    }
}

/// Another section in the place of one exchanges their windows.
pub proof fn lemma_windows_update<N: Scalar>(
    sections: Seq<SectionView<N>>,
    i: int,
    section: SectionView<N>,
)
    requires
        0 <= i < sections.len(),
    ensures
        windows_of(sections.update(i, section)).add(sections[i].windows()) == windows_of(
            sections,
        ).add(section.windows()),
        sections[i].windows() == section.windows() ==> windows_of(sections.update(i, section))
            == windows_of(sections),
    decreases sections.len(),
{
    reveal(windows_of);
    let after = sections.update(i, section);
    let last = sections.len() - 1;
    if i == last {
        assert(after.drop_last() =~= sections.drop_last());
        let rest = windows_of(sections.drop_last());
        assert(rest.add(section.windows()).add(sections[i].windows()) =~= rest.add(
            sections[i].windows(),
        ).add(section.windows()));
    } else {
        lemma_windows_update(sections.drop_last(), i, section);
        assert(after.drop_last() =~= sections.drop_last().update(i, section));
        let a = windows_of(after.drop_last());
        let b = windows_of(sections.drop_last());
        let l = sections.last().windows();
        assert(after.last() == sections.last());
        assert(a.add(l).add(sections[i].windows()) =~= a.add(sections[i].windows()).add(l));
        assert(b.add(l).add(section.windows()) =~= b.add(section.windows()).add(l));
    }
}

/// Work on a section that keeps its windows keeps those of the space.
pub proof fn lemma_after_windows<N: Scalar>(space: SpaceView<N>, i: int, done: Work<N>)
    requires
        0 <= i < space.sections.len(),
        done.section.windows() == space.sections[i].windows(),
    ensures
        space.after(i, done).windows() == space.windows(),
        keeps_windows(space, space.after(i, done)),
{
    lemma_windows_update(space.sections, i, done.section);
}

/// A tile that comes into a section adds its window.
pub proof fn lemma_gained_windows<N: Scalar>(
    before: SpaceView<N>,
    after: SpaceView<N>,
    col: int,
    tile: Tile<N>,
)
    requires
        0 <= col < before.sections.len(),
        gained(before, after, col, tile),
    ensures
        after.windows() == before.windows().insert(tile.id),
{
    let had = before.sections[col].tiles();
    let has = after.sections[col].tiles();
    let k = choose|k: int| 0 <= k <= had.len() && has == #[trigger] had.insert(k, tile);
    lemma_bag_insert(had, k, tile);
    let mid = before.sections.update(col, after.sections[col]);
    lemma_windows_update(before.sections, col, after.sections[col]);
    lemma_windows_pointwise(after.sections, mid);
    lemma_windows_remove(before.sections, col);
    let rest = windows_of(before.sections.remove(col));
    let x = after.windows();
    let y = before.windows().insert(tile.id);
    assert forall|w: u64| #[trigger] x.count(w) == y.count(w) by {
        assert(x.add(bag(had)).count(w) == before.windows().add(bag(has)).count(w));
    }
    assert(x =~= y);
}

/// A tile that goes out of a section takes its window away.
pub proof fn lemma_lost_windows<N: Scalar>(
    before: SpaceView<N>,
    after: SpaceView<N>,
    col: int,
    idx: int,
)
    requires
        0 <= col < before.sections.len(),
        0 <= idx < before.sections[col].tiles().len(),
        lost(before, after, col, idx),
    ensures
        before.windows() == after.windows().insert(before.sections[col].tiles()[idx].id),
{
    let tile = before.sections[col].tiles()[idx];
    let had = before.sections[col].tiles();
    let has = after.sections[col].tiles();
    assert(had =~= has.insert(idx, tile));
    assert(gained(after, before, col, tile));
    lemma_gained_windows(after, before, col, tile);
}

/// A section that goes takes its windows away.
pub proof fn lemma_lost_section_windows<N: Scalar>(
    before: SpaceView<N>,
    after: SpaceView<N>,
    col: int,
)
    requires
        0 <= col < before.sections.len(),
        lost_section(before, after, col),
    ensures
        before.windows() == after.windows().add(before.sections[col].windows()),
{
    lemma_windows_remove(before.sections, col);
    let rest = before.sections.remove(col);
    assert forall|j: int| 0 <= j < after.sections.len() implies (
    #[trigger] after.sections[j]).windows() == rest[j].windows() by {
        assert(rest[j] == before.sections[if j < col {
            j
        } else {
            j + 1
        }]);
    }
    lemma_windows_pointwise(after.sections, rest);
}

/// A single tile has a single window.
pub proof fn lemma_bag_single<N>(tile: Tile<N>)
    ensures
        bag(seq![tile]) == Multiset::empty().insert(tile.id),
{
    reveal(bag);
    lemma_bag_insert(Seq::<Tile<N>>::empty(), 0, tile);
    assert(Seq::<Tile<N>>::empty().insert(0, tile) =~= seq![tile]);
    assert(ids(Seq::<Tile<N>>::empty()) =~= Seq::<u64>::empty());
    ids(Seq::<Tile<N>>::empty()).to_multiset_ensures();
    assert(bag(Seq::<Tile<N>>::empty()) =~= Multiset::empty());
}

/// Another section adds its windows.
pub proof fn lemma_windows_insert<N: Scalar>(
    sections: Seq<SectionView<N>>,
    i: int,
    section: SectionView<N>,
)
    requires
        0 <= i <= sections.len(),
    ensures
        windows_of(sections.insert(i, section)) == windows_of(sections).add(section.windows()),
    decreases sections.len(),
{
    reveal(windows_of);
    let after = sections.insert(i, section);
    if i == sections.len() {
        assert(after.drop_last() =~= sections);
    } else {
        lemma_windows_insert(sections.drop_last(), i, section);
        assert(after.drop_last() =~= sections.drop_last().insert(i, section));
        assert(after.last() == sections.last());
        let b = windows_of(sections.drop_last());
        let l = sections.last().windows();
        assert(b.add(section.windows()).add(l) =~= b.add(l).add(section.windows()));
    }
}

/// Taking a section away takes its windows away.
pub proof fn lemma_windows_remove<N: Scalar>(sections: Seq<SectionView<N>>, i: int)
    requires
        0 <= i < sections.len(),
    ensures
        windows_of(sections) == windows_of(sections.remove(i)).add(sections[i].windows()),
{
    assert(sections.remove(i).insert(i, sections[i]) =~= sections);
    lemma_windows_insert(sections.remove(i), i, sections[i]);
}

/// Sections with the same windows each have the same windows together.
pub proof fn lemma_windows_pointwise<N: Scalar>(
    a: Seq<SectionView<N>>,
    b: Seq<SectionView<N>>,
)
    requires
        a.len() == b.len(),
        forall|i: int| 0 <= i < a.len() ==> (#[trigger] a[i]).windows() == b[i].windows(),
    ensures
        windows_of(a) == windows_of(b),
    decreases a.len(),
{
    reveal(windows_of);
    if a.len() > 0 {
        assert forall|i: int| 0 <= i < a.drop_last().len() implies (
        #[trigger] a.drop_last()[i]).windows() == b.drop_last()[i].windows() by {
            assert(a.drop_last()[i] == a[i]);
            assert(b.drop_last()[i] == b[i]);
        }
        lemma_windows_pointwise(a.drop_last(), b.drop_last());
        assert(a.last() == a[a.len() - 1] && b.last() == b[b.len() - 1]);
    }
}

/// The windows of a section are among those of all sections.
pub proof fn lemma_windows_contain<N: Scalar>(
    sections: Seq<SectionView<N>>,
    i: int,
    window: u64,
)
    requires
        0 <= i < sections.len(),
    ensures
        sections[i].contains(window) ==> windows_of(sections).contains(window),
{
    lemma_windows_remove(sections, i);
    lemma_bag_contains(sections[i].tiles(), window);
}

/// A section has as many windows as tiles.
proof fn lemma_bag_len<N>(tiles: Seq<Tile<N>>)
    ensures
        bag(tiles).len() == tiles.len(),
{
    broadcast use vstd::seq_lib::group_to_multiset_ensures;

    reveal(bag);
}

/// There are at least as many windows as sections, and as tiles in any section.
proof fn lemma_windows_bound<N: Scalar>(sections: Seq<SectionView<N>>)
    requires
        forall|i: int| 0 <= i < sections.len() ==> (#[trigger] sections[i]).tiles().len() > 0,
    ensures
        sections.len() <= windows_of(sections).len(),
        forall|i: int|
            0 <= i < sections.len() ==> (#[trigger] sections[i]).tiles().len() <= windows_of(
                sections,
            ).len(),
    decreases sections.len(),
{
    reveal(windows_of);
    if sections.len() > 0 {
        let rest = sections.drop_last();
        lemma_bag_len(sections.last().tiles());
        assert(sections.last() == sections[sections.len() - 1]);
        assert forall|i: int| 0 <= i < rest.len() implies (#[trigger] rest[i]).tiles().len()
            > 0 by {
            assert(rest[i] == sections[i]);
        }
        lemma_windows_bound(rest);
        assert forall|i: int| 0 <= i < sections.len() implies (#[trigger] sections[i]).tiles().len()
            <= windows_of(sections).len() by {
            if i < rest.len() {
                assert(rest[i] == sections[i]);
            }
        }
    }
}

/// A space in order that holds fewer windows than can be counted has room for another section, and
/// for another tile in any section. What an operation says of the windows therefore tells whether
/// there is room for the next one: one that keeps them leaves as much room as there was.
pub proof fn law_few_windows_leave_room<N: Scalar>(space: SpaceView<N>)
    requires
        space.wf(),
        space.windows().len() < usize::MAX,
    ensures
        space.has_room(),
        space.sections.len() <= space.windows().len(),
        forall|i: int|
            0 <= i < space.sections.len() ==> (#[trigger] space.sections[i]).tiles().len()
                <= space.windows().len(),
{
    assert forall|i: int| 0 <= i < space.sections.len() implies (
    #[trigger] space.sections[i]).tiles().len() > 0 by {
        assert(space.sections[i].wf());
        crate::section::lemma_section_tiles(space.sections[i], space.layout());
    }
    lemma_windows_bound(space.sections);
}

} // verus!
