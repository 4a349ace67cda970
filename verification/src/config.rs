//! Options of the layout and the plain values that its operations are told in.
use vstd::prelude::*;

use crate::axis::{MainAxis, ResizeEdge};
use crate::geometry::Size;
use crate::scalar::{clamp, clamped, num, Scalar};
use crate::tab_bar::TabBarConfig;

verus! {

/// How much of the screen a window takes.
#[derive(Clone, Copy, PartialEq, Eq, Structural, Debug)]
pub enum SizingMode {
    Normal,
    Maximized,
    Fullscreen,
}

impl SizingMode {
    pub fn is_normal(&self) -> (r: bool)
        ensures
            r == (*self == SizingMode::Normal),
    {
        matches!(self, SizingMode::Normal)
    }

    pub fn is_maximized(&self) -> (r: bool)
        ensures
            r == (*self == SizingMode::Maximized),
    {
        matches!(self, SizingMode::Maximized)
    }

    pub fn is_fullscreen(&self) -> (r: bool)
        ensures
            r == (*self == SizingMode::Fullscreen),
    {
        matches!(self, SizingMode::Fullscreen)
    }
}

/// How a section shows its windows.
#[derive(Clone, Copy, PartialEq, Eq, Structural, Debug)]
pub enum SectionDisplay {
    /// All at once.
    Normal,
    /// One at a time, as tabs.
    Tabbed,
}

/// When the focused section is centered in the view.
#[derive(Clone, Copy, PartialEq, Eq, Structural, Debug)]
pub enum CenterFocusedSection {
    Never,
    Always,
    /// When it does not fit into the view together with the section that was focused before.
    OnOverflow,
}

/// What dragging a tiled window does to its place in the layout.
#[derive(Clone, Copy, PartialEq, Eq, Structural, Debug)]
pub enum TilingDrag {
    InPlace,
    Detach,
}

/// A configured span along one axis.
#[derive(Clone, Copy, PartialEq, Eq, Debug)]
pub enum PresetSize<N> {
    Proportion(N),
    Fixed(i32),
}

/// A configured span made absolute, for the tile or for the window inside of it.
#[derive(Clone, Copy, PartialEq, Eq, Debug)]
pub enum ResolvedSize<N> {
    Tile(N),
    Window(N),
}

/// A requested change of a span. Proportions are in percent.
#[derive(Clone, Copy, PartialEq, Eq, Debug)]
pub enum SizeChange<N> {
    SetFixed(i32),
    SetProportion(N),
    AdjustFixed(i32),
    AdjustProportion(N),
}

/// Main-axis span of a section.
#[derive(Clone, Copy, PartialEq, Eq, Debug)]
pub enum SectionWidth<N> {
    /// Proportion of the current view along the main axis.
    Proportion(N),
    /// Fixed main-axis span in logical pixels.
    Fixed(N),
}

/// Cross-axis span of a window in a section.
///
/// Every window but one in a section must be `Auto`-sized so that the total cross-axis span can
/// add up to the workspace cross-axis span. Resizing a window converts all other windows to
/// `Auto`, weighted to preserve their visual spans at the moment of the conversion.
#[derive(Clone, Copy, PartialEq, Eq, Debug)]
pub enum WindowHeight<N> {
    /// Automatically computed *tile* cross span, distributed across the section according to
    /// weights.
    Auto { weight: N },
    /// Fixed *window* cross span in logical pixels.
    Fixed(N),
    /// One of the preset cross spans (tile or window).
    Preset(usize),
}

/// Direction along the main axis of an operation that has a mirrored counterpart.
#[derive(Clone, Copy, PartialEq, Eq, Structural, Debug)]
pub enum ScrollDirection {
    Left,
    Right,
}

/// The axis along which a split arranges its children.
#[derive(Clone, Copy, PartialEq, Eq, Structural, Debug)]
pub enum SplitAxis {
    Main,
    Cross,
}

/// Space at the edges of the screen that windows stay out of.
#[derive(Clone, Copy, PartialEq, Eq, Debug)]
pub struct Struts<N> {
    pub left: N,
    pub right: N,
    pub top: N,
    pub bottom: N,
}

/// The border drawn around windows.
#[derive(Clone, Copy, PartialEq, Eq, Debug)]
pub struct Border<N> {
    pub off: bool,
    pub width: N,
}

/// The side of a section where the tab indicator stands.
#[derive(Clone, Copy, PartialEq, Eq, Structural, Debug)]
pub enum TabIndicatorPosition {
    Left,
    Right,
    Top,
    Bottom,
}

/// How tab indicators look.
#[derive(Clone, Copy, PartialEq, Eq, Debug)]
pub struct TabIndicatorConfig<N> {
    pub off: bool,
    pub hide_when_single_tab: bool,
    pub place_within_section: bool,
    pub gap: N,
    pub width: N,
    pub position: TabIndicatorPosition,
}

/// Which kind of header tabbing containers have.
#[derive(Clone, Copy, PartialEq, Eq, Structural, Debug)]
pub enum TabStyle {
    Indicator,
    Bar,
}

/// How the headers of tabbing containers look.
#[derive(Clone, Copy, PartialEq, Eq, Debug)]
pub struct TabHeaderConfig<N> {
    pub style: TabStyle,
    pub indicator: TabIndicatorConfig<N>,
    pub bar: TabBarConfig<N>,
}

/// Options of the arrangement of windows.
#[derive(Clone, Copy, PartialEq, Eq, Debug)]
pub struct LayoutOptions<N> {
    pub main_axis: MainAxis,
    pub gaps: N,
    pub struts: Struts<N>,
    pub border: Border<N>,
    pub center_focused_section: CenterFocusedSection,
    pub always_center_single_section: bool,
    pub default_section_display: SectionDisplay,
    pub tab_indicator: TabIndicatorConfig<N>,
    pub tab_header: TabHeaderConfig<N>,
    pub tiling_drag: TilingDrag,
    /// How long a drag has to stay in the edge zone before the view scrolls, in nanoseconds.
    pub dnd_scroll_delay: u64,
    /// Logical pixels per second that a drag in the edge zone scrolls the view by.
    pub dnd_scroll_max_speed: N,
    pub disable_transactions: bool,
    pub disable_resize_throttling: bool,
    pub deactivate_unfocused_windows: bool,
}

/// All options of a layout.
pub struct Options<N> {
    pub layout: LayoutOptions<N>,
    pub preset_section_widths: Vec<PresetSize<N>>,
    pub preset_window_heights: Vec<PresetSize<N>>,
}

/// What the configured rules say of a window. The border is the configured one as the rules of the
/// window change it.
#[derive(Clone, Copy, PartialEq, Eq, Debug)]
pub struct WindowRules<N> {
    pub border: Border<N>,
    pub default_section_display: Option<SectionDisplay>,
}

/// Whether and why a window should be told of its new state.
#[derive(Clone, Copy, PartialEq, Eq, Structural, Debug)]
pub enum ConfigureIntent {
    NotNeeded,
    Throttled,
    CanSend,
    ShouldSend,
}

/// Where a dragged window is going to land. Tiles are counted along the leaves of a section.
#[derive(Clone, Copy, PartialEq, Eq, Structural, Debug)]
pub enum InsertPosition {
    NewSection(usize),
    InSection(usize, usize),
    InSplit(usize, usize, SplitAxis, bool),
    InsertTab(usize, usize),
    Swap(usize, usize),
    Floating,
}

/// A resize of a window by dragging its edges.
#[derive(Clone, Copy, PartialEq, Eq, Debug)]
pub struct InteractiveResize<N> {
    pub window: u64,
    pub original_window_size: Size<N>,
    pub edges: ResizeEdge,
}

/// A whole-pixel size told to a window.
#[derive(Clone, Copy, PartialEq, Eq, Structural, Debug)]
pub struct WholeSize {
    pub w: i32,
    pub h: i32,
}

impl<N: Scalar> PresetSize<N> {
    pub open spec fn spec_same(self, other: Self) -> bool {
        match (self, other) {
            (PresetSize::Proportion(a), PresetSize::Proportion(b)) => a.spec_same(b),
            (PresetSize::Fixed(a), PresetSize::Fixed(b)) => a == b,
            _ => false,
        }
    }

    pub fn same(&self, other: &Self) -> (r: bool)
        ensures
            r == self.spec_same(*other),
    {
        match (self, other) {
            (PresetSize::Proportion(a), PresetSize::Proportion(b)) => a.same(*b),
            (PresetSize::Fixed(a), PresetSize::Fixed(b)) => *a == *b,
            _ => false,
        }
    }
}

/// Whether two lists of presets are the same.
pub open spec fn same_presets<N: Scalar>(a: Seq<PresetSize<N>>, b: Seq<PresetSize<N>>) -> bool {
    a.len() == b.len() && forall|i: int| 0 <= i < a.len() ==> #[trigger] a[i].spec_same(b[i])
}

pub fn presets_are_same<N: Scalar>(a: &Vec<PresetSize<N>>, b: &Vec<PresetSize<N>>) -> (r: bool)
    ensures
        r == same_presets(a@, b@),
{
    if a.len() != b.len() {
        return false;
    }
    let mut i: usize = 0;
    while i < a.len()
        invariant
            i <= a.len(),
            a.len() == b.len(),
            forall|j: int| 0 <= j < i ==> #[trigger] a@[j].spec_same(b@[j]),
        decreases a.len() - i,
    {
        if !a[i].same(&b[i]) {
            assert(!a@[i as int].spec_same(b@[i as int]));
            return false;
        }
        i = i + 1;
    }
    true
}

impl<N: Scalar> SizeChange<N> {
    pub open spec fn of_preset(preset: PresetSize<N>) -> Self {
        match preset {
            PresetSize::Proportion(p) => SizeChange::SetProportion(p * num::<N>(100)),
            PresetSize::Fixed(f) => SizeChange::SetFixed(f),
        }
    }

    /// The change that sets a preset size.
    pub fn from_preset(preset: PresetSize<N>) -> (r: Self)
        ensures
            r == Self::of_preset(preset),
    {
        match preset {
            PresetSize::Proportion(p) => SizeChange::SetProportion(p.mul(N::of_int(100))),
            PresetSize::Fixed(f) => SizeChange::SetFixed(f),
        }
    }
}

impl<N: Scalar> SectionWidth<N> {
    /// A preset as a section width, within limits that keep spans representable.
    pub open spec fn of_preset(preset: PresetSize<N>) -> Self {
        match preset {
            PresetSize::Proportion(p) => SectionWidth::Proportion(
                clamped(p, num::<N>(0), num::<N>(10000)),
            ),
            PresetSize::Fixed(f) => SectionWidth::Fixed(
                num::<N>(
                    if f < 1 {
                        1
                    } else if f > 100000 {
                        100000
                    } else {
                        f as int
                    },
                ),
            ),
        }
    }

    pub open spec fn spec_same(self, other: Self) -> bool {
        match (self, other) {
            (SectionWidth::Proportion(a), SectionWidth::Proportion(b)) => a.spec_same(b),
            (SectionWidth::Fixed(a), SectionWidth::Fixed(b)) => a.spec_same(b),
            _ => false,
        }
    }

    /// The section width that a preset stands for.
    pub fn from_preset(preset: PresetSize<N>) -> (r: Self)
        ensures
            r == Self::of_preset(preset),
    {
        match preset {
            PresetSize::Proportion(p) => SectionWidth::Proportion(
                clamp(p, N::of_int(0), N::of_int(10000)),
            ),
            PresetSize::Fixed(f) => {
                let f: i64 = if f < 1 {
                    1
                } else if f > 100000 {
                    100000
                } else {
                    f as i64
                };
                SectionWidth::Fixed(N::of_int(f))
            },
        }
    }

    pub fn same(&self, other: &Self) -> (r: bool)
        ensures
            r == self.spec_same(*other),
    {
        match (self, other) {
            (SectionWidth::Proportion(a), SectionWidth::Proportion(b)) => a.same(*b),
            (SectionWidth::Fixed(a), SectionWidth::Fixed(b)) => a.same(*b),
            _ => false,
        }
    }
}

impl<N: Scalar> TabIndicatorConfig<N> {
    pub open spec fn spec_same(self, other: Self) -> bool {
        &&& self.off == other.off
        &&& self.hide_when_single_tab == other.hide_when_single_tab
        &&& self.place_within_section == other.place_within_section
        &&& self.gap.spec_same(other.gap)
        &&& self.width.spec_same(other.width)
        &&& self.position == other.position
    }

    pub fn same(&self, other: &Self) -> (r: bool)
        ensures
            r == self.spec_same(*other),
    {
        self.off == other.off && self.hide_when_single_tab == other.hide_when_single_tab
            && self.place_within_section == other.place_within_section && self.gap.same(other.gap)
            && self.width.same(other.width) && self.position == other.position
    }
}

/// A preset span made absolute within a span of the working area.
pub open spec fn resolved_preset<N: Scalar>(
    preset: PresetSize<N>,
    gaps: N,
    view_size: N,
    extra_size: N,
) -> ResolvedSize<N> {
    match preset {
        PresetSize::Proportion(proportion) => ResolvedSize::Tile(
            (view_size - gaps) * proportion - gaps - extra_size,
        ),
        PresetSize::Fixed(width) => ResolvedSize::Window(num::<N>(width as int)),
    }
}

/// Makes a preset span absolute within a span of the working area.
pub fn resolve_preset_size<N: Scalar>(
    preset: PresetSize<N>,
    gaps: N,
    view_size: N,
    extra_size: N,
) -> (r: ResolvedSize<N>)
    ensures
        r == resolved_preset(preset, gaps, view_size, extra_size),
{
    match preset {
        PresetSize::Proportion(proportion) => ResolvedSize::Tile(
            view_size.sub(gaps).mul(proportion).sub(gaps).sub(extra_size),
        ),
        PresetSize::Fixed(width) => ResolvedSize::Window(N::of_int(width as i64)),
    }
}

} // verus!
