//! The bar with one labelled tab per child, shown at the top or bottom of a tabbing container.
use vstd::prelude::*;

use crate::animation::{drop_if_done, unless_done, Animation, AnimationKind};
use crate::geometry::{Point, Rectangle, Size};
use crate::insert_hint::Color;
use crate::scalar::{
    ceil_logical_in_physical, clamp, clamped, law_pixels_are_ordered, num, ordered,
    raised_in_physical, round_logical_in_physical, rounded_in_physical, Pixels, Scalar,
};

verus! {

/// Minimum (target) width of a single tab. Tabs never shrink below this; once the available width
/// cannot fit every tab at this width, the bar overflows and scrolls.
pub const MIN_TAB_WIDTH: i64 = 100;

/// Horizontal padding between the edge of a tab and its title.
pub const TITLE_PADDING: i64 = 4;

/// The side of the container where the bar stands.
#[derive(Clone, Copy, PartialEq, Eq, Structural, Debug)]
pub enum TabBarPosition {
    Top,
    Bottom,
}

/// How tab bars look.
#[derive(Clone, Copy, PartialEq, Eq, Debug)]
pub struct TabBarConfig<N> {
    pub off: bool,
    pub height: N,
    pub position: TabBarPosition,
    pub gaps_between_tabs: N,
    pub active_color: Option<Color<N>>,
    pub inactive_color: Option<Color<N>>,
    pub text_color: Color<N>,
    pub active_text_color: Option<Color<N>>,
    pub inactive_text_color: Option<Color<N>>,
}

/// What a bar has to know of one tab.
#[derive(Clone, Copy, PartialEq, Eq, Debug)]
pub struct TabInfo<N> {
    pub is_active: bool,
    pub is_urgent: bool,
    /// The extent of everything below the tab.
    pub geometry: Rectangle<N>,
}

/// A rendered title: the texture's handle and its logical size.
#[derive(Clone, Copy, PartialEq, Eq, Debug)]
pub struct TitleTexture<N> {
    pub handle: u64,
    pub size: Size<N>,
}

/// The rendered title of a single tab.
///
/// The color of the text is part of the texture, so it is part of the key of the cache.
pub struct CachedTitle<N> {
    title: String,
    scale: N,
    color: Color<N>,
    texture: Option<Option<TitleTexture<N>>>,
}

/// What a [`CachedTitle`] holds.
pub ghost struct CachedTitleView<N> {
    pub title: Seq<char>,
    pub scale: N,
    pub color: Color<N>,
    pub texture: Option<Option<TitleTexture<N>>>,
}

impl<N> View for CachedTitle<N> {
    type V = CachedTitleView<N>;

    closed spec fn view(&self) -> CachedTitleView<N> {
        CachedTitleView {
            title: self.title@,
            scale: self.scale,
            color: self.color,
            texture: self.texture,
        }
    }
}

/// The largest side of a title texture, in pixels.
pub const MAX_TITLE_SIDE: i32 = 16383;

/// A side of a title texture, cut to what a surface can hold.
pub open spec fn cut_side(side: i32) -> i32 {
    if side < MAX_TITLE_SIDE {
        side
    } else {
        MAX_TITLE_SIDE
    }
}

/// The size of the texture for a title whose text has some size in pixels. There is none for an
/// empty text.
pub fn title_texture_size(width: i32, height: i32) -> (r: Option<(i32, i32)>)
    ensures
        r == if width == 0 || height == 0 {
            None
        } else {
            Some((cut_side(width), cut_side(height)))
        },
{
    if width == 0 || height == 0 {
        return None;
    }
    let width: i32 = if width < MAX_TITLE_SIDE {
        width
    } else {
        MAX_TITLE_SIDE
    };
    let height: i32 = if height < MAX_TITLE_SIDE {
        height
    } else {
        MAX_TITLE_SIDE
    };
    Some((width, height))
}

/// The parts of a color in the order of the fields.
pub open spec fn same_color<N: Scalar>(a: Color<N>, b: Color<N>) -> bool {
    a.r.spec_same(b.r) && a.g.spec_same(b.g) && a.b.spec_same(b.b) && a.a.spec_same(b.a)
}

fn colors_are_same<N: Scalar>(a: Color<N>, b: Color<N>) -> (r: bool)
    ensures
        r == same_color(a, b),
{
    a.r.same(b.r) && a.g.same(b.g) && a.b.same(b.b) && a.a.same(b.a)
}

impl<N: Scalar> CachedTitleView<N> {
    /// An entry that stands for no title yet.
    pub open spec fn blank() -> Self {
        let zero = num::<N>(0);
        CachedTitleView {
            title: Seq::empty(),
            scale: zero,
            color: Color { r: zero, g: zero, b: zero, a: zero },
            texture: None,
        }
    }

    pub open spec fn matches_key(self, title: Seq<char>, scale: N, color: Color<N>) -> bool {
        self.title == title && self.scale.spec_same(scale) && same_color(self.color, color)
    }

    /// The entry after it was asked for a title: unchanged on a hit, without a texture otherwise.
    pub open spec fn keyed(self, title: Seq<char>, scale: N, color: Color<N>) -> Self {
        if self.matches_key(title, scale, color) {
            self
        } else {
            CachedTitleView { title, scale, color, texture: None }
        }
    }
}

impl<N: Scalar> CachedTitle<N> {
    fn blank() -> (r: Self)
        ensures
            r@ == CachedTitleView::<N>::blank(),
    {
        let zero = N::of_int(0);
        CachedTitle {
            title: String::new(),
            scale: zero,
            color: Color { r: zero, g: zero, b: zero, a: zero },
            texture: None,
        }
    }

    /// The texture for a title, where it was stored before. `None` asks for one to be made, or
    /// to be found impossible, and stored.
    pub fn get(&mut self, title: &String, scale: N, color: Color<N>) -> (r: Option<
        Option<TitleTexture<N>>,
    >)
        ensures
            final(self)@ == old(self)@.keyed(title@, scale, color),
            r == final(self)@.texture,
    {
        if self.title != *title || !self.scale.same(scale) || !colors_are_same(self.color, color) {
            self.texture = None;
            self.title = title.clone();
            self.scale = scale;
            self.color = color;
        }
        self.texture
    }

    /// Stores what became of the request for a texture.
    pub fn store(&mut self, texture: Option<TitleTexture<N>>)
        ensures
            final(self)@ == (CachedTitleView { texture: Some(texture), ..old(self)@ }),
    {
        self.texture = Some(texture);
    }
}

/// Numbers and switches of a bar.
#[derive(Clone, Copy, PartialEq, Eq, Debug)]
pub struct TabBarProps<N> {
    /// Index of the active tab, as of the last update.
    pub active_idx: usize,
    /// The scale that the cached titles were made for.
    pub cached_scale: N,
    /// Horizontal scroll offset for overflowing tabs.
    pub scroll_offset: N,
    /// Total width of all tabs with the gaps between them.
    pub total_tabs_width: N,
    pub open_anim: Option<Animation<N>>,
    /// Whether the tabs are full-width rows on top of each other instead of a single row.
    pub stacked: bool,
    pub config: TabBarConfig<N>,
}

/// A horizontal header bar with text labels, one for each tab. The active tab is highlighted.
pub struct TabBar<N> {
    cached_titles: Vec<CachedTitle<N>>,
    tab_rects: Vec<Rectangle<N>>,
    props: TabBarProps<N>,
}

/// What a [`TabBar`] holds.
#[verifier::ext_equal]
pub ghost struct TabBarView<N> {
    pub titles: Seq<CachedTitleView<N>>,
    pub rects: Seq<Rectangle<N>>,
    pub props: TabBarProps<N>,
}

/// A background to draw.
#[derive(Clone, Copy, PartialEq, Eq, Debug)]
pub struct TabBackground<N> {
    pub location: Point<N>,
    pub size: Size<N>,
    pub color: Color<N>,
}

/// A title to draw. Only the part of the texture inside `src` is drawn where there is one.
#[derive(Clone, Copy, PartialEq, Eq, Debug)]
pub struct TabTitle<N> {
    pub texture: TitleTexture<N>,
    pub location: Point<N>,
    pub src: Option<Size<N>>,
}

/// A title that needs a texture.
#[derive(Clone, Copy, PartialEq, Eq, Debug)]
pub struct TitleRequest<N> {
    pub tab_idx: usize,
    pub color: Color<N>,
}

impl<N> View for TabBar<N> {
    type V = TabBarView<N>;

    closed spec fn view(&self) -> TabBarView<N> {
        TabBarView {
            titles: Seq::new(self.cached_titles@.len(), |i: int| self.cached_titles@[i]@),
            rects: self.tab_rects@,
            props: self.props,
        }
    }
}

/// The sequence cut to `len`, or filled up to it with `fill`.
pub open spec fn resized<T>(s: Seq<T>, len: nat, fill: T) -> Seq<T> {
    Seq::new(
        len,
        |i: int|
            if i < s.len() {
                s[i]
            } else {
                fill
            },
    )
}

/// Index of the last active one among the first `count` tabs, or `previous`.
pub open spec fn last_active<N>(tabs: Seq<TabInfo<N>>, count: int, previous: usize) -> usize
    decreases count,
{
    if count <= 0 {
        previous
    } else if tabs[count - 1].is_active {
        (count - 1) as usize
    } else {
        last_active(tabs, count - 1, previous)
    }
}

/// The measures that place the tabs of a bar.
pub ghost struct TabMeasures<N> {
    pub gap: N,
    pub total_gap: N,
    pub tab_width: N,
    pub bar_y: N,
    pub bar_height: N,
    pub row_height: N,
}

impl<N: Scalar> TabBarView<N> {
    pub open spec fn extra_size(self, tab_count: usize, scale: N) -> Size<N> {
        if self.props.config.off || self.props.config.height <= num::<N>(0) {
            Size::spec_zero()
        } else {
            let rows = if self.props.stacked && tab_count > 1 {
                num::<N>(tab_count as int)
            } else {
                num::<N>(1)
            };
            Size {
                w: num::<N>(0),
                h: rounded_in_physical(scale, self.props.config.height) * rows + num::<N>(1),
            }
        }
    }

    pub open spec fn content_offset(self, tab_count: usize, scale: N) -> Point<N> {
        if !self.props.config.off && self.props.config.position == TabBarPosition::Top {
            let extra = self.extra_size(tab_count, scale);
            Point { x: extra.w, y: extra.h }
        } else {
            Point::spec_zero()
        }
    }

    pub open spec fn measures(self, area: Rectangle<N>, count: usize, scale: N) -> TabMeasures<N> {
        let config = self.props.config;
        let gap = rounded_in_physical(scale, config.gaps_between_tabs);
        let total_gap = gap * (num::<N>(count as int) - num::<N>(1)).spec_max(num::<N>(0));
        let ideal_width = (area.size.w - total_gap).spec_div(num::<N>(count as int));
        let extra = self.extra_size(count, scale);
        let progress = match self.props.open_anim {
            Some(animation) => animation.value.spec_max(num::<N>(0)),
            None => num::<N>(1),
        };
        let bar_y = match config.position {
            TabBarPosition::Top => area.loc.y - extra.h,
            TabBarPosition::Bottom => area.loc.y + area.size.h + (extra.h - rounded_in_physical(
                scale,
                config.height,
            )),
        };
        TabMeasures {
            gap,
            total_gap,
            tab_width: rounded_in_physical(scale, ideal_width).spec_max(
                raised_in_physical(scale, num::<N>(MIN_TAB_WIDTH as int)),
            ),
            bar_y: rounded_in_physical(scale, bar_y),
            bar_height: rounded_in_physical(scale, config.height * progress),
            row_height: rounded_in_physical(scale, config.height),
        }
    }

    /// Where the tab `i` stands before the bar is scrolled.
    pub open spec fn tab_rect(
        self,
        area: Rectangle<N>,
        count: usize,
        scale: N,
        i: int,
    ) -> Rectangle<N> {
        let m = self.measures(area, count, scale);
        if self.props.stacked {
            Rectangle {
                loc: Point {
                    x: area.loc.x,
                    y: rounded_in_physical(scale, m.bar_y + num::<N>(i) * m.row_height),
                },
                size: Size { w: area.size.w, h: m.bar_height },
            }
        } else {
            Rectangle {
                loc: Point {
                    x: rounded_in_physical(
                        scale,
                        area.loc.x + num::<N>(i) * (m.tab_width + m.gap),
                    ),
                    y: m.bar_y,
                },
                size: Size { w: m.tab_width, h: m.bar_height },
            }
        }
    }

    /// The rectangles of all tabs before the bar is scrolled. A tab of which nothing was told
    /// keeps its rectangle.
    pub open spec fn unscrolled_rects(
        self,
        area: Rectangle<N>,
        count: usize,
        tabs: Seq<TabInfo<N>>,
        scale: N,
    ) -> Seq<Rectangle<N>> {
        let kept = resized(self.rects, count as nat, Rectangle::spec_zero());
        Seq::new(
            count as nat,
            |i: int|
                if i < tabs.len() {
                    self.tab_rect(area, count, scale, i)
                } else {
                    kept[i]
                },
        )
    }

    pub open spec fn updated_active_idx(self, count: usize, tabs: Seq<TabInfo<N>>) -> usize {
        last_active(
            tabs,
            if tabs.len() < count {
                tabs.len() as int
            } else {
                count as int
            },
            self.props.active_idx,
        )
    }

    /// The least scroll that shows the active tab, kept within the scrollable range.
    pub open spec fn scroll_to_active(
        self,
        area: Rectangle<N>,
        active: Option<Rectangle<N>>,
        total_tabs_width: N,
    ) -> N {
        let offset = self.props.scroll_offset;
        let target = match active {
            Some(rect) => {
                let left = rect.loc.x - area.loc.x;
                let right = left + rect.size.w;
                if left < offset {
                    left
                } else if offset + area.size.w < right {
                    right - area.size.w
                } else {
                    offset
                }
            },
            None => offset,
        };
        clamped(target, num::<N>(0), max_scroll(total_tabs_width, area.size.w))
    }

    /// The bar after its tabs were laid out anew.
    pub open spec fn updated(
        self,
        enabled: bool,
        area: Rectangle<N>,
        count: usize,
        tabs: Seq<TabInfo<N>>,
        scale: N,
    ) -> Self {
        if !enabled || self.props.config.off {
            TabBarView { rects: Seq::empty(), ..self }
        } else {
            let old_titles = if self.props.cached_scale.spec_same(scale) {
                self.titles
            } else {
                Seq::empty()
            };
            let cached_scale = if self.props.cached_scale.spec_same(scale) {
                self.props.cached_scale
            } else {
                scale
            };
            let titles = resized(old_titles, count as nat, CachedTitleView::blank());
            let active_idx = self.updated_active_idx(count, tabs);
            let rects = self.unscrolled_rects(area, count, tabs, scale);
            if self.props.stacked {
                TabBarView {
                    titles,
                    rects,
                    props: TabBarProps {
                        active_idx,
                        cached_scale,
                        total_tabs_width: area.size.w,
                        scroll_offset: num::<N>(0),
                        ..self.props
                    },
                }
            } else {
                let m = self.measures(area, count, scale);
                let total_tabs_width = num::<N>(count as int) * m.tab_width + m.total_gap;
                let active = if count > 0 {
                    Some(rects[active_idx as int])
                } else {
                    None
                };
                let scroll_offset = self.scroll_to_active(area, active, total_tabs_width);
                TabBarView {
                    titles,
                    rects: Seq::new(
                        rects.len(),
                        |i: int| moved_left(rects[i], scroll_offset),
                    ),
                    props: TabBarProps {
                        active_idx,
                        cached_scale,
                        total_tabs_width,
                        scroll_offset,
                        ..self.props
                    },
                }
            }
        }
    }

    /// The scroll offset after a scroll by `delta`.
    pub open spec fn scrolled(self, delta: N, area_width: N) -> N {
        clamped(
            self.props.scroll_offset + delta,
            num::<N>(0),
            max_scroll(self.props.total_tabs_width, area_width),
        )
    }

    pub open spec fn is_highlighted(self, i: int, is_column_active: bool) -> bool {
        i == self.props.active_idx && is_column_active
    }

    pub open spec fn background(
        self,
        pos: Point<N>,
        is_column_active: bool,
        i: int,
    ) -> TabBackground<N> {
        let config = self.props.config;
        TabBackground {
            location: pos + self.rects[i].loc,
            size: self.rects[i].size,
            color: if self.is_highlighted(i, is_column_active) {
                match config.active_color {
                    Some(color) => color,
                    None => grey::<N>(35, 100),
                }
            } else {
                match config.inactive_color {
                    Some(color) => color,
                    None => grey::<N>(2, 10),
                }
            },
        }
    }

    pub open spec fn text_color(self, i: int, is_column_active: bool) -> Color<N> {
        let config = self.props.config;
        let chosen = if self.is_highlighted(i, is_column_active) {
            config.active_text_color
        } else {
            config.inactive_text_color
        };
        match chosen {
            Some(color) => color,
            None => config.text_color,
        }
    }

    /// Where and how the title of tab `i` is drawn with a texture.
    pub open spec fn title_element(
        self,
        pos: Point<N>,
        i: int,
        texture: TitleTexture<N>,
    ) -> TabTitle<N> {
        let rect = self.rects[i];
        let padding = num::<N>(TITLE_PADDING as int);
        let max_width = (rect.size.w - num::<N>(2) * padding).spec_max(num::<N>(0));
        TabTitle {
            texture,
            location: Point {
                x: pos.x + rect.loc.x + padding,
                y: pos.y + rect.loc.y + (rect.size.h - texture.size.h).spec_div(num::<N>(2)),
            },
            src: if max_width < texture.size.w {
                Some(Size { w: max_width, h: texture.size.h })
            } else {
                None
            },
        }
    }

    /// Whether the title of tab `i` is drawn at all.
    pub open spec fn shows_title(self, titles: Seq<Seq<char>>, i: int) -> bool {
        !self.props.config.off && i < self.rects.len() && i < titles.len() && titles[i].len() != 0
    }

    /// The number of tabs that have both a rectangle and a title.
    pub open spec fn titled(self, titles: Seq<Seq<char>>) -> int {
        if self.rects.len() < titles.len() {
            self.rects.len() as int
        } else {
            titles.len() as int
        }
    }

    /// The entries of the cache after all titles were asked for.
    pub open spec fn keyed_titles(
        self,
        scale: N,
        is_column_active: bool,
        titles: Seq<Seq<char>>,
        upto: int,
    ) -> Seq<CachedTitleView<N>> {
        let grown = if self.titles.len() < titles.len() {
            resized(self.titles, titles.len(), CachedTitleView::blank())
        } else {
            self.titles
        };
        Seq::new(
            grown.len(),
            |i: int|
                if i < upto && self.shows_title(titles, i) {
                    grown[i].keyed(titles[i], scale, self.text_color(i, is_column_active))
                } else {
                    grown[i]
                },
        )
    }

    /// The requests for textures among the first `upto` tabs.
    pub open spec fn title_requests(
        self,
        scale: N,
        is_column_active: bool,
        titles: Seq<Seq<char>>,
        upto: int,
    ) -> Seq<TitleRequest<N>>
        decreases upto,
    {
        if upto <= 0 {
            Seq::empty()
        } else {
            let before = self.title_requests(scale, is_column_active, titles, upto - 1);
            let i = upto - 1;
            if self.shows_title(titles, i) && self.keyed_titles(
                scale,
                is_column_active,
                titles,
                upto,
            )[i].texture is None {
                before.push(
                    TitleRequest {
                        tab_idx: i as usize,
                        color: self.text_color(i, is_column_active),
                    },
                )
            } else {
                before
            }
        }
    }

    /// The titles drawn for the first `upto` tabs.
    pub open spec fn title_elements(
        self,
        pos: Point<N>,
        titles: Seq<Seq<char>>,
        upto: int,
    ) -> Seq<TabTitle<N>>
        decreases upto,
    {
        if upto <= 0 {
            Seq::empty()
        } else {
            let before = self.title_elements(pos, titles, upto - 1);
            let i = upto - 1;
            if self.shows_title(titles, i) && i < self.titles.len() {
                match self.titles[i].texture {
                    Some(Some(texture)) => before.push(self.title_element(pos, i, texture)),
                    _ => before,
                }
            } else {
                before
            }
        }
    }
}

/// How far a bar can be scrolled.
pub open spec fn max_scroll<N: Scalar>(total_tabs_width: N, area_width: N) -> N {
    (total_tabs_width - area_width).spec_max(num::<N>(0))
}

pub open spec fn moved_left<N: Scalar>(rect: Rectangle<N>, by: N) -> Rectangle<N> {
    Rectangle { loc: Point { x: rect.loc.x - by, y: rect.loc.y }, size: rect.size }
}

/// An opaque grey whose brightness is a ratio.
pub open spec fn grey<N: Scalar>(part: int, whole: int) -> Color<N> {
    let v = num::<N>(part).spec_div(num::<N>(whole));
    Color { r: v, g: v, b: v, a: num::<N>(1) }
}

fn grey_color<N: Scalar>(part: i64, whole: i64) -> (r: Color<N>)
    ensures
        r == grey::<N>(part as int, whole as int),
{
    let v = N::of_int(part).div(N::of_int(whole));
    Color { r: v, g: v, b: v, a: N::of_int(1) }
}

/// The characters of each of the strings.
pub open spec fn texts(strings: Seq<String>) -> Seq<Seq<char>> {
    Seq::new(strings.len(), |i: int| strings[i]@)
}

impl<N: Scalar> TabBar<N> {
    pub fn new(config: TabBarConfig<N>) -> (r: Self)
        ensures
            r@ == (TabBarView {
                titles: Seq::empty(),
                rects: Seq::empty(),
                props: TabBarProps {
                    active_idx: 0,
                    cached_scale: num::<N>(0),
                    scroll_offset: num::<N>(0),
                    total_tabs_width: num::<N>(0),
                    open_anim: None,
                    stacked: false,
                    config,
                },
            }),
    {
        let zero = N::of_int(0);
        let r = TabBar {
            cached_titles: Vec::new(),
            tab_rects: Vec::new(),
            props: TabBarProps {
                active_idx: 0,
                cached_scale: zero,
                scroll_offset: zero,
                total_tabs_width: zero,
                open_anim: None,
                stacked: false,
                config,
            },
        };
        assert(r@.titles =~= Seq::empty());
        r
    }

    pub fn set_stacked(&mut self, stacked: bool)
        ensures
            final(self)@ == (TabBarView {
                props: TabBarProps { stacked, ..old(self)@.props },
                ..old(self)@
            }),
    {
        self.props.stacked = stacked;
        assert(self@.titles =~= old(self)@.titles);
    }

    pub fn update_config(&mut self, config: TabBarConfig<N>)
        ensures
            final(self)@ == (TabBarView {
                titles: Seq::empty(),
                props: TabBarProps { config, ..old(self)@.props },
                ..old(self)@
            }),
    {
        self.props.config = config;
        self.cached_titles.clear();
        assert(self@.titles =~= Seq::empty());
    }

    pub fn update_shaders(&mut self)
        ensures
            final(self)@ == (TabBarView { titles: Seq::empty(), ..old(self)@ }),
    {
        self.cached_titles.clear();
        assert(self@.titles =~= Seq::empty());
    }

    pub fn advance_animations(&mut self)
        ensures
            final(self)@ == (TabBarView {
                props: TabBarProps {
                    open_anim: unless_done(old(self)@.props.open_anim),
                    ..old(self)@.props
                },
                ..old(self)@
            }),
    {
        drop_if_done(&mut self.props.open_anim);
        assert(self@.titles =~= old(self)@.titles);
    }

    pub fn are_animations_ongoing(&self) -> (r: bool)
        ensures
            r == (self@.props.open_anim is Some),
    {
        self.props.open_anim.is_some()
    }

    pub fn start_open_animation(&mut self, kind: AnimationKind)
        ensures
            final(self)@ == (TabBarView {
                props: TabBarProps {
                    open_anim: Some(
                        Animation::spec_new(num::<N>(0), num::<N>(1), num::<N>(0), kind),
                    ),
                    ..old(self)@.props
                },
                ..old(self)@
            }),
    {
        let zero = N::of_int(0);
        self.props.open_anim = Some(Animation::new(zero, N::of_int(1), zero, kind));
        assert(self@.titles =~= old(self)@.titles);
    }

    /// Records what the clock says of the open animation, where one runs.
    pub fn sample_animation(&mut self, value: N, done: bool)
        ensures
            final(self)@ == (TabBarView {
                props: TabBarProps {
                    open_anim: match old(self)@.props.open_anim {
                        Some(animation) => Some(Animation { value, done, ..animation }),
                        None => None,
                    },
                    ..old(self)@.props
                },
                ..old(self)@
            }),
    {
        if let Some(mut animation) = self.props.open_anim {
            animation.sample(value, done);
            self.props.open_anim = Some(animation);
        }
        assert(self@.titles =~= old(self)@.titles);
    }

    /// Extra size taken up by the bar (rounded height plus a gap of one pixel). A stacked bar
    /// reserves one row per tab; otherwise a single row.
    pub fn extra_size(&self, tab_count: usize, scale: N) -> (r: Size<N>)
        ensures
            r == self@.extra_size(tab_count, scale),
    {
        if self.props.config.off || self.props.config.height.le(N::of_int(0)) {
            return Size::zero();
        }
        let height = round_logical_in_physical(scale, self.props.config.height);
        let rows = if self.props.stacked && tab_count > 1 {
            N::of_usize(tab_count)
        } else {
            N::of_int(1)
        };
        Size { w: N::of_int(0), h: height.mul(rows).add(N::of_int(1)) }
    }

    /// How far the content is shifted to make room for the bar.
    pub fn content_offset(&self, tab_count: usize, scale: N) -> (r: Point<N>)
        ensures
            r == self@.content_offset(tab_count, scale),
    {
        if self.props.config.off {
            return Point::zero();
        }
        match self.props.config.position {
            TabBarPosition::Top => self.extra_size(tab_count, scale).to_point(),
            TabBarPosition::Bottom => Point::zero(),
        }
    }

    /// Cuts the cache of titles to `len` entries or fills it up with blank ones.
    fn resize_titles(&mut self, len: usize)
        ensures
            final(self)@ == (TabBarView {
                titles: resized(old(self)@.titles, len as nat, CachedTitleView::blank()),
                ..old(self)@
            }),
    {
        self.cached_titles.truncate(len);
        let ghost cut = self@.titles;
        while self.cached_titles.len() < len
            invariant
                self.cached_titles.len() <= len,
                self.tab_rects == old(self).tab_rects,
                self.props == old(self).props,
                cut.len() <= self.cached_titles@.len(),
                cut.len() == if len < old(self)@.titles.len() {
                    len as nat
                } else {
                    old(self)@.titles.len()
                },
                forall|i: int| 0 <= i < cut.len() ==> cut[i] == old(self)@.titles[i],
                forall|i: int|
                    0 <= i < self.cached_titles@.len() ==> (#[trigger] self.cached_titles@[i])@
                        == if i < cut.len() {
                        cut[i]
                    } else {
                        CachedTitleView::<N>::blank()
                    },
            decreases len - self.cached_titles.len(),
        {
            self.cached_titles.push(CachedTitle::blank());
        }
        assert(self@.titles =~= resized(
            old(self)@.titles,
            len as nat,
            CachedTitleView::<N>::blank(),
        ));
    }

    /// Cuts the rectangles to `len` or fills them up with empty ones.
    fn resize_rects(&mut self, len: usize)
        ensures
            final(self)@ == (TabBarView {
                rects: resized(old(self)@.rects, len as nat, Rectangle::spec_zero()),
                ..old(self)@
            }),
    {
        self.tab_rects.truncate(len);
        let ghost cut = self.tab_rects@;
        while self.tab_rects.len() < len
            invariant
                self.tab_rects.len() <= len,
                self.cached_titles == old(self).cached_titles,
                self.props == old(self).props,
                cut.len() <= self.tab_rects@.len(),
                cut.len() == if len < old(self)@.rects.len() {
                    len as nat
                } else {
                    old(self)@.rects.len()
                },
                forall|i: int| 0 <= i < cut.len() ==> cut[i] == old(self)@.rects[i],
                forall|i: int|
                    0 <= i < self.tab_rects@.len() ==> self.tab_rects@[i] == if i < cut.len() {
                        cut[i]
                    } else {
                        Rectangle::<N>::spec_zero()
                    },
            decreases len - self.tab_rects.len(),
        {
            self.tab_rects.push(Rectangle::zero());
        }
        assert(self@.rects =~= resized(
            old(self)@.rects,
            len as nat,
            Rectangle::<N>::spec_zero(),
        ));
        assert(self@.titles =~= old(self)@.titles);
    }

    /// Lays out the tabs along the bar.
    ///
    /// Each tab targets at least [`MIN_TAB_WIDTH`]; a few tabs fill the bar, but many tabs
    /// overflow, and the bar scrolls to keep the active one visible.
    pub fn update_render_elements(
        &mut self,
        enabled: bool,
        area: Rectangle<N>,
        tab_count: usize,
        tabs: &Vec<TabInfo<N>>,
        scale: N,
    )
        requires
            enabled && !old(self)@.props.config.off && !old(self)@.props.stacked && tab_count > 0
                ==> old(self)@.updated_active_idx(tab_count, tabs@) < tab_count,
        ensures
            final(self)@ == old(self)@.updated(enabled, area, tab_count, tabs@, scale),
    {
        if !enabled || self.props.config.off {
            self.tab_rects.clear();
            assert(self@.titles =~= old(self)@.titles);
            return;
        }
        let ghost before = self@;
        if !self.props.cached_scale.same(scale) {
            self.cached_titles.clear();
            self.props.cached_scale = scale;
            assert(self@.titles =~= Seq::empty());
        }
        self.resize_titles(tab_count);
        self.resize_rects(tab_count);

        let extra_size = self.extra_size(tab_count, scale);
        let config = self.props.config;
        let count_n = N::of_usize(tab_count);
        let zero = N::of_int(0);

        let gap = round_logical_in_physical(scale, config.gaps_between_tabs);
        let total_gap = gap.mul(count_n.sub(N::of_int(1)).max(zero));
        let available_width = area.size.w;
        let ideal_width = available_width.sub(total_gap).div(count_n);
        let tab_width = round_logical_in_physical(scale, ideal_width).max(
            ceil_logical_in_physical(scale, N::of_int(MIN_TAB_WIDTH)),
        );

        // The area starts past the band that is reserved for the bar, so the band lies outside of
        // the area: above it at the top, below it at the bottom.
        let bar_y = match config.position {
            TabBarPosition::Top => area.loc.y.sub(extra_size.h),
            TabBarPosition::Bottom => area.loc.y.add(area.size.h).add(
                extra_size.h.sub(round_logical_in_physical(scale, config.height)),
            ),
        };
        let bar_y = round_logical_in_physical(scale, bar_y);

        let progress = match self.props.open_anim {
            Some(animation) => animation.value().max(zero),
            None => N::of_int(1),
        };
        let bar_height = round_logical_in_physical(scale, config.height.mul(progress));
        let row_height = round_logical_in_physical(scale, config.height);

        let told: usize = if tabs.len() < tab_count {
            tabs.len()
        } else {
            tab_count
        };
        let ghost m = before.measures(area, tab_count, scale);
        let ghost kept = self@;
        let mut i: usize = 0;
        while i < told
            invariant
                told <= tabs.len(),
                told <= tab_count,
                i <= told,
                self@.titles == kept.titles,
                self.tab_rects@.len() == tab_count,
                kept.rects.len() == tab_count,
                self.props == (TabBarProps {
                    active_idx: last_active(tabs@, i as int, before.props.active_idx),
                    ..kept.props
                }),
                kept.props.stacked == before.props.stacked,
                m == before.measures(area, tab_count, scale),
                m.bar_y == bar_y,
                m.row_height == row_height,
                m.bar_height == bar_height,
                m.tab_width == tab_width,
                m.gap == gap,
                available_width == area.size.w,
                forall|j: int|
                    0 <= j < tab_count ==> self.tab_rects@[j] == if j < i {
                        before.tab_rect(area, tab_count, scale, j)
                    } else {
                        kept.rects[j]
                    },
            decreases told - i,
        {
            if tabs[i].is_active {
                self.props.active_idx = i;
            }
            let nth = N::of_usize(i);
            let rect = if self.props.stacked {
                let y = round_logical_in_physical(scale, bar_y.add(nth.mul(row_height)));
                Rectangle::new(
                    Point { x: area.loc.x, y },
                    Size { w: available_width, h: bar_height },
                )
            } else {
                let x = round_logical_in_physical(
                    scale,
                    area.loc.x.add(nth.mul(tab_width.add(gap))),
                );
                Rectangle::new(Point { x, y: bar_y }, Size { w: tab_width, h: bar_height })
            };
            self.tab_rects[i] = rect;
            assert(self@.titles =~= kept.titles);
            i = i + 1;
        }
        assert(self@.rects =~= before.unscrolled_rects(area, tab_count, tabs@, scale));

        if self.props.stacked {
            self.props.total_tabs_width = available_width;
            self.props.scroll_offset = zero;
            assert(self@ =~= before.updated(enabled, area, tab_count, tabs@, scale));
            return;
        }
        let ghost unscrolled = self@.rects;
        self.props.total_tabs_width = count_n.mul(tab_width).add(total_gap);
        let max_scroll = self.props.total_tabs_width.sub(available_width).max(zero);

        if tab_count > 0 {
            let active_rect = self.tab_rects[self.props.active_idx];
            let active_left = active_rect.loc.x.sub(area.loc.x);
            let active_right = active_left.add(active_rect.size.w);
            if active_left.lt(self.props.scroll_offset) {
                self.props.scroll_offset = active_left;
            } else if self.props.scroll_offset.add(available_width).lt(active_right) {
                self.props.scroll_offset = active_right.sub(available_width);
            }
        }
        self.props.scroll_offset = clamp(self.props.scroll_offset, zero, max_scroll);
        let ghost props = self.props;

        let mut j: usize = 0;
        while j < tab_count
            invariant
                j <= tab_count,
                self.props == props,
                self@.titles == kept.titles,
                self.tab_rects@.len() == tab_count,
                unscrolled.len() == tab_count,
                forall|k: int|
                    0 <= k < tab_count ==> self.tab_rects@[k] == if k < j {
                        moved_left(unscrolled[k], props.scroll_offset)
                    } else {
                        unscrolled[k]
                    },
            decreases tab_count - j,
        {
            let rect = self.tab_rects[j];
            self.tab_rects[j] = Rectangle::new(
                Point { x: rect.loc.x.sub(self.props.scroll_offset), y: rect.loc.y },
                rect.size,
            );
            assert(self@.titles =~= kept.titles);
            j = j + 1;
        }
        assert(self@ =~= before.updated(enabled, area, tab_count, tabs@, scale));
    }

    /// The backgrounds of the tabs, in order.
    pub fn render_backgrounds(&self, pos: Point<N>, is_column_active: bool) -> (r: Vec<
        TabBackground<N>,
    >)
        ensures
            r@ == if self@.props.config.off {
                Seq::empty()
            } else {
                Seq::new(
                    self@.rects.len(),
                    |i: int| self@.background(pos, is_column_active, i),
                )
            },
    {
        let mut elements: Vec<TabBackground<N>> = Vec::new();
        if self.props.config.off {
            return elements;
        }
        let mut i: usize = 0;
        while i < self.tab_rects.len()
            invariant
                i <= self.tab_rects@.len(),
                elements@.len() == i,
                forall|j: int|
                    0 <= j < i ==> elements@[j] == self@.background(pos, is_column_active, j),
            decreases self.tab_rects.len() - i,
        {
            let rect = self.tab_rects[i];
            let color = if i == self.props.active_idx && is_column_active {
                match self.props.config.active_color {
                    Some(color) => color,
                    None => grey_color(35, 100),
                }
            } else {
                match self.props.config.inactive_color {
                    Some(color) => color,
                    None => grey_color(2, 10),
                }
            };
            elements.push(TabBackground { location: pos.add(rect.loc), size: rect.size, color });
            i = i + 1;
        }
        elements
    }

    fn text_color(&self, i: usize, is_column_active: bool) -> (r: Color<N>)
        ensures
            r == self@.text_color(i as int, is_column_active),
    {
        let chosen = if i == self.props.active_idx && is_column_active {
            self.props.config.active_text_color
        } else {
            self.props.config.inactive_text_color
        };
        match chosen {
            Some(color) => color,
            None => self.props.config.text_color,
        }
    }

    /// Looks up the titles in the cache. What comes back are the titles that have no texture
    /// yet; each is to be answered with [`TabBar::store_title`].
    pub fn prepare_titles(
        &mut self,
        scale: N,
        is_column_active: bool,
        titles: &Vec<String>,
    ) -> (r: Vec<TitleRequest<N>>)
        ensures
            final(self)@ == if old(self)@.props.config.off || old(self)@.rects.len() == 0 {
                old(self)@
            } else {
                TabBarView {
                    titles: old(self)@.keyed_titles(
                        scale,
                        is_column_active,
                        texts(titles@),
                        old(self)@.titled(texts(titles@)),
                    ),
                    ..old(self)@
                }
            },
            r@ == old(self)@.title_requests(
                scale,
                is_column_active,
                texts(titles@),
                old(self)@.titled(texts(titles@)),
            ),
    {
        let mut requests: Vec<TitleRequest<N>> = Vec::new();
        let ghost before = self@;
        let ghost words = texts(titles@);
        let count: usize = if self.tab_rects.len() < titles.len() {
            self.tab_rects.len()
        } else {
            titles.len()
        };
        if self.props.config.off || self.tab_rects.len() == 0 {
            proof {
                lemma_no_requests(before, scale, is_column_active, words, count as int);
            }
            return requests;
        }
        if self.cached_titles.len() < titles.len() {
            self.resize_titles(titles.len());
        }
        assert(self@.titles =~= before.keyed_titles(scale, is_column_active, words, 0));
        let mut i: usize = 0;
        while i < count
            invariant
                i <= count,
                count <= self.tab_rects@.len(),
                count <= titles@.len(),
                titles@.len() <= self.cached_titles@.len(),
                words == texts(titles@),
                !before.props.config.off,
                self@ == (TabBarView {
                    titles: before.keyed_titles(scale, is_column_active, words, i as int),
                    ..before
                }),
                requests@ == before.title_requests(scale, is_column_active, words, i as int),
            decreases count - i,
        {
            let ghost at = self@.titles;
            let title = &titles[i];
            if !title.as_str().is_empty() {
                let color = self.text_color(i, is_column_active);
                let texture = self.cached_titles[i].get(title, scale, color);
                assert(self@.titles =~= at.update(i as int, self@.titles[i as int]));
                if texture.is_none() {
                    requests.push(TitleRequest { tab_idx: i, color });
                }
            }
            proof {
                let next = before.keyed_titles(scale, is_column_active, words, i as int + 1);
                assert(words[i as int] == title@);
                assert(at[i as int] == before.keyed_titles(
                    scale,
                    is_column_active,
                    words,
                    i as int,
                )[i as int]);
                assert(self@.titles[i as int] == next[i as int]);
                assert(self@.titles =~= next);
            }
            i = i + 1;
        }
        requests
    }

    /// Stores the texture that was made for a requested title, or that none could be made.
    pub fn store_title(&mut self, tab_idx: usize, texture: Option<TitleTexture<N>>)
        requires
            tab_idx < old(self)@.titles.len(),
        ensures
            final(self)@ == (TabBarView {
                titles: old(self)@.titles.update(
                    tab_idx as int,
                    CachedTitleView {
                        texture: Some(texture),
                        ..old(self)@.titles[tab_idx as int]
                    },
                ),
                ..old(self)@
            }),
    {
        self.cached_titles[tab_idx].store(texture);
        assert(self@.titles =~= old(self)@.titles.update(
            tab_idx as int,
            CachedTitleView { texture: Some(texture), ..old(self)@.titles[tab_idx as int] },
        ));
    }

    /// The titles to draw. A long title is clipped to the width of its tab minus the padding on
    /// both sides, so that it does not bleed into its neighbour.
    pub fn render_titles(&self, pos: Point<N>, titles: &Vec<String>) -> (r: Vec<TabTitle<N>>)
        ensures
            r@ == self@.title_elements(pos, texts(titles@), self@.titled(texts(titles@))),
    {
        let mut elements: Vec<TabTitle<N>> = Vec::new();
        let ghost words = texts(titles@);
        let count: usize = if self.tab_rects.len() < titles.len() {
            self.tab_rects.len()
        } else {
            titles.len()
        };
        let mut i: usize = 0;
        while i < count
            invariant
                i <= count,
                count <= self.tab_rects@.len(),
                count <= titles@.len(),
                words == texts(titles@),
                elements@ == self@.title_elements(pos, words, i as int),
            decreases count - i,
        {
            let title = &titles[i];
            if !self.props.config.off && !title.as_str().is_empty() && i
                < self.cached_titles.len() {
                if let Some(Some(texture)) = self.cached_titles[i].texture {
                    let rect = self.tab_rects[i];
                    let padding = N::of_int(TITLE_PADDING);
                    let location = Point {
                        x: pos.x.add(rect.loc.x).add(padding),
                        y: pos.y.add(rect.loc.y).add(
                            rect.size.h.sub(texture.size.h).div(N::of_int(2)),
                        ),
                    };
                    let max_width = rect.size.w.sub(N::of_int(2).mul(padding)).max(N::of_int(0));
                    let src = if max_width.lt(texture.size.w) {
                        Some(Size { w: max_width, h: texture.size.h })
                    } else {
                        None
                    };
                    elements.push(TabTitle { texture, location, src });
                }
            }
            i = i + 1;
        }
        elements
    }

    /// The elements of the whole bar: titles, and backgrounds behind them.
    pub fn render(&self, pos: Point<N>, is_column_active: bool, titles: &Vec<String>) -> (r: (
        Vec<TabTitle<N>>,
        Vec<TabBackground<N>>,
    ))
        ensures
            r.0@ == self@.title_elements(pos, texts(titles@), self@.titled(texts(titles@))),
            r.1@ == if self@.props.config.off {
                Seq::empty()
            } else {
                Seq::new(
                    self@.rects.len(),
                    |i: int| self@.background(pos, is_column_active, i),
                )
            },
    {
        let titles = self.render_titles(pos, titles);
        let backgrounds = self.render_backgrounds(pos, is_column_active);
        (titles, backgrounds)
    }

    /// Scrolls the bar by `delta` logical pixels, to the right where it is positive. Tells
    /// whether the scroll offset changed.
    pub fn scroll(&mut self, delta: N, area_width: N) -> (r: bool)
        ensures
            r == !old(self)@.scrolled(delta, area_width).spec_same(
                old(self)@.props.scroll_offset,
            ),
            final(self)@ == if r {
                TabBarView {
                    props: TabBarProps {
                        scroll_offset: old(self)@.scrolled(delta, area_width),
                        ..old(self)@.props
                    },
                    ..old(self)@
                }
            } else {
                old(self)@
            },
    {
        let max_scroll = self.props.total_tabs_width.sub(area_width).max(N::of_int(0));
        let new_offset = clamp(self.props.scroll_offset.add(delta), N::of_int(0), max_scroll);
        if !new_offset.same(self.props.scroll_offset) {
            self.props.scroll_offset = new_offset;
            assert(self@.titles =~= old(self)@.titles);
            true
        } else {
            false
        }
    }

    /// The first tab under `pos`.
    pub fn hit(&self, pos: Point<N>) -> (r: Option<usize>)
        ensures
            match r {
                Some(i) => {
                    &&& i < self@.rects.len()
                    &&& self@.rects[i as int].spec_contains(pos)
                    &&& forall|j: int| 0 <= j < i ==> !self@.rects[j].spec_contains(pos)
                },
                None => forall|j: int|
                    0 <= j < self@.rects.len() ==> !self@.rects[j].spec_contains(pos),
            },
    {
        let mut i: usize = 0;
        while i < self.tab_rects.len()
            invariant
                i <= self.tab_rects@.len(),
                forall|j: int| 0 <= j < i ==> !self@.rects[j].spec_contains(pos),
            decreases self.tab_rects.len() - i,
        {
            if self.tab_rects[i].contains(pos) {
                return Some(i);
            }
            i = i + 1;
        }
        None
    }

    pub fn config(&self) -> (r: &TabBarConfig<N>)
        ensures
            *r == self@.props.config,
    {
        &self.props.config
    }
}

proof fn lemma_no_requests<N: Scalar>(
    bar: TabBarView<N>,
    scale: N,
    is_column_active: bool,
    titles: Seq<Seq<char>>,
    upto: int,
)
    requires
        bar.props.config.off || bar.rects.len() == 0,
        upto <= bar.titled(titles),
    ensures
        bar.title_requests(scale, is_column_active, titles, upto) == Seq::<
            TitleRequest<N>,
        >::empty(),
    decreases upto,
{
    if upto > 0 {
        lemma_no_requests(bar, scale, is_column_active, titles, upto - 1);
    }
}

/// Where numbers are ordered, the scroll offset of a bar is never outside of what can be
/// scrolled, however the bar was scrolled.
pub proof fn law_scroll_stays_in_range<N: Scalar>(bar: TabBarView<N>, delta: N, area_width: N)
    requires
        ordered::<N>(),
        num::<N>(0) <= max_scroll(bar.props.total_tabs_width, area_width),
    ensures
        num::<N>(0) <= bar.scrolled(delta, area_width),
        bar.scrolled(delta, area_width) <= max_scroll(bar.props.total_tabs_width, area_width),
{
}

/// In whole pixels, laying out the tabs leaves a scroll offset that is within the scrollable
/// range.
pub proof fn law_layout_leaves_scroll_in_range(
    bar: TabBarView<Pixels>,
    area: Rectangle<Pixels>,
    count: usize,
    tabs: Seq<TabInfo<Pixels>>,
    scale: Pixels,
)
    requires
        !bar.props.config.off,
    ensures
        ({
            let after = bar.updated(true, area, count, tabs, scale).props;
            0 <= after.scroll_offset.value <= max_scroll(
                after.total_tabs_width,
                area.size.w,
            ).value
        }),
{
}

/// Tabs beside each other all have one width, and it is never below [`MIN_TAB_WIDTH`], however many
/// there are and however narrow the bar is, where the maximum of two numbers is no less than the
/// second and rounding up gives no less.
pub proof fn law_tabs_keep_minimum_width<N: Scalar>(
    bar: TabBarView<N>,
    area: Rectangle<N>,
    count: usize,
    tabs: Seq<TabInfo<N>>,
    scale: N,
    i: int,
)
    requires
        ordered::<N>(),
        !bar.props.config.off,
        !bar.props.stacked,
        0 <= i < count,
        i < tabs.len(),
        forall|a: N, b: N| b <= #[trigger] a.spec_max(b),
        num::<N>(MIN_TAB_WIDTH as int) <= raised_in_physical(scale, num::<N>(MIN_TAB_WIDTH as int)),
    ensures
        bar.updated(true, area, count, tabs, scale).rects.len() == count,
        bar.updated(true, area, count, tabs, scale).rects[i].size.w == bar.measures(
            area,
            count,
            scale,
        ).tab_width,
        num::<N>(MIN_TAB_WIDTH as int) <= bar.updated(
            true,
            area,
            count,
            tabs,
            scale,
        ).rects[i].size.w,
{
    let m = bar.measures(area, count, scale);
    let least = num::<N>(MIN_TAB_WIDTH as int);
    let raised = raised_in_physical(scale, least);
    assert(raised <= m.tab_width);
    assert(bar.unscrolled_rects(area, count, tabs, scale)[i].size.w == m.tab_width);
}

/// A number that is a whole number of physical pixels is not rounded.
proof fn lemma_whole_pixels(scale: Pixels, x: Pixels)
    requires
        0 < scale.value <= 16,
        -0x400_0000_0000_0000 <= x.value <= 0x400_0000_0000_0000,
    ensures
        rounded_in_physical(scale, x) == x,
        raised_in_physical(scale, x) == x,
{
    let s = scale.value as int;
    let v = x.value as int;
    assert(-0x4000_0000_0000_0000 <= v * s <= 0x4000_0000_0000_0000) by (nonlinear_arith)
        requires
            0 < s <= 16,
            -0x400_0000_0000_0000 <= v <= 0x400_0000_0000_0000,
    ;
    assert((v * s) / s == v) by (nonlinear_arith)
        requires
            0 < s,
    ;
}

/// In whole pixels, tabs beside each other are at least [`MIN_TAB_WIDTH`] wide.
pub proof fn law_tabs_keep_minimum_width_in_pixels(
    bar: TabBarView<Pixels>,
    area: Rectangle<Pixels>,
    count: usize,
    tabs: Seq<TabInfo<Pixels>>,
    scale: Pixels,
    i: int,
)
    requires
        !bar.props.config.off,
        !bar.props.stacked,
        0 < scale.value <= 16,
        0 <= i < count,
        i < tabs.len(),
    ensures
        MIN_TAB_WIDTH <= bar.updated(true, area, count, tabs, scale).rects[i].size.w.value,
{
    law_pixels_are_ordered();
    lemma_whole_pixels(scale, num::<Pixels>(MIN_TAB_WIDTH as int));
    law_tabs_keep_minimum_width(bar, area, count, tabs, scale, i);
}

/// Whether lengths and numbers of tabs are far from where whole pixels saturate.
pub open spec fn is_moderate_bar(
    bar: TabBarView<Pixels>,
    area: Rectangle<Pixels>,
    count: usize,
    scale: Pixels,
) -> bool {
    &&& 0 < scale.value <= 16
    &&& 0 < count <= 0x1_0000
    &&& 0 <= area.size.w.value <= 0x10_0000_0000
    &&& -0x10_0000_0000 <= area.loc.x.value <= 0x10_0000_0000
    &&& 0 <= bar.props.config.gaps_between_tabs.value <= 0x10_0000_0000
    &&& -0x100_0000_0000_0000 <= bar.props.scroll_offset.value <= 0x100_0000_0000_0000
}

/// In whole pixels, laying out the tabs leaves the active one fully inside the bar, as far as a tab
/// fits into it.
pub proof fn law_active_tab_is_inside_the_bar(
    bar: TabBarView<Pixels>,
    area: Rectangle<Pixels>,
    count: usize,
    tabs: Seq<TabInfo<Pixels>>,
    scale: Pixels,
)
    requires
        !bar.props.config.off,
        !bar.props.stacked,
        is_moderate_bar(bar, area, count, scale),
        bar.updated_active_idx(count, tabs) < count,
        bar.updated_active_idx(count, tabs) < tabs.len(),
        bar.measures(area, count, scale).tab_width.value <= area.size.w.value,
    ensures
        ({
            let after = bar.updated(true, area, count, tabs, scale);
            let rect = after.rects[after.props.active_idx as int];
            &&& area.loc.x.value <= rect.loc.x.value
            &&& rect.loc.x.value + rect.size.w.value <= area.loc.x.value + area.size.w.value
        }),
{
    let m = bar.measures(area, count, scale);
    let idx = bar.updated_active_idx(count, tabs) as int;
    let n = count as int;
    lemma_whole_pixels(scale, bar.props.config.gaps_between_tabs);
    lemma_whole_pixels(scale, num::<Pixels>(MIN_TAB_WIDTH as int));
    let g = m.gap.value as int;
    let w = m.tab_width.value as int;
    let avail = area.size.w.value as int;
    assert(0 <= w <= avail);
    let k = (num::<Pixels>(n) - num::<Pixels>(1)).spec_max(num::<Pixels>(0)).value as int;
    assert(k == n - 1);
    assert(0 <= g * k <= 0x10_0000_0000 * 0x1_0000) by (nonlinear_arith)
        requires
            0 <= g <= 0x10_0000_0000,
            0 <= k <= 0x1_0000,
    ;
    assert(m.total_gap.value == g * k);
    assert(0 <= idx * (w + g) <= 0x1_0000 * 0x20_0000_0000) by (nonlinear_arith)
        requires
            0 <= idx < 0x1_0000,
            0 <= w + g <= 0x20_0000_0000,
    ;
    let step = (m.tab_width + m.gap).value as int;
    assert(step == w + g);
    let at = area.loc.x + num::<Pixels>(idx) * (m.tab_width + m.gap);
    assert(num::<Pixels>(idx).value == idx);
    assert(at.value == area.loc.x.value + idx * (w + g));
    lemma_whole_pixels(scale, at);
    let total = n * w + g * k;
    assert(idx * (w + g) + w <= total) by (nonlinear_arith)
        requires
            0 <= idx <= k,
            k == n - 1,
            0 <= w,
            0 <= g,
            total == n * w + g * k,
    ;
    assert(0 <= n * w <= 0x1_0000 * 0x10_0000_0000) by (nonlinear_arith)
        requires
            0 < n <= 0x1_0000,
            0 <= w <= 0x10_0000_0000,
    ;
    let after = bar.updated(true, area, count, tabs, scale);
    assert(after.props.total_tabs_width.value == total);
    let rect = bar.unscrolled_rects(area, count, tabs, scale)[idx];
    assert(rect == bar.tab_rect(area, count, scale, idx));
}

} // verus!
