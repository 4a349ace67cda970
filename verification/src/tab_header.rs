//! The header of a tabbing container: a slim indicator or a bar with titles.
use vstd::prelude::*;

use crate::animation::{drop_if_done, unless_done, Animation, AnimationKind};
use crate::config::{TabHeaderConfig, TabIndicatorConfig, TabIndicatorPosition, TabStyle};
use crate::geometry::{Point, Rectangle, Size};
use crate::scalar::{num, round_logical_in_physical, rounded_in_physical, Scalar};
use crate::tab_bar::{TabBar, TabBarProps, TabBarView, TabInfo};

verus! {

/// What an indicator was last told to show.
#[derive(Clone, Copy, PartialEq, Eq, Debug)]
pub struct IndicatorElements<N> {
    pub area: Rectangle<N>,
    pub view_rect: Rectangle<N>,
    pub tab_count: usize,
    pub is_active: bool,
    pub scale: N,
}

/// Numbers and switches of an indicator.
#[derive(Clone, Copy, PartialEq, Eq, Debug)]
pub struct TabIndicatorProps<N> {
    pub config: TabIndicatorConfig<N>,
    pub open_anim: Option<Animation<N>>,
    pub elements: Option<IndicatorElements<N>>,
    pub shaders_stale: bool,
}

/// One mark per tab along a side of the container.
pub struct TabIndicator<N> {
    pub tabs: Vec<TabInfo<N>>,
    /// The rectangles of the marks, as they were drawn last.
    pub tab_rects: Vec<Rectangle<N>>,
    pub props: TabIndicatorProps<N>,
}

/// What a [`TabIndicator`] holds.
#[verifier::ext_equal]
pub ghost struct TabIndicatorView<N> {
    pub tabs: Seq<TabInfo<N>>,
    pub rects: Seq<Rectangle<N>>,
    pub props: TabIndicatorProps<N>,
}

impl<N> TabIndicator<N> {
    pub open spec fn view(&self) -> TabIndicatorView<N> {
        TabIndicatorView { tabs: self.tabs@, rects: self.tab_rects@, props: self.props }
    }
}

impl<N: Scalar> TabIndicatorView<N> {
    pub open spec fn fresh(config: TabIndicatorConfig<N>) -> Self {
        TabIndicatorView {
            tabs: Seq::empty(),
            rects: Seq::empty(),
            props: TabIndicatorProps {
                config,
                open_anim: None,
                elements: None,
                shaders_stale: true,
            },
        }
    }

    /// Space that the indicator takes of its container, where it stands within it.
    pub open spec fn extra_size(self, tab_count: usize, scale: N) -> Size<N> {
        let config = self.props.config;
        if config.off || !config.place_within_section || (config.hide_when_single_tab && tab_count
            == 1) {
            Size::spec_zero()
        } else {
            let span = num::<N>(0).spec_max(
                rounded_in_physical(scale, config.width) + rounded_in_physical(scale, config.gap),
            );
            match config.position {
                TabIndicatorPosition::Left | TabIndicatorPosition::Right => Size {
                    w: span,
                    h: num::<N>(0),
                },
                TabIndicatorPosition::Top | TabIndicatorPosition::Bottom => Size {
                    w: num::<N>(0),
                    h: span,
                },
            }
        }
    }

    pub open spec fn content_offset(self, tab_count: usize, scale: N) -> Point<N> {
        match self.props.config.position {
            TabIndicatorPosition::Left | TabIndicatorPosition::Top => {
                let extra = self.extra_size(tab_count, scale);
                Point { x: extra.w, y: extra.h }
            },
            _ => Point::spec_zero(),
        }
    }
}

impl<N: Scalar> TabIndicator<N> {
    pub fn new(config: TabIndicatorConfig<N>) -> (r: Self)
        ensures
            r@ == TabIndicatorView::fresh(config),
    {
        TabIndicator {
            tabs: Vec::new(),
            tab_rects: Vec::new(),
            props: TabIndicatorProps {
                config,
                open_anim: None,
                elements: None,
                shaders_stale: true,
            },
        }
    }

    pub fn extra_size(&self, tab_count: usize, scale: N) -> (r: Size<N>)
        ensures
            r == self@.extra_size(tab_count, scale),
    {
        let config = self.props.config;
        if config.off || !config.place_within_section || (config.hide_when_single_tab && tab_count
            == 1) {
            return Size::zero();
        }
        let zero = N::of_int(0);
        let span = zero.max(
            round_logical_in_physical(scale, config.width).add(
                round_logical_in_physical(scale, config.gap),
            ),
        );
        match config.position {
            TabIndicatorPosition::Left | TabIndicatorPosition::Right => Size { w: span, h: zero },
            TabIndicatorPosition::Top | TabIndicatorPosition::Bottom => Size { w: zero, h: span },
        }
    }

    pub fn content_offset(&self, tab_count: usize, scale: N) -> (r: Point<N>)
        ensures
            r == self@.content_offset(tab_count, scale),
    {
        match self.props.config.position {
            TabIndicatorPosition::Left | TabIndicatorPosition::Top => self.extra_size(
                tab_count,
                scale,
            ).to_point(),
            _ => Point::zero(),
        }
    }
}

/// The header of a tabbing container.
pub enum HeaderBody<N> {
    Indicator(TabIndicator<N>),
    Bar(TabBar<N>),
}

/// A header with the configuration that decides its style.
pub struct TabHeader<N> {
    pub config: TabHeaderConfig<N>,
    pub body: HeaderBody<N>,
}

/// What a [`TabHeader`] shows.
#[verifier::ext_equal]
pub ghost enum HeaderBodyView<N> {
    Indicator(TabIndicatorView<N>),
    Bar(TabBarView<N>),
}

/// What a [`TabHeader`] holds.
#[verifier::ext_equal]
pub ghost struct TabHeaderView<N> {
    pub config: TabHeaderConfig<N>,
    pub body: HeaderBodyView<N>,
}

impl<N> TabHeader<N> {
    pub open spec fn view(&self) -> TabHeaderView<N> {
        TabHeaderView {
            config: self.config,
            body: match self.body {
                HeaderBody::Indicator(indicator) => HeaderBodyView::Indicator(indicator@),
                HeaderBody::Bar(bar) => HeaderBodyView::Bar(bar@),
            },
        }
    }
}

/// What an optional header holds.
pub open spec fn header_view<N>(header: Option<TabHeader<N>>) -> Option<TabHeaderView<N>> {
    match header {
        Some(header) => Some(header@),
        None => None,
    }
}

impl<N: Scalar> TabHeaderView<N> {
    /// A new header in the configured style.
    pub open spec fn fresh(config: TabHeaderConfig<N>) -> Self {
        TabHeaderView {
            config,
            body: match config.style {
                TabStyle::Indicator => HeaderBodyView::Indicator(
                    TabIndicatorView::fresh(config.indicator),
                ),
                TabStyle::Bar => HeaderBodyView::Bar(fresh_bar(config)),
            },
        }
    }

    /// A new header that is an indicator whatever the configured style.
    pub open spec fn fresh_indicator(config: TabHeaderConfig<N>) -> Self {
        TabHeaderView {
            config,
            body: HeaderBodyView::Indicator(TabIndicatorView::fresh(config.indicator)),
        }
    }

    pub open spec fn extra_size(self, tab_count: usize, scale: N) -> Size<N> {
        match self.body {
            HeaderBodyView::Indicator(indicator) => indicator.extra_size(tab_count, scale),
            HeaderBodyView::Bar(bar) => bar.extra_size(tab_count, scale),
        }
    }

    pub open spec fn content_offset(self, tab_count: usize, scale: N) -> Point<N> {
        match self.body {
            HeaderBodyView::Indicator(indicator) => indicator.content_offset(tab_count, scale),
            HeaderBodyView::Bar(bar) => bar.content_offset(tab_count, scale),
        }
    }

    pub open spec fn rects(self) -> Seq<Rectangle<N>> {
        match self.body {
            HeaderBodyView::Indicator(indicator) => indicator.rects,
            HeaderBodyView::Bar(bar) => bar.rects,
        }
    }

    pub open spec fn open_anim(self) -> Option<Animation<N>> {
        match self.body {
            HeaderBodyView::Indicator(indicator) => indicator.props.open_anim,
            HeaderBodyView::Bar(bar) => bar.props.open_anim,
        }
    }

    pub open spec fn with_open_anim(self, open_anim: Option<Animation<N>>) -> Self {
        TabHeaderView {
            body: match self.body {
                HeaderBodyView::Indicator(indicator) => HeaderBodyView::Indicator(
                    TabIndicatorView {
                        props: TabIndicatorProps { open_anim, ..indicator.props },
                        ..indicator
                    },
                ),
                HeaderBodyView::Bar(bar) => HeaderBodyView::Bar(
                    TabBarView { props: TabBarProps { open_anim, ..bar.props }, ..bar },
                ),
            },
            ..self
        }
    }

    /// The header as its open animation starts.
    pub open spec fn opening(self, kind: AnimationKind) -> Self {
        self.with_open_anim(
            Some(Animation::spec_new(num::<N>(0), num::<N>(1), num::<N>(0), kind)),
        )
    }

    pub open spec fn with_stacked(self, stacked: bool) -> Self {
        TabHeaderView {
            body: match self.body {
                HeaderBodyView::Bar(bar) => HeaderBodyView::Bar(
                    TabBarView { props: TabBarProps { stacked, ..bar.props }, ..bar },
                ),
                indicator => indicator,
            },
            ..self
        }
    }

    /// The header under a new configuration. A change of the style makes it anew.
    pub open spec fn with_config(self, config: TabHeaderConfig<N>) -> Self {
        match (self.body, config.style) {
            (HeaderBodyView::Indicator(indicator), TabStyle::Indicator) => TabHeaderView {
                config,
                body: HeaderBodyView::Indicator(
                    TabIndicatorView {
                        props: TabIndicatorProps { config: config.indicator, ..indicator.props },
                        ..indicator
                    },
                ),
            },
            (HeaderBodyView::Bar(bar), TabStyle::Bar) => TabHeaderView {
                config,
                body: HeaderBodyView::Bar(
                    TabBarView {
                        titles: Seq::empty(),
                        props: TabBarProps { config: config.bar, ..bar.props },
                        ..bar
                    },
                ),
            },
            _ => Self::fresh(config),
        }
    }

    pub open spec fn with_stale_shaders(self) -> Self {
        TabHeaderView {
            body: match self.body {
                HeaderBodyView::Indicator(indicator) => HeaderBodyView::Indicator(
                    TabIndicatorView {
                        props: TabIndicatorProps { shaders_stale: true, ..indicator.props },
                        ..indicator
                    },
                ),
                HeaderBodyView::Bar(bar) => HeaderBodyView::Bar(
                    TabBarView { titles: Seq::empty(), ..bar },
                ),
            },
            ..self
        }
    }

    /// Whether scrolling by `delta` moves the tabs: only a bar can be scrolled.
    pub open spec fn scrolls(self, delta: N, area_width: N) -> bool {
        self.body matches HeaderBodyView::Bar(bar) && !bar.scrolled(delta, area_width).spec_same(
            bar.props.scroll_offset,
        )
    }

    /// The header after it was scrolled by `delta`.
    pub open spec fn scrolled(self, delta: N, area_width: N) -> Self {
        if self.scrolls(delta, area_width) {
            let bar = self.body->Bar_0;
            TabHeaderView {
                body: HeaderBodyView::Bar(
                    TabBarView {
                        props: TabBarProps {
                            scroll_offset: bar.scrolled(delta, area_width),
                            ..bar.props
                        },
                        ..bar
                    },
                ),
                ..self
            }
        } else {
            self
        }
    }

    /// Whether the header can be told to lay out these tabs: a bar needs one active tab.
    pub open spec fn accepts(self, enabled: bool, tab_count: usize, tabs: Seq<TabInfo<N>>) -> bool {
        self.body matches HeaderBodyView::Bar(bar) ==> (enabled && !bar.props.config.off
            && !bar.props.stacked && tab_count > 0 ==> bar.updated_active_idx(tab_count, tabs)
            < tab_count)
    }

    /// The header after its tabs were laid out anew.
    pub open spec fn updated(
        self,
        enabled: bool,
        area: Rectangle<N>,
        view_rect: Rectangle<N>,
        tab_count: usize,
        tabs: Seq<TabInfo<N>>,
        is_active: bool,
        scale: N,
    ) -> Self {
        TabHeaderView {
            body: match self.body {
                HeaderBodyView::Indicator(indicator) => HeaderBodyView::Indicator(
                    TabIndicatorView {
                        tabs,
                        props: TabIndicatorProps {
                            elements: if enabled && !indicator.props.config.off {
                                Some(
                                    IndicatorElements {
                                        area,
                                        view_rect,
                                        tab_count,
                                        is_active,
                                        scale,
                                    },
                                )
                            } else {
                                None
                            },
                            ..indicator.props
                        },
                        ..indicator
                    },
                ),
                HeaderBodyView::Bar(bar) => HeaderBodyView::Bar(
                    bar.updated(enabled, area, tab_count, tabs, scale),
                ),
            },
            ..self
        }
    }
}

pub open spec fn fresh_bar<N: Scalar>(config: TabHeaderConfig<N>) -> TabBarView<N> {
    TabBarView {
        titles: Seq::empty(),
        rects: Seq::empty(),
        props: TabBarProps {
            active_idx: 0,
            cached_scale: num::<N>(0),
            scroll_offset: num::<N>(0),
            total_tabs_width: num::<N>(0),
            open_anim: None,
            stacked: false,
            config: config.bar,
        },
    }
}

impl<N: Scalar> TabHeader<N> {
    pub fn new(config: TabHeaderConfig<N>) -> (r: Self)
        ensures
            r@ == TabHeaderView::fresh(config),
    {
        let body = match config.style {
            TabStyle::Indicator => HeaderBody::Indicator(TabIndicator::new(config.indicator)),
            TabStyle::Bar => HeaderBody::Bar(TabBar::new(config.bar)),
        };
        TabHeader { config, body }
    }

    pub fn new_indicator(config: TabHeaderConfig<N>) -> (r: Self)
        ensures
            r@ == TabHeaderView::fresh_indicator(config),
    {
        TabHeader { config, body: HeaderBody::Indicator(TabIndicator::new(config.indicator)) }
    }

    pub fn extra_size(&self, tab_count: usize, scale: N) -> (r: Size<N>)
        ensures
            r == self@.extra_size(tab_count, scale),
    {
        match &self.body {
            HeaderBody::Indicator(indicator) => indicator.extra_size(tab_count, scale),
            HeaderBody::Bar(bar) => bar.extra_size(tab_count, scale),
        }
    }

    pub fn content_offset(&self, tab_count: usize, scale: N) -> (r: Point<N>)
        ensures
            r == self@.content_offset(tab_count, scale),
    {
        match &self.body {
            HeaderBody::Indicator(indicator) => indicator.content_offset(tab_count, scale),
            HeaderBody::Bar(bar) => bar.content_offset(tab_count, scale),
        }
    }

    pub fn is_bar(&self) -> (r: bool)
        ensures
            r == (self@.body is Bar),
    {
        matches!(&self.body, HeaderBody::Bar(_))
    }

    pub fn hide_when_single_tab(&self) -> (r: bool)
        ensures
            r == self@.config.indicator.hide_when_single_tab,
    {
        self.config.indicator.hide_when_single_tab
    }

    pub fn start_open_animation(&mut self, kind: AnimationKind)
        ensures
            final(self)@ == old(self)@.opening(kind),
    {
        match &mut self.body {
            HeaderBody::Indicator(indicator) => {
                let zero = N::of_int(0);
                indicator.props.open_anim = Some(Animation::new(zero, N::of_int(1), zero, kind));
            },
            HeaderBody::Bar(bar) => {
                bar.start_open_animation(kind);
            },
        }
    }

    pub fn advance_animations(&mut self)
        ensures
            final(self)@ == old(self)@.with_open_anim(unless_done(old(self)@.open_anim())),
    {
        match &mut self.body {
            HeaderBody::Indicator(indicator) => {
                drop_if_done(&mut indicator.props.open_anim);
            },
            HeaderBody::Bar(bar) => {
                bar.advance_animations();
            },
        }
    }

    pub fn are_animations_ongoing(&self) -> (r: bool)
        ensures
            r == (self@.open_anim() is Some),
    {
        match &self.body {
            HeaderBody::Indicator(indicator) => indicator.props.open_anim.is_some(),
            HeaderBody::Bar(bar) => bar.are_animations_ongoing(),
        }
    }

    pub fn set_stacked(&mut self, stacked: bool)
        ensures
            final(self)@ == old(self)@.with_stacked(stacked),
    {
        match &mut self.body {
            HeaderBody::Indicator(_) => {},
            HeaderBody::Bar(bar) => {
                bar.set_stacked(stacked);
            },
        }
    }

    pub fn update_config(&mut self, config: TabHeaderConfig<N>)
        ensures
            final(self)@ == old(self)@.with_config(config),
    {
        let same_style = match (&self.body, config.style) {
            (HeaderBody::Indicator(_), TabStyle::Indicator) => true,
            (HeaderBody::Bar(_), TabStyle::Bar) => true,
            _ => false,
        };
        if !same_style {
            *self = TabHeader::new(config);
            return;
        }
        self.config = config;
        match &mut self.body {
            HeaderBody::Indicator(indicator) => {
                indicator.props.config = config.indicator;
            },
            HeaderBody::Bar(bar) => {
                bar.update_config(config.bar);
            },
        }
    }

    pub fn update_shaders(&mut self)
        ensures
            final(self)@ == old(self)@.with_stale_shaders(),
    {
        match &mut self.body {
            HeaderBody::Indicator(indicator) => {
                indicator.props.shaders_stale = true;
            },
            HeaderBody::Bar(bar) => {
                bar.update_shaders();
            },
        }
    }

    pub fn update_render_elements(
        &mut self,
        enabled: bool,
        area: Rectangle<N>,
        view_rect: Rectangle<N>,
        tab_count: usize,
        tabs: Vec<TabInfo<N>>,
        is_active: bool,
        scale: N,
    )
        requires
            old(self)@.accepts(enabled, tab_count, tabs@),
        ensures
            final(self)@ == old(self)@.updated(
                enabled,
                area,
                view_rect,
                tab_count,
                tabs@,
                is_active,
                scale,
            ),
    {
        match &mut self.body {
            HeaderBody::Indicator(indicator) => {
                indicator.tabs = tabs;
                indicator.props.elements = if enabled && !indicator.props.config.off {
                    Some(IndicatorElements { area, view_rect, tab_count, is_active, scale })
                } else {
                    None
                };
            },
            HeaderBody::Bar(bar) => {
                bar.update_render_elements(enabled, area, tab_count, &tabs, scale);
            },
        }
    }

    /// Scrolls the tabs of a bar. Tells whether they moved.
    pub fn scroll(&mut self, delta: N, area_width: N) -> (r: bool)
        ensures
            r == old(self)@.scrolls(delta, area_width),
            final(self)@ == old(self)@.scrolled(delta, area_width),
    {
        match &mut self.body {
            HeaderBody::Indicator(_) => false,
            HeaderBody::Bar(bar) => bar.scroll(delta, area_width),
        }
    }

    /// The first tab under `pos`.
    pub fn hit(&self, pos: Point<N>) -> (r: Option<usize>)
        ensures
            r == first_hit(self@.rects(), pos),
    {
        match &self.body {
            HeaderBody::Indicator(indicator) => find_hit(&indicator.tab_rects, pos),
            HeaderBody::Bar(bar) => {
                let hit = bar.hit(pos);
                proof {
                    lemma_first_hit(bar@.rects, pos, hit);
                }
                hit
            },
        }
    }
}

/// Index of the first rectangle among the first `upto` that contains a point.
pub open spec fn first_hit_upto<N: Scalar>(
    rects: Seq<Rectangle<N>>,
    pos: Point<N>,
    upto: int,
) -> Option<usize>
    decreases upto,
{
    if upto <= 0 {
        None
    } else {
        match first_hit_upto(rects, pos, upto - 1) {
            Some(i) => Some(i),
            None => if rects[upto - 1].spec_contains(pos) {
                Some((upto - 1) as usize)
            } else {
                None
            },
        }
    }
}

/// Index of the first rectangle that contains a point.
pub open spec fn first_hit<N: Scalar>(rects: Seq<Rectangle<N>>, pos: Point<N>) -> Option<usize> {
    first_hit_upto(rects, pos, rects.len() as int)
}

fn find_hit<N: Scalar>(rects: &Vec<Rectangle<N>>, pos: Point<N>) -> (r: Option<usize>)
    ensures
        r == first_hit(rects@, pos),
{
    let mut i: usize = 0;
    while i < rects.len()
        invariant
            i <= rects.len(),
            forall|j: int| 0 <= j < i ==> !rects@[j].spec_contains(pos),
        decreases rects.len() - i,
    {
        if rects[i].contains(pos) {
            proof {
                lemma_first_hit(rects@, pos, Some(i));
            }
            return Some(i);
        }
        i = i + 1;
    }
    proof {
        lemma_first_hit(rects@, pos, None);
    }
    None
}

proof fn lemma_no_hit<N: Scalar>(rects: Seq<Rectangle<N>>, pos: Point<N>, upto: int)
    requires
        forall|j: int| 0 <= j < upto ==> !rects[j].spec_contains(pos),
    ensures
        first_hit_upto(rects, pos, upto) is None,
    decreases upto,
{
    if upto > 0 {
        lemma_no_hit(rects, pos, upto - 1);
    }
}

proof fn lemma_hit_persists<N: Scalar>(
    rects: Seq<Rectangle<N>>,
    pos: Point<N>,
    i: usize,
    upto: int,
)
    requires
        i < upto,
        rects[i as int].spec_contains(pos),
        forall|j: int| 0 <= j < i ==> !rects[j].spec_contains(pos),
    ensures
        first_hit_upto(rects, pos, upto) == Some(i),
    decreases upto,
{
    if upto - 1 == i {
        lemma_no_hit(rects, pos, upto - 1);
    } else {
        lemma_hit_persists(rects, pos, i, upto - 1);
    }
}

proof fn lemma_first_hit<N: Scalar>(
    rects: Seq<Rectangle<N>>,
    pos: Point<N>,
    hit: Option<usize>,
)
    requires
        match hit {
            Some(i) => {
                &&& i < rects.len()
                &&& rects[i as int].spec_contains(pos)
                &&& forall|j: int| 0 <= j < i ==> !rects[j].spec_contains(pos)
            },
            None => forall|j: int| 0 <= j < rects.len() ==> !rects[j].spec_contains(pos),
        },
    ensures
        first_hit(rects, pos) == hit,
{
    match hit {
        Some(i) => lemma_hit_persists(rects, pos, i, rects.len() as int),
        None => lemma_no_hit(rects, pos, rects.len() as int),
    }
}

} // verus!
