//! The ring that shows where a dragged window is going to land.
use vstd::prelude::*;

use crate::geometry::{Point, Rectangle, Size};
use crate::scalar::Scalar;

verus! {

/// A color with its opacity.
#[derive(Clone, Copy, PartialEq, Eq, Debug)]
pub struct Color<N> {
    pub r: N,
    pub g: N,
    pub b: N,
    pub a: N,
}

/// A change of color across an area.
#[derive(Clone, Copy, PartialEq, Eq, Debug)]
pub struct Gradient<N> {
    pub from: Color<N>,
    pub to: Color<N>,
    pub angle: i16,
    pub relative_to_workspace_view: bool,
}

/// The radii of the four corners of a rectangle.
#[derive(Clone, Copy, PartialEq, Eq, Debug)]
pub struct CornerRadius<N> {
    pub top_left: N,
    pub top_right: N,
    pub bottom_right: N,
    pub bottom_left: N,
}

/// How insert hints look.
#[derive(Clone, Copy, PartialEq, Eq, Debug)]
pub struct InsertHintConfig<N> {
    pub off: bool,
    pub color: Color<N>,
    pub swap_color: Color<N>,
    pub tab_color: Color<N>,
    pub gradient: Option<Gradient<N>>,
    pub swap_gradient: Option<Gradient<N>>,
    pub tab_gradient: Option<Gradient<N>>,
}

/// How a ring around a window looks in each of its states.
#[derive(Clone, Copy, PartialEq, Eq, Debug)]
pub struct FocusRingConfig<N> {
    pub off: bool,
    pub width: N,
    pub active_color: Color<N>,
    pub inactive_color: Color<N>,
    pub urgent_color: Color<N>,
    pub active_gradient: Option<Gradient<N>>,
    pub inactive_gradient: Option<Gradient<N>>,
    pub urgent_gradient: Option<Gradient<N>>,
}

/// What a ring was last told to draw.
#[derive(Clone, Copy, PartialEq, Eq, Debug)]
pub struct RingElements<N> {
    pub size: Size<N>,
    pub is_active: bool,
    pub is_border: bool,
    pub is_urgent: bool,
    pub view_rect: Rectangle<N>,
    pub radius: CornerRadius<N>,
    pub scale: N,
    pub alpha: N,
}

/// A ring around a window.
#[derive(Clone, Copy, PartialEq, Eq, Debug)]
pub struct FocusRing<N> {
    pub config: FocusRingConfig<N>,
    pub elements: Option<RingElements<N>>,
    /// Whether the shaders have to be taken anew before the ring is drawn again.
    pub shaders_stale: bool,
}

impl<N: Scalar> FocusRing<N> {
    /// The color and the gradient of the state that the ring shows.
    pub open spec fn paint(self) -> (Color<N>, Option<Gradient<N>>) {
        let (is_active, is_urgent) = match self.elements {
            Some(elements) => (elements.is_active, elements.is_urgent),
            None => (false, false),
        };
        if is_urgent {
            (self.config.urgent_color, self.config.urgent_gradient)
        } else if is_active {
            (self.config.active_color, self.config.active_gradient)
        } else {
            (self.config.inactive_color, self.config.inactive_gradient)
        }
    }
}

/// Which kind of drop the hint represents, selecting its color.
#[derive(Clone, Copy, PartialEq, Eq, Structural, Debug)]
pub enum HintKind {
    /// A split or move target (place beside, above or below, or a new section).
    Split,
    /// A swap target (centre drop of an in-place drag).
    Swap,
    /// A tab target (drop on the header of a tabbing container).
    Tab,
}

/// The hint itself: a ring that fills its area.
#[derive(Clone, Copy, PartialEq, Eq, Debug)]
pub struct InsertHintElement<N> {
    inner: FocusRing<N>,
}

impl<N: Scalar> InsertHintElement<N> {
    pub closed spec fn ring(self) -> FocusRing<N> {
        self.inner
    }

    /// The color slots of the ring stand for the three kinds of drops: the active color for a
    /// split, the inactive color for a swap, the urgent color for a tab.
    pub open spec fn spec_ring_config(config: InsertHintConfig<N>) -> FocusRingConfig<N> {
        FocusRingConfig {
            off: config.off,
            width: N::spec_of_int(0),
            active_color: config.color,
            inactive_color: config.swap_color,
            urgent_color: config.tab_color,
            active_gradient: config.gradient,
            inactive_gradient: config.swap_gradient,
            urgent_gradient: config.tab_gradient,
        }
    }

    pub open spec fn spec_elements(
        size: Size<N>,
        kind: HintKind,
        view_rect: Rectangle<N>,
        radius: CornerRadius<N>,
        scale: N,
    ) -> RingElements<N> {
        RingElements {
            size,
            is_active: kind == HintKind::Split,
            is_border: false,
            is_urgent: kind == HintKind::Tab,
            view_rect,
            radius,
            scale,
            alpha: N::spec_of_int(1),
        }
    }

    pub fn new(config: InsertHintConfig<N>) -> (r: Self)
        ensures
            r.ring() == (FocusRing {
                config: Self::spec_ring_config(config),
                elements: None,
                shaders_stale: true,
            }),
    {
        InsertHintElement {
            inner: FocusRing {
                config: Self::ring_config(config),
                elements: None,
                shaders_stale: true,
            },
        }
    }

    pub fn update_config(&mut self, config: InsertHintConfig<N>)
        ensures
            final(self).ring() == (FocusRing {
                config: Self::spec_ring_config(config),
                ..old(self).ring()
            }),
    {
        self.inner.config = Self::ring_config(config);
    }

    fn ring_config(config: InsertHintConfig<N>) -> (r: FocusRingConfig<N>)
        ensures
            r == Self::spec_ring_config(config),
    {
        FocusRingConfig {
            off: config.off,
            width: N::of_int(0),
            active_color: config.color,
            inactive_color: config.swap_color,
            urgent_color: config.tab_color,
            active_gradient: config.gradient,
            inactive_gradient: config.swap_gradient,
            urgent_gradient: config.tab_gradient,
        }
    }

    /// The shaders have changed: the ring takes them anew.
    pub fn update_shaders(&mut self)
        ensures
            final(self).ring() == (FocusRing { shaders_stale: true, ..old(self).ring() }),
    {
        self.inner.shaders_stale = true;
    }

    pub fn update_render_elements(
        &mut self,
        size: Size<N>,
        kind: HintKind,
        view_rect: Rectangle<N>,
        radius: CornerRadius<N>,
        scale: N,
    )
        ensures
            final(self).ring() == (FocusRing {
                elements: Some(Self::spec_elements(size, kind, view_rect, radius, scale)),
                ..old(self).ring()
            }),
    {
        let (is_active, is_urgent) = match kind {
            HintKind::Split => (true, false),
            HintKind::Swap => (false, false),
            HintKind::Tab => (false, true),
        };
        self.inner.elements = Some(
            RingElements {
                size,
                is_active,
                is_border: false,
                is_urgent,
                view_rect,
                radius,
                scale,
                alpha: N::of_int(1),
            },
        );
    }

    /// The ring to draw and where to draw it.
    pub fn render(&self, location: Point<N>) -> (r: (FocusRing<N>, Point<N>))
        ensures
            r == (self.ring(), location),
    {
        (self.inner, location)
    }
}

/// A hint is painted with the color and gradient configured for its kind of drop.
pub proof fn law_hint_is_painted_for_its_kind<N: Scalar>(
    config: InsertHintConfig<N>,
    size: Size<N>,
    kind: HintKind,
    view_rect: Rectangle<N>,
    radius: CornerRadius<N>,
    scale: N,
    stale: bool,
)
    ensures
        ({
            let ring = FocusRing {
                config: InsertHintElement::spec_ring_config(config),
                elements: Some(
                    InsertHintElement::spec_elements(size, kind, view_rect, radius, scale),
                ),
                shaders_stale: stale,
            };
            ring.paint() == match kind {
                HintKind::Split => (config.color, config.gradient),
                HintKind::Swap => (config.swap_color, config.swap_gradient),
                HintKind::Tab => (config.tab_color, config.tab_gradient),
            }
        }),
{
}

} // verus!
