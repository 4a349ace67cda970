//! Tiles, and what the layout asks of them.
//!
//! A tile stands for a window with its decorations. The layout holds a record of what it reads of
//! each tile, and queues what the tile has to do: whoever owns the windows takes the queue,
//! carries it out, and reports back how a window has changed.
use vstd::prelude::*;

use crate::animation::AnimationKind;
use crate::axis::ResizeEdge;
use crate::config::{ConfigureIntent, SizingMode, WholeSize, WindowRules};
use crate::geometry::{Point, Size};
use crate::scalar::{num, Scalar};

verus! {

/// What the layout knows of a tile. Sizes are as on screen, not turned to the main axis.
#[derive(Clone, Copy, PartialEq, Eq, Debug)]
pub struct Tile<N> {
    /// The window in the tile.
    pub id: u64,
    pub tile_size: Size<N>,
    pub animated_tile_size: Size<N>,
    pub window_size: Size<N>,
    pub window_loc: Point<N>,
    /// The size that was last requested of the window, if any was.
    pub requested_size: Option<Size<N>>,
    /// The size that was requested of the window, or else the one it has.
    pub window_expected_size: Size<N>,
    /// The size of the tile once the window has the size that was requested of it.
    pub tile_expected_size: Size<N>,
    /// The least size of the tile outside of fullscreen.
    pub min_size_nonfullscreen: Size<N>,
    /// The greatest size of the tile outside of fullscreen; zero stands for no limit.
    pub max_size_nonfullscreen: Size<N>,
    pub window_min_size: WholeSize,
    pub window_max_size: WholeSize,
    /// Width of the border, where one is drawn.
    pub border: Option<N>,
    pub sizing_mode: SizingMode,
    pub pending_sizing_mode: SizingMode,
    pub interactive_resize: Option<ResizeEdge>,
    pub configure_intent: ConfigureIntent,
    pub rules: WindowRules<N>,
    pub is_urgent: bool,
    pub has_resize_animation: bool,
    pub has_alpha_animation: bool,
    pub are_animations_ongoing: bool,
    pub are_transitions_ongoing: bool,
    pub render_offset: Point<N>,
    /// The view that the tile was last told of.
    pub view_size: Size<N>,
    pub scale: N,
}

impl<N: Scalar> Tile<N> {
    pub open spec fn with_border(self, window_span: N) -> N {
        match self.border {
            Some(width) => window_span + width * num::<N>(2),
            None => window_span,
        }
    }

    pub open spec fn without_border(self, tile_span: N) -> N {
        match self.border {
            Some(width) => tile_span - width * num::<N>(2),
            None => tile_span,
        }
    }

    pub fn tile_width_for_window_width(&self, size: N) -> (r: N)
        ensures
            r == self.with_border(size),
    {
        match self.border {
            Some(width) => size.add(width.mul(N::of_int(2))),
            None => size,
        }
    }

    pub fn tile_height_for_window_height(&self, size: N) -> (r: N)
        ensures
            r == self.with_border(size),
    {
        match self.border {
            Some(width) => size.add(width.mul(N::of_int(2))),
            None => size,
        }
    }

    pub fn window_height_for_tile_height(&self, size: N) -> (r: N)
        ensures
            r == self.without_border(size),
    {
        match self.border {
            Some(width) => size.sub(width.mul(N::of_int(2))),
            None => size,
        }
    }

    /// Whether the tile is being resized by its start edge along the main axis.
    pub open spec fn resizes_by_start(self) -> bool {
        self.interactive_resize matches Some(edges) && edges.left
    }

    pub fn is_resized_by_start(&self) -> (r: bool)
        ensures
            r == self.resizes_by_start(),
    {
        match self.interactive_resize {
            Some(edges) => edges.left,
            None => false,
        }
    }

    /// The tile told of the view it is in.
    pub open spec fn configured(self, view_size: Size<N>, scale: N) -> Self {
        Tile { view_size, scale, ..self }
    }
}

/// Something that a tile has to do.
#[derive(Clone, Copy, PartialEq, Eq, Debug)]
pub enum TileEffect<N> {
    AnimateMoveFrom { delta: Point<N> },
    AnimateMoveYFrom { delta: N, kind: AnimationKind },
    OffsetMoveYAnimCurrent { delta: N },
    StopMoveAnimations,
    AnimateAlpha { from: N, to: N, kind: AnimationKind },
    EnsureAlphaAnimatesTo1,
    StartOpenAnimation,
    RequestTileSize { size: Size<N>, animate: bool, transaction: Option<u64> },
    RequestMaximized { size: Size<N>, animate: bool, transaction: Option<u64> },
    RequestFullscreen { animate: bool, transaction: Option<u64> },
    CancelInteractiveResize,
    UpdateShaders,
    UpdateRenderElements { is_active: bool, view_loc: Point<N>, view_size: Size<N> },
    SetState {
        active_in_section: bool,
        floating: bool,
        activated: bool,
        resize: Option<ResizeEdge>,
        bounds: WholeSize,
    },
    SendPendingConfigure,
    /// To be sent if the window wants it by itself, once its state is set.
    SendPendingConfigureIfWanted,
    Refresh,
}

/// What tiles have to do, in order. Requests that belong together carry the same transaction.
pub struct Outbox<N> {
    pub effects: Vec<(u64, TileEffect<N>)>,
    pub transactions: u64,
}

/// What an [`Outbox`] holds.
#[verifier::ext_equal]
pub ghost struct OutboxView<N> {
    pub effects: Seq<(u64, TileEffect<N>)>,
    pub transactions: u64,
}

impl<N> View for Outbox<N> {
    type V = OutboxView<N>;

    open spec fn view(&self) -> OutboxView<N> {
        OutboxView { effects: self.effects@, transactions: self.transactions }
    }
}

impl<N> OutboxView<N> {
    pub open spec fn push(self, window: u64, effect: TileEffect<N>) -> Self {
        OutboxView { effects: self.effects.push((window, effect)), ..self }
    }

    /// The number of the next transaction.
    pub open spec fn next_transaction(self) -> u64 {
        if self.transactions == u64::MAX {
            0
        } else {
            (self.transactions + 1) as u64
        }
    }

    pub open spec fn with_transaction(self) -> Self {
        OutboxView { transactions: self.next_transaction(), ..self }
    }

    /// The same effect for each of the windows of some tiles.
    pub open spec fn push_all(self, tiles: Seq<Tile<N>>, effect: TileEffect<N>) -> Self
        decreases tiles.len(),
    {
        if tiles.len() == 0 {
            self
        } else {
            self.push_all(tiles.drop_last(), effect).push(tiles.last().id, effect)
        }
    }
}

impl<N> Outbox<N> {
    pub fn new() -> (r: Self)
        ensures
            r@ == (OutboxView::<N> { effects: Seq::empty(), transactions: 0 }),
    {
        Outbox { effects: Vec::new(), transactions: 0 }
    }

    pub fn push(&mut self, window: u64, effect: TileEffect<N>)
        ensures
            final(self)@ == old(self)@.push(window, effect),
    {
        self.effects.push((window, effect));
    }

    /// Starts a transaction: requests that are to take effect together.
    pub fn begin_transaction(&mut self) -> (r: u64)
        ensures
            r == old(self)@.next_transaction(),
            final(self)@ == old(self)@.with_transaction(),
    {
        self.transactions = if self.transactions == u64::MAX {
            0
        } else {
            self.transactions + 1
        };
        self.transactions
    }

    /// Queues the same effect for all tiles.
    pub fn push_all(&mut self, tiles: &Vec<Tile<N>>, effect: TileEffect<N>) where N: Copy
        ensures
            final(self)@ == old(self)@.push_all(tiles@, effect),
    {
        let mut i: usize = 0;
        while i < tiles.len()
            invariant
                i <= tiles.len(),
                self@ == old(self)@.push_all(tiles@.take(i as int), effect),
            decreases tiles.len() - i,
        {
            proof {
                assert(tiles@.take(i + 1).drop_last() =~= tiles@.take(i as int));
            }
            self.push(tiles[i].id, effect);
            i = i + 1;
        }
        assert(tiles@.take(i as int) =~= tiles@);
    }

    /// Takes what was queued.
    pub fn take(&mut self) -> (r: Vec<(u64, TileEffect<N>)>)
        ensures
            r@ == old(self)@.effects,
            final(self)@ == (OutboxView { effects: Seq::empty(), ..old(self)@ }),
    {
        let mut taken: Vec<(u64, TileEffect<N>)> = Vec::new();
        std::mem::swap(&mut taken, &mut self.effects);
        taken
    }
}

} // verus!
