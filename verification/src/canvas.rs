//! Decisions of the layer canvas: how small a layer may get, and what a
//! press on the canvas grabs.

use vstd::prelude::*;

verus! {

/// The narrowest a layer may be.
pub const MIN_LAYER_WIDTH: i32 = 240;

/// The lowest a layer may be.
pub const MIN_LAYER_HEIGHT: i32 = 160;

/// The size a layer gets when asked for `width` by `height`: at least the
/// minimum in each direction.
pub fn layer_size(width: i32, height: i32) -> (size: (i32, i32))
    ensures
        size.0 == if width > MIN_LAYER_WIDTH { width } else { MIN_LAYER_WIDTH },
        size.1 == if height > MIN_LAYER_HEIGHT { height } else { MIN_LAYER_HEIGHT },
{
    let w = if width > MIN_LAYER_WIDTH { width } else { MIN_LAYER_WIDTH };
    let h = if height > MIN_LAYER_HEIGHT { height } else { MIN_LAYER_HEIGHT };
    (w, h)
}

/// The size of a layer resized by dragging its handle by (`dx`, `dy`) from
/// the size (`start_width`, `start_height`).
pub fn resized_layer_size(start_width: i32, start_height: i32, dx: i32, dy: i32) -> (size: (
    i32,
    i32,
))
    requires
        i32::MIN <= start_width + dx <= i32::MAX,
        i32::MIN <= start_height + dy <= i32::MAX,
    ensures
        size.0 == if start_width + dx > MIN_LAYER_WIDTH {
            start_width + dx
        } else {
            MIN_LAYER_WIDTH as int
        },
        size.1 == if start_height + dy > MIN_LAYER_HEIGHT {
            start_height + dy
        } else {
            MIN_LAYER_HEIGHT as int
        },
{
    layer_size(start_width + dx, start_height + dy)
}

/// The style classes of one widget on the way from the picked widget up to
/// the canvas.
#[derive(Debug, Clone, Copy, PartialEq, Eq)]
pub struct PickedWidget {
    /// The widget has the class "layer-header".
    pub header: bool,
    /// The widget has the class "layer-resize-handle".
    pub resize_handle: bool,
    /// The widget has the class "layer-close-button".
    pub close_button: bool,
    /// The widget has the class "layer-panel".
    pub panel: bool,
}

/// What a drag that starts on a layer does.
#[derive(Debug, Clone, Copy, PartialEq, Eq)]
pub enum LayerInteractionKind {
    /// The drag moves the layer.
    Move,
    /// The drag resizes the layer.
    Resize,
}

/// Some widget of the chain has the property `p`.
pub open spec fn any_widget(chain: Seq<PickedWidget>, p: spec_fn(PickedWidget) -> bool) -> bool {
    exists|k: int| 0 <= k < chain.len() && p(#[trigger] chain[k])
}

/// What a press grabs, given the widgets from the picked one up to the
/// canvas's child (the last one): nothing unless that child is a layer
/// panel; nothing when a close button was hit; else a resize when a resize
/// handle was hit, a move when the header was hit, and nothing otherwise.
pub open spec fn interaction_of(chain: Seq<PickedWidget>) -> Option<LayerInteractionKind> {
    if chain.len() == 0 || !chain.last().panel {
        None
    } else if any_widget(chain, |w: PickedWidget| w.close_button) {
        None
    } else if any_widget(chain, |w: PickedWidget| w.resize_handle) {
        Some(LayerInteractionKind::Resize)
    } else if any_widget(chain, |w: PickedWidget| w.header) {
        Some(LayerInteractionKind::Move)
    } else {
        None
    }
}

/// Decides what a press on the canvas grabs; `chain` runs from the picked
/// widget up to the canvas's direct child.
pub fn layer_interaction(chain: &Vec<PickedWidget>) -> (r: Option<LayerInteractionKind>)
    ensures
        r == interaction_of(chain@),
{
    let n = chain.len();
    if n == 0 || !chain[n - 1].panel {
        return None;
    }
    let mut header = false;
    let mut resize = false;
    let mut close = false;
    let mut i: usize = 0;
    while i < n
        invariant
            n == chain.len(),
            i <= n,
            header == exists|k: int| 0 <= k < i && (#[trigger] chain@[k]).header,
            resize == exists|k: int| 0 <= k < i && (#[trigger] chain@[k]).resize_handle,
            close == exists|k: int| 0 <= k < i && (#[trigger] chain@[k]).close_button,
        decreases n - i,
    {
        let w = chain[i];
        header = header || w.header;
        resize = resize || w.resize_handle;
        close = close || w.close_button;
        i += 1;
    }
    proof {
        let c = chain@;
        assert(close == any_widget(c, |w: PickedWidget| w.close_button));
        assert(resize == any_widget(c, |w: PickedWidget| w.resize_handle));
        assert(header == any_widget(c, |w: PickedWidget| w.header));
    }
    if close {
        None
    } else if resize {
        Some(LayerInteractionKind::Resize)
    } else if header {
        Some(LayerInteractionKind::Move)
    } else {
        None
    }
}

/// The drag in progress on the canvas, if any: what it grabbed and where
/// it started.
pub struct DragTracker<T> {
    active: Option<T>,
}

impl<T> View for DragTracker<T> {
    type V = Option<T>;

    closed spec fn view(&self) -> Option<T> {
        self.active
    }
}

impl<T> DragTracker<T> {
    /// No drag in progress.
    pub fn new() -> (d: Self)
        ensures
            d@ is None,
    {
        DragTracker { active: None }
    }

    /// A drag begins. `grabbed` is what the press grabbed, if anything;
    /// it becomes the drag in progress. Returns whether the drag is
    /// claimed, that is, whether something was grabbed.
    pub fn begin(&mut self, grabbed: Option<T>) -> (claimed: bool)
        ensures
            claimed == grabbed is Some,
            final(self)@ == grabbed,
    {
        let claimed = grabbed.is_some();
        self.active = grabbed;
        claimed
    }

    /// The drag in progress, for an update of its offset.
    pub fn current(&self) -> (a: Option<&T>)
        ensures
            a == match self@ {
                Some(t) => Some(&t),
                None => None::<&T>,
            },
    {
        match &self.active {
            Some(t) => Some(t),
            None => None,
        }
    }

    /// The drag ends: returns the drag that was in progress, which is then
    /// over.
    pub fn finish(&mut self) -> (a: Option<T>)
        ensures
            a == old(self)@,
            final(self)@ is None,
    {
        self.active.take()
    }
}

} // verus!
