use vstd::prelude::*;

use crate::component::{Renderable, RenderableKind};

verus! {

/// Number of level names the level list shows at once.
pub const VISIBLE_LEVELS: usize = 12;

/// The animation frame shown `elapsed_ms` after loading: frames change
/// every 250 ms and the cycle restarts every second.
pub open spec fn frame_index(r: Renderable, elapsed_ms: u64) -> int {
    if r.paths@.len() == 1 {
        0
    } else {
        ((elapsed_ms % 1000) / 250) as int % (r.paths@.len() as int)
    }
}

/// The image path to draw for `renderable` at `elapsed_ms`.
pub fn get_image(renderable: &Renderable, elapsed_ms: u64) -> (r: String)
    requires
        renderable.wf(),
    ensures
        r@ == renderable.paths@[frame_index(*renderable, elapsed_ms)]@,
{
    let path_index: usize = match renderable.kind() {
        RenderableKind::Static => 0,
        RenderableKind::Animated => ((elapsed_ms % 1000) / 250) as usize,
    };
    renderable.path(path_index)
}

/// The first shown level of the list: five above the current one where
/// possible, without leaving room at the end.
pub open spec fn window_start(current: int, count: int) -> int {
    let start = if current > 5 { current - 5 } else { 0 };
    if start + VISIBLE_LEVELS > count {
        if count > VISIBLE_LEVELS { count - VISIBLE_LEVELS } else { 0 }
    } else {
        start
    }
}

/// The range `[start, end)` of levels that the level list shows.
pub fn level_window(current: usize, count: usize) -> (r: (usize, usize))
    ensures
        r.0 == window_start(current as int, count as int),
        r.1 == (if r.0 + VISIBLE_LEVELS < count { r.0 + VISIBLE_LEVELS } else { count as int }),
{
    let start: usize = if current > 5 { current - 5 } else { 0 };
    let start: usize = if count < VISIBLE_LEVELS || start > count - VISIBLE_LEVELS {
        if count > VISIBLE_LEVELS { count - VISIBLE_LEVELS } else { 0 }
    } else {
        start
    };
    let end: usize = if count >= VISIBLE_LEVELS && start < count - VISIBLE_LEVELS { start + VISIBLE_LEVELS } else { count };
    (start, end)
}

} // verus!
