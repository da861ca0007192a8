//! Small pieces of application state: the theme action, the menu state and
//! the frame clock of animated images.
use vstd::prelude::*;

verus! {

/// The action that switches the editor to the theme of the given name.
#[derive(Debug, Clone, PartialEq, Eq)]
pub struct ChangeTheme {
    pub name: String,
}

/// What the application menus depend on: whether a file is open and active.
#[derive(Debug, Clone, Copy, PartialEq, Eq, Structural)]
pub struct MenuState {
    pub has_active_file: bool,
}

/// Which frame of an animated image is shown, and when (in nanoseconds on a
/// monotonic clock) it started being shown.
#[derive(Debug, Clone, Copy, PartialEq, Eq, Structural)]
pub struct AnimationState {
    pub current_frame_index: usize,
    pub last_frame_updated_nanos: u128,
}

/// `Instant::duration_since`: the time from `earlier` to `now`, or zero when
/// `earlier` is later.
pub open spec fn elapsed_since(now: u128, earlier: u128) -> u128 {
    if now >= earlier {
        (now - earlier) as u128
    } else {
        0
    }
}

/// The state after a paint at time `now` of an image with `frame_count`
/// frames whose current frame lasts `frame_delay`: once the delay has passed,
/// the next frame (wrapping to the first) is shown from `now` on.
pub open spec fn advanced(s: AnimationState, now: u128, frame_delay: u128, frame_count: usize) -> AnimationState {
    if elapsed_since(now, s.last_frame_updated_nanos) >= frame_delay {
        AnimationState {
            current_frame_index: ((s.current_frame_index + 1) % (frame_count as int)) as usize,
            last_frame_updated_nanos: now,
        }
    } else {
        s
    }
}

impl AnimationState {
    /// The first frame, shown from `now`.
    pub fn new(now: u128) -> (s: Self)
        ensures
            s.current_frame_index == 0,
            s.last_frame_updated_nanos == now,
    {
        AnimationState { current_frame_index: 0, last_frame_updated_nanos: now }
    }

    /// Moves to the next frame if the current one has been shown for
    /// `frame_delay`; returns the frame to paint.
    pub fn advance(&mut self, now: u128, frame_delay: u128, frame_count: usize) -> (frame: usize)
        requires
            frame_count > 0,
            old(self).current_frame_index < usize::MAX,
        ensures
            *final(self) == advanced(*old(self), now, frame_delay, frame_count),
            frame == final(self).current_frame_index,
            old(self).current_frame_index < frame_count ==> frame < frame_count,
    {
        let elapsed: u128 = if now >= self.last_frame_updated_nanos {
            now - self.last_frame_updated_nanos
        } else {
            0
        };
        if elapsed >= frame_delay {
            self.current_frame_index = (self.current_frame_index + 1) % frame_count;
            self.last_frame_updated_nanos = now;
        }
        self.current_frame_index
    }
}

/// Painting twice at the same moment advances at most once: right after an
/// advance the elapsed time is zero, so a second paint at that time only
/// advances again when the delay is zero.
pub proof fn lemma_one_frame_per_instant(s: AnimationState, now: u128, frame_delay: u128, frame_count: usize)
    requires
        frame_count > 0,
        frame_delay > 0,
    ensures
        advanced(advanced(s, now, frame_delay, frame_count), now, frame_delay, frame_count)
            == advanced(s, now, frame_delay, frame_count),
{
}

/// The preview's text selection: where it was started (if a selection is
/// being made) and where the cursor is, as byte offsets of the source.
#[derive(Debug, Clone, Copy, PartialEq, Eq, Structural)]
pub struct PreviewSelection {
    pub selection_anchor: Option<usize>,
    pub cursor_offset: usize,
}

impl PreviewSelection {
    /// The selected byte range, from the lower to the higher of anchor and
    /// cursor; none when there is no anchor or it is at the cursor.
    pub fn selection_range(&self) -> (r: Option<std::ops::Range<usize>>)
        ensures
            match self.selection_anchor {
                Some(a) => if a == self.cursor_offset {
                    r is None
                } else {
                    r matches Some(x) && x.start == (if a < self.cursor_offset { a } else { self.cursor_offset })
                        && x.end == (if a < self.cursor_offset { self.cursor_offset } else { a })
                },
                None => r is None,
            },
    {
        match self.selection_anchor {
            Some(anchor) => {
                if anchor == self.cursor_offset {
                    None
                } else if anchor < self.cursor_offset {
                    Some(anchor..self.cursor_offset)
                } else {
                    Some(self.cursor_offset..anchor)
                }
            },
            None => None,
        }
    }

    /// Selects `range`: the anchor at its start and the cursor at its end.
    pub fn set_selection(&mut self, range: std::ops::Range<usize>)
        ensures
            final(self).selection_anchor == Some(range.start),
            final(self).cursor_offset == range.end,
    {
        self.selection_anchor = Some(range.start);
        self.cursor_offset = range.end;
    }
}

} // verus!
