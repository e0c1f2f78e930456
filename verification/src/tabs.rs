//! Tab selector for the dashboard views.

use vstd::prelude::*;

verus! {

/// Number of dashboard views: subscriptions, stream, retained, statistics.
pub const TAB_COUNT: usize = 4;

/// Index into the fixed, ordered list of dashboard views.
///
/// The index always stays below [`TAB_COUNT`]; moving past either end wraps
/// around to the other.
pub struct TabsState {
    pub index: usize,
}

impl TabsState {
    /// The selector is in range.
    pub open spec fn wf(self) -> bool {
        self.index < TAB_COUNT
    }

    /// Start on the first view.
    pub fn default() -> (r: TabsState)
        ensures
            r.index == 0,
            r.wf(),
    {
        TabsState { index: 0 }
    }

    /// Move one view to the right, wrapping at the end.
    pub fn next(&mut self)
        requires
            old(self).wf(),
        ensures
            final(self).wf(),
            final(self).index == (old(self).index + 1) % (TAB_COUNT as int),
    {
        self.index = (self.index + 1) % TAB_COUNT;
    }

    /// Move one view to the left, wrapping at the start.
    pub fn previous(&mut self)
        requires
            old(self).wf(),
        ensures
            final(self).wf(),
            final(self).index == if old(self).index > 0 {
                old(self).index - 1
            } else {
                TAB_COUNT - 1
            },
    {
        if self.index > 0 {
            self.index = self.index - 1;
        } else {
            self.index = TAB_COUNT - 1;
        }
    }
}

} // verus!
