//! Breadcrumb stack of focused dashboard panels.

use vstd::prelude::*;

verus! {

/// Identifier of a focusable region of the dashboard.
#[derive(Clone, Copy, PartialEq, Eq, Structural, Debug)]
pub enum BlockId {
    Root,
    SubscriptionsWindow,
    TabNav,
    SubscribeInput,
    SubscriptionsList,
    SubscriptionsListItem(usize),
}

/// Stack of panel identifiers; the last element is the focused panel.
pub struct Navigation(pub Vec<BlockId>);

impl View for Navigation {
    type V = Seq<BlockId>;

    open spec fn view(&self) -> Seq<BlockId> {
        self.0@
    }
}

/// The stack the dashboard starts from, and the floor that an escape
/// keystroke can never sink below.
pub open spec fn default_path() -> Seq<BlockId> {
    seq![BlockId::Root, BlockId::SubscriptionsWindow, BlockId::TabNav]
}

impl Navigation {
    /// Start focused on the tab bar, with the window and root beneath it.
    pub fn default() -> (r: Navigation)
        ensures
            r@ == default_path(),
    {
        let mut nav: Vec<BlockId> = Vec::new();
        nav.push(BlockId::Root);
        nav.push(BlockId::SubscriptionsWindow);
        nav.push(BlockId::TabNav);
        proof {
            assert(nav@ =~= default_path());
        }
        Navigation(nav)
    }

    /// Enter a child panel.
    pub fn push(&mut self, block_id: BlockId)
        ensures
            final(self)@ == old(self)@.push(block_id),
    {
        self.0.push(block_id);
    }

    /// The focused panel; `Root` if the stack is empty.
    pub fn peek(&self) -> (r: BlockId)
        ensures
            r == if self@.len() > 0 {
                self@.last()
            } else {
                BlockId::Root
            },
    {
        if self.0.len() > 0 {
            self.0[self.0.len() - 1]
        } else {
            BlockId::Root
        }
    }

    /// The panel beneath the focused one; `Root` if there is none.
    pub fn parent(&self) -> (r: BlockId)
        ensures
            r == if self@.len() >= 2 {
                self@[self@.len() - 2]
            } else {
                BlockId::Root
            },
    {
        if self.0.len() < 2 {
            BlockId::Root
        } else {
            self.0[self.0.len() - 2]
        }
    }

    /// Leave the focused panel; on an empty stack this does nothing.
    pub fn pop(&mut self)
        ensures
            final(self)@ == if old(self)@.len() > 0 {
                old(self)@.drop_last()
            } else {
                old(self)@
            },
    {
        let _ = self.0.pop();
        proof {
            if old(self)@.len() > 0 {
                assert(self@ =~= old(self)@.drop_last());
            }
        }
    }

    /// Replace the focused panel in place, keeping the depth.
    pub fn modify_top(&mut self, new_value: BlockId)
        requires
            old(self)@.len() > 0,
        ensures
            final(self)@ == old(self)@.update(old(self)@.len() - 1, new_value),
    {
        let last = self.0.len() - 1;
        self.0.set(last, new_value);
    }
}

} // verus!
