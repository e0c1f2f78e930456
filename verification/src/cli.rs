//! Startup options the dashboard understands.

use vstd::prelude::*;

verus! {

use crate::tabs::TAB_COUNT;
use crate::topic::topic_eq;

/// Which dashboard view to start in.
#[derive(Clone, Copy, PartialEq, Eq, Structural, Debug)]
pub enum Mode {
    Subscriptions,
    Stream,
    Retained,
    Statistics,
}

/// The tab a startup mode selects.
pub open spec fn mode_index(m: Mode) -> int {
    match m {
        Mode::Subscriptions => 0,
        Mode::Stream => 1,
        Mode::Retained => 2,
        Mode::Statistics => 3,
    }
}

impl Mode {
    /// Parse a mode selector.
    pub fn from_str(s: &str) -> (r: Result<Mode, ()>)
        ensures
            r == if s@ == "subs"@ {
                Ok::<Mode, ()>(Mode::Subscriptions)
            } else if s@ == "stream"@ {
                Ok::<Mode, ()>(Mode::Stream)
            } else if s@ == "retained"@ {
                Ok::<Mode, ()>(Mode::Retained)
            } else if s@ == "statistics"@ {
                Ok::<Mode, ()>(Mode::Statistics)
            } else {
                Err::<Mode, ()>(())
            },
    {
        if topic_eq(s, "subs") {
            Ok(Mode::Subscriptions)
        } else if topic_eq(s, "stream") {
            Ok(Mode::Stream)
        } else if topic_eq(s, "retained") {
            Ok(Mode::Retained)
        } else if topic_eq(s, "statistics") {
            Ok(Mode::Statistics)
        } else {
            Err(())
        }
    }

    /// The tab this mode selects at startup.
    pub fn tab_index(&self) -> (i: usize)
        ensures
            i == mode_index(*self),
            i < TAB_COUNT,
    {
        match self {
            Mode::Subscriptions => 0,
            Mode::Stream => 1,
            Mode::Retained => 2,
            Mode::Statistics => 3,
        }
    }
}

} // verus!
