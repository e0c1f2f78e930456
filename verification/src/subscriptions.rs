//! Key handling for the subscriptions tab: the subscribe input line, the
//! subscription list, and a focused list item.

use vstd::prelude::*;

verus! {

use crate::app::{cmd_view, spec_pop_floor, App, CommandView, KeyEvent, UiView};
use crate::engine::{Event, Registry};
use crate::navigation::BlockId;
use crate::topic::chars_to_string;

/// What a key does while the subscribe input is focused: printable
/// characters grow the pending topic, backspace shrinks it, enter drains a
/// non-empty buffer into a subscribe command, up and down leave the input.
pub open spec fn spec_on_subscribe_input(u: UiView, key: KeyEvent) -> (
    UiView,
    Option<CommandView>,
) {
    match key {
        KeyEvent::Up => (
            UiView {
                tab: u.tab,
                input: Seq::empty(),
                nav: u.nav.update(u.nav.len() - 1, BlockId::TabNav),
            },
            None,
        ),
        KeyEvent::Down => (
            UiView {
                tab: u.tab,
                input: Seq::empty(),
                nav: u.nav.update(u.nav.len() - 1, BlockId::SubscriptionsList),
            },
            None,
        ),
        KeyEvent::Backspace => (
            UiView {
                tab: u.tab,
                input: if u.input.len() > 0 {
                    u.input.drop_last()
                } else {
                    u.input
                },
                nav: u.nav,
            },
            None,
        ),
        KeyEvent::Char(c) => if c == '\n' {
            if u.input.len() > 0 {
                (
                    UiView { tab: u.tab, input: Seq::empty(), nav: u.nav },
                    Some(CommandView::Subscribe(u.input)),
                )
            } else {
                (u, None)
            }
        } else {
            (UiView { tab: u.tab, input: u.input.push(c), nav: u.nav }, None)
        },
        _ => (u, None),
    }
}

/// What a key does while the subscription list is focused: up returns to
/// the input, enter drills into the first item, but only when the live
/// registry is not empty.
pub open spec fn spec_on_list(u: UiView, key: KeyEvent, reg: Seq<Seq<char>>) -> UiView {
    match key {
        KeyEvent::Up => UiView {
            tab: u.tab,
            input: u.input,
            nav: u.nav.update(u.nav.len() - 1, BlockId::SubscribeInput),
        },
        KeyEvent::Char(c) => if c == '\n' && reg.len() > 0 {
            UiView {
                tab: u.tab,
                input: u.input,
                nav: u.nav.push(BlockId::SubscriptionsListItem(0)),
            }
        } else {
            u
        },
        _ => u,
    }
}

/// What a key does while a list item is focused.  Moving the cursor clamps
/// it to the live registry, since the registry can shrink underneath it;
/// deleting emits an unsubscribe command for the topic the cursor points
/// at, but only while it still points into the registry, and leaves the
/// cursor in place; an empty registry closes the item view.
pub open spec fn spec_on_list_item(u: UiView, key: KeyEvent, reg: Seq<Seq<char>>, i: int) -> (
    UiView,
    Option<CommandView>,
)
    recommends
        i >= 0,
{
    if reg.len() == 0 {
        (UiView { tab: u.tab, input: u.input, nav: spec_pop_floor(u.nav) }, None)
    } else {
        let clamped = if i > reg.len() - 1 {
            reg.len() - 1
        } else {
            i
        };
        match key {
            KeyEvent::Up => (
                UiView {
                    tab: u.tab,
                    input: u.input,
                    nav: u.nav.update(
                        u.nav.len() - 1,
                        BlockId::SubscriptionsListItem(
                            (if clamped > 0 {
                                clamped - 1
                            } else {
                                0
                            }) as usize,
                        ),
                    ),
                },
                None,
            ),
            KeyEvent::Down => (
                UiView {
                    tab: u.tab,
                    input: u.input,
                    nav: u.nav.update(
                        u.nav.len() - 1,
                        BlockId::SubscriptionsListItem(
                            (if clamped < reg.len() - 1 {
                                clamped + 1
                            } else {
                                clamped
                            }) as usize,
                        ),
                    ),
                },
                None,
            ),
            KeyEvent::Char(c) => if c == 'd' || c == 'x' {
                (
                    u,
                    if i < reg.len() {
                        Some(CommandView::Unsubscribe(reg[i]))
                    } else {
                        None
                    },
                )
            } else {
                (u, None)
            },
            KeyEvent::Backspace => (
                u,
                if i < reg.len() {
                    Some(CommandView::Unsubscribe(reg[i]))
                } else {
                    None
                },
            ),
            KeyEvent::Delete => (
                u,
                if i < reg.len() {
                    Some(CommandView::Unsubscribe(reg[i]))
                } else {
                    None
                },
            ),
            _ => (u, None),
        }
    }
}

/// Key handling while the subscribe input is focused.
pub fn handle_input_on_subscribe_input(c: KeyEvent, app: &mut App) -> (cmd: Option<Event>)
    requires
        old(app).wf(),
    ensures
        final(app).wf(),
        final(app).ui() == spec_on_subscribe_input(old(app).ui(), c).0,
        cmd_view(cmd) == spec_on_subscribe_input(old(app).ui(), c).1,
        final(app).notifications == old(app).notifications,
        final(app).retained_messages == old(app).retained_messages,
{
    let cmd: Option<Event> = match c {
        KeyEvent::Up => {
            app.subscribe_input.clear();
            app.navigation.modify_top(BlockId::TabNav);
            None
        },
        KeyEvent::Down => {
            app.subscribe_input.clear();
            app.navigation.modify_top(BlockId::SubscriptionsList);
            None
        },
        KeyEvent::Backspace => {
            let _ = app.subscribe_input.pop();
            None
        },
        KeyEvent::Char(ch) => {
            if ch == '\n' {
                if app.subscribe_input.len() > 0 {
                    let topic = chars_to_string(&app.subscribe_input);
                    app.subscribe_input.clear();
                    Some(Event::Subscribe(topic))
                } else {
                    None
                }
            } else {
                app.subscribe_input.push(ch);
                None
            }
        },
        _ => None,
    };
    proof {
        assert(app.ui() =~= spec_on_subscribe_input(old(app).ui(), c).0);
    }
    cmd
}

/// Key handling while the subscription list is focused.
pub fn handle_input_on_subscriptions_list(c: KeyEvent, app: &mut App, registry: &Registry)
    requires
        old(app).wf(),
        registry.wf(),
    ensures
        final(app).wf(),
        final(app).ui() == spec_on_list(old(app).ui(), c, registry@),
        final(app).notifications == old(app).notifications,
        final(app).retained_messages == old(app).retained_messages,
{
    match c {
        KeyEvent::Up => {
            app.navigation.modify_top(BlockId::SubscribeInput);
        },
        KeyEvent::Char(ch) => {
            if ch == '\n' {
                if registry.len() > 0 {
                    app.navigation.push(BlockId::SubscriptionsListItem(0));
                }
            }
        },
        _ => {},
    }
    proof {
        assert(app.ui() =~= spec_on_list(old(app).ui(), c, registry@));
    }
}

/// Key handling while a list item is focused.
pub fn handle_input_on_subscriptions_list_item(
    c: KeyEvent,
    app: &mut App,
    registry: &Registry,
    index: usize,
) -> (cmd: Option<Event>)
    requires
        old(app).wf(),
        registry.wf(),
    ensures
        final(app).wf(),
        final(app).ui() == spec_on_list_item(old(app).ui(), c, registry@, index as int).0,
        cmd_view(cmd) == spec_on_list_item(old(app).ui(), c, registry@, index as int).1,
        final(app).notifications == old(app).notifications,
        final(app).retained_messages == old(app).retained_messages,
{
    let subscriptions_len = registry.len();

    if subscriptions_len == 0 {
        app.navigation.pop();
        if matches!(app.navigation.parent(), BlockId::Root) {
            app.navigation.push(BlockId::TabNav);
        }
        proof {
            assert(app.ui() =~= spec_on_list_item(old(app).ui(), c, registry@, index as int).0);
        }
        return None;
    }

    let max = subscriptions_len - 1;
    let clamped = if index > max {
        max
    } else {
        index
    };
    let cmd: Option<Event> = match c {
        KeyEvent::Up => {
            let prev_index = if clamped > 0 {
                clamped - 1
            } else {
                0
            };
            app.navigation.modify_top(BlockId::SubscriptionsListItem(prev_index));
            None
        },
        KeyEvent::Down => {
            let next_index = if clamped < max {
                clamped + 1
            } else {
                clamped
            };
            app.navigation.modify_top(BlockId::SubscriptionsListItem(next_index));
            None
        },
        KeyEvent::Char(ch) => {
            if (ch == 'd' || ch == 'x') && index <= max {
                Some(Event::Unsubscribe(registry.get(index).clone()))
            } else {
                None
            }
        },
        KeyEvent::Backspace => {
            if index <= max {
                Some(Event::Unsubscribe(registry.get(index).clone()))
            } else {
                None
            }
        },
        KeyEvent::Delete => {
            if index <= max {
                Some(Event::Unsubscribe(registry.get(index).clone()))
            } else {
                None
            }
        },
        _ => None,
    };
    proof {
        assert(app.ui() =~= spec_on_list_item(old(app).ui(), c, registry@, index as int).0);
    }
    cmd
}

} // verus!
