//! The dashboard's mutable state and its event handling.
//!
//! The application state owns the tab selector, the pending subscribe
//! input, the ring buffer of recent notifications, the retained-message
//! map, and the navigation stack.  It receives two kinds of events: a key
//! stroke, which is interpreted against the focused panel and may emit a
//! command for the engine, and a broker notification, which feeds the ring
//! buffer and the retained map.

use vstd::prelude::*;

verus! {

use crate::engine::{Event, Registry};
use crate::navigation::{default_path, BlockId, Navigation};
use crate::notification::{Notification, NotificationView, PublishView};
use crate::retained::RetainedMap;
use crate::ring::{ring_capacity, ring_items, ring_push, ring_to_vec, ring_with_capacity};
use crate::subscriptions::{
    handle_input_on_subscribe_input, handle_input_on_subscriptions_list,
    handle_input_on_subscriptions_list_item, spec_on_list, spec_on_list_item,
    spec_on_subscribe_input,
};
use crate::tabs::{TabsState, TAB_COUNT};
use crate::cli::{mode_index, Mode};

/// How many notifications the stream view keeps.
pub const NOTIFICATION_CAPACITY: usize = 100;

/// A key stroke, as the dashboard interprets it.
#[derive(Clone, Copy, PartialEq, Eq, Structural, Debug)]
pub enum KeyEvent {
    Up,
    Down,
    Left,
    Right,
    Char(char),
    Ctrl(char),
    Backspace,
    Delete,
    Esc,
    Other,
}

/// A command a key stroke asks the engine to perform, by topic.
pub enum CommandView {
    Subscribe(Seq<char>),
    Unsubscribe(Seq<char>),
}

/// The command an emitted event stands for.
pub open spec fn cmd_view(c: Option<Event>) -> Option<CommandView> {
    match c {
        None => None,
        Some(Event::Subscribe(t)) => Some(CommandView::Subscribe(t@)),
        Some(Event::Unsubscribe(t)) => Some(CommandView::Unsubscribe(t@)),
    }
}

/// The key-facing part of the application state: tab selector, pending
/// input, and navigation stack.
#[verifier::ext_equal]
pub struct UiView {
    pub tab: int,
    pub input: Seq<char>,
    pub nav: Seq<BlockId>,
}

/// A navigation stack the dashboard accepts: at least three deep, rooted
/// at `Root` below the subscriptions window, with `Root` nowhere else.
pub open spec fn nav_wf(s: Seq<BlockId>) -> bool {
    &&& s.len() >= 3
    &&& s[0] == BlockId::Root
    &&& s[1] == BlockId::SubscriptionsWindow
    &&& forall|i: int| 1 <= i < s.len() ==> s[i] != BlockId::Root
}

/// Leave the focused panel; sinking below the floor re-seeds the default
/// sub-path, so the stack never empties.
pub open spec fn spec_pop_floor(s: Seq<BlockId>) -> Seq<BlockId>
    recommends
        s.len() > 0,
{
    let p = s.drop_last();
    if p.len() < 3 {
        p.push(BlockId::TabNav)
    } else {
        p
    }
}

/// What a key does while the tab bar is focused: left and right move the
/// selector, descending replaces the focus with the subscribe input.
pub open spec fn spec_on_tabs(u: UiView, key: KeyEvent) -> UiView {
    match key {
        KeyEvent::Right => UiView {
            tab: (u.tab + 1) % (TAB_COUNT as int),
            input: u.input,
            nav: u.nav,
        },
        KeyEvent::Left => UiView {
            tab: if u.tab > 0 {
                u.tab - 1
            } else {
                TAB_COUNT as int - 1
            },
            input: u.input,
            nav: u.nav,
        },
        KeyEvent::Down => UiView {
            tab: u.tab,
            input: u.input,
            nav: u.nav.update(u.nav.len() - 1, BlockId::SubscribeInput),
        },
        KeyEvent::Char(c) => if c == 'j' {
            UiView {
                tab: u.tab,
                input: u.input,
                nav: u.nav.update(u.nav.len() - 1, BlockId::SubscribeInput),
            }
        } else {
            u
        },
        _ => u,
    }
}

/// One step of the navigation state machine: the current focus plus a key
/// yield the next focus state and, possibly, a command for the engine.
pub open spec fn spec_handle_input(u: UiView, key: KeyEvent, reg: Seq<Seq<char>>) -> (
    UiView,
    Option<CommandView>,
) {
    match key {
        KeyEvent::Esc => (
            UiView { tab: u.tab, input: u.input, nav: spec_pop_floor(u.nav) },
            None,
        ),
        _ => match u.nav.last() {
            BlockId::Root => (
                UiView {
                    tab: u.tab,
                    input: u.input,
                    nav: u.nav.push(BlockId::SubscriptionsWindow).push(BlockId::TabNav),
                },
                None,
            ),
            BlockId::TabNav => (spec_on_tabs(u, key), None),
            BlockId::SubscribeInput => spec_on_subscribe_input(u, key),
            BlockId::SubscriptionsList => (spec_on_list(u, key, reg), None),
            BlockId::SubscriptionsListItem(i) => spec_on_list_item(u, key, reg, i as int),
            BlockId::SubscriptionsWindow => (u, None),
        },
    }
}

/// All mutable state behind the dashboard.
pub struct App {
    pub tabs: TabsState,
    pub subscribe_input: Vec<char>,
    pub notifications: circular_queue::CircularQueue<Notification>,
    pub retained_messages: RetainedMap,
    pub navigation: Navigation,
}

impl App {
    /// The key-facing part of the state.
    pub open spec fn ui(self) -> UiView {
        UiView {
            tab: self.tabs.index as int,
            input: self.subscribe_input@,
            nav: self.navigation@,
        }
    }

    /// The state the dashboard keeps up: tab in range, navigation stack
    /// above its floor, retained map sorted, ring buffer within its bound.
    pub open spec fn wf(self) -> bool {
        &&& self.tabs.wf()
        &&& nav_wf(self.navigation@)
        &&& self.retained_messages.wf()
        &&& ring_capacity(self.notifications) == NOTIFICATION_CAPACITY as nat
        &&& ring_items(self.notifications).len() <= NOTIFICATION_CAPACITY
    }

    /// A fresh dashboard: first tab, empty input, empty feeds, default
    /// navigation.
    pub fn new() -> (r: App)
        ensures
            r.wf(),
            r.tabs.index == 0,
            r.subscribe_input@ == Seq::<char>::empty(),
            r.navigation@ == default_path(),
            ring_items(r.notifications) == Seq::<NotificationView>::empty(),
            r.retained_messages@ == Map::<Seq<char>, PublishView>::empty(),
    {
        let app = App {
            tabs: TabsState::default(),
            subscribe_input: Vec::new(),
            notifications: ring_with_capacity(NOTIFICATION_CAPACITY),
            retained_messages: RetainedMap::new(),
            navigation: Navigation::default(),
        };
        proof {
            assert(nav_wf(default_path()));
        }
        app
    }

    /// The notifications of the stream view, in arrival order, oldest
    /// first.
    pub fn recent_notifications(&self) -> (r: Vec<Notification>)
        ensures
            r@.len() == ring_items(self.notifications).len(),
            forall|i: int| 0 <= i < r@.len() ==> r@[i]@ == ring_items(self.notifications)[i],
    {
        ring_to_vec(&self.notifications)
    }

    /// Start in the view a startup mode selects.
    pub fn set_mode(&mut self, mode: &Mode)
        requires
            old(self).wf(),
        ensures
            final(self).wf(),
            final(self).tabs.index == mode_index(*mode),
            final(self).subscribe_input == old(self).subscribe_input,
            final(self).navigation == old(self).navigation,
            final(self).notifications == old(self).notifications,
            final(self).retained_messages == old(self).retained_messages,
    {
        self.tabs.index = mode.tab_index();
    }
}

/// Whether a key stroke asks the whole application to terminate.
pub fn should_quit(key: &KeyEvent) -> (r: bool)
    ensures
        r == (*key == KeyEvent::Ctrl('c')),
{
    match key {
        KeyEvent::Ctrl(c) => *c == 'c',
        _ => false,
    }
}

/// Interpret a key stroke against the focused panel: mutate the state as
/// the panel prescribes and hand back the command to submit, if any.  The
/// feeds (ring buffer and retained map) are never touched by keys.
pub fn handle_input(input: KeyEvent, app: &mut App, registry: &Registry) -> (cmd: Option<Event>)
    requires
        old(app).wf(),
        registry.wf(),
    ensures
        final(app).wf(),
        final(app).ui() == spec_handle_input(old(app).ui(), input, registry@).0,
        cmd_view(cmd) == spec_handle_input(old(app).ui(), input, registry@).1,
        final(app).notifications == old(app).notifications,
        final(app).retained_messages == old(app).retained_messages,
{
    match input {
        KeyEvent::Esc => {
            app.navigation.pop();
            if matches!(app.navigation.parent(), BlockId::Root) {
                app.navigation.push(BlockId::TabNav);
            }
            proof {
                assert(app.ui() =~= spec_handle_input(old(app).ui(), input, registry@).0);
            }
            None
        },
        c => {
            match app.navigation.peek() {
                BlockId::Root => {
                    app.navigation.push(BlockId::SubscriptionsWindow);
                    app.navigation.push(BlockId::TabNav);
                    proof {
                        assert(app.ui() =~= spec_handle_input(old(app).ui(), input, registry@).0);
                    }
                    None
                },
                BlockId::TabNav => {
                    handle_input_on_tabs(c, app);
                    None
                },
                BlockId::SubscribeInput => handle_input_on_subscribe_input(c, app),
                BlockId::SubscriptionsList => {
                    handle_input_on_subscriptions_list(c, app, registry);
                    None
                },
                BlockId::SubscriptionsListItem(index) => handle_input_on_subscriptions_list_item(
                    c,
                    app,
                    registry,
                    index,
                ),
                _ => None,
            }
        },
    }
}

/// What a key does while the tab bar is focused.
pub fn handle_input_on_tabs(c: KeyEvent, app: &mut App)
    requires
        old(app).wf(),
    ensures
        final(app).wf(),
        final(app).ui() == spec_on_tabs(old(app).ui(), c),
        final(app).notifications == old(app).notifications,
        final(app).retained_messages == old(app).retained_messages,
{
    match c {
        KeyEvent::Right => {
            app.tabs.next();
        },
        KeyEvent::Left => {
            app.tabs.previous();
        },
        KeyEvent::Down => {
            app.navigation.modify_top(BlockId::SubscribeInput);
        },
        KeyEvent::Char(ch) => {
            if ch == 'j' {
                app.navigation.modify_top(BlockId::SubscribeInput);
            }
        },
        _ => {},
    }
    proof {
        assert(app.ui() =~= spec_on_tabs(old(app).ui(), c));
    }
}

/// What one notification does to the ring buffer's contents: it is
/// appended, and once the buffer is at capacity the oldest entry leaves.
pub open spec fn ring_step(items: Seq<NotificationView>, n: NotificationView) -> Seq<
    NotificationView,
> {
    if items.len() < NOTIFICATION_CAPACITY {
        items.push(n)
    } else {
        items.drop_first().push(n)
    }
}

/// A batch of notifications fed into the ring buffer one at a time, in
/// arrival order.
pub open spec fn ring_feed(items: Seq<NotificationView>, xs: Seq<NotificationView>) -> Seq<
    NotificationView,
>
    decreases xs.len(),
{
    if xs.len() == 0 {
        items
    } else {
        ring_feed(ring_step(items, xs[0]), xs.skip(1))
    }
}

/// Feed one broker notification into the state: it always enters the ring
/// buffer, overwriting the oldest entry once at capacity, and a publish
/// additionally becomes its topic's retained message.
pub fn on_notification(app: &mut App, notification: Notification)
    requires
        old(app).wf(),
    ensures
        final(app).wf(),
        ring_items(final(app).notifications) == ring_step(
            ring_items(old(app).notifications),
            notification@,
        ),
        final(app).retained_messages@ == match notification@ {
            NotificationView::Publish(p) => old(app).retained_messages@.insert(p.topic, p),
            _ => old(app).retained_messages@,
        },
        final(app).retained_messages.wf(),
        final(app).ui() == old(app).ui(),
        final(app).tabs == old(app).tabs,
{
    match &notification {
        Notification::Publish(msg) => {
            let copy = msg.clone();
            app.retained_messages.upsert(copy);
        },
        _ => {},
    }
    let _ = ring_push(&mut app.notifications, notification);
    proof {
        assert(app.ui() =~= old(app).ui());
    }
}

/// Popping, from any accepted stack, never sinks below the floor: the
/// stack stays at least three deep, and from the default path an escape
/// leads back to the default path itself, so the dashboard always has a
/// focused panel to interpret keys against.
pub proof fn lemma_navigation_floor(u: UiView, reg: Seq<Seq<char>>)
    requires
        nav_wf(u.nav),
    ensures
        nav_wf(spec_handle_input(u, KeyEvent::Esc, reg).0.nav),
        spec_handle_input(u, KeyEvent::Esc, reg).0.nav.len() >= 3,
        u.nav == default_path() ==> spec_handle_input(u, KeyEvent::Esc, reg).0.nav
            == default_path(),
{
    let p = u.nav.drop_last();
    if p.len() < 3 {
        assert(p.len() == 2);
        assert(p.push(BlockId::TabNav)[0] == BlockId::Root);
        assert(nav_wf(p.push(BlockId::TabNav)));
    }
    if u.nav == default_path() {
        assert(spec_pop_floor(u.nav) =~= default_path());
    }
}

/// From a stack focused on `Root`, any key other than escape wakes the
/// dashboard into the default sub-path: the subscriptions window and the
/// tab bar are pushed, the tab bar takes focus, and nothing else changes.
pub proof fn lemma_root_wake(u: UiView, key: KeyEvent, reg: Seq<Seq<char>>)
    requires
        u.nav.len() > 0,
        u.nav.last() == BlockId::Root,
        key != KeyEvent::Esc,
    ensures
        ({
            let (v, cmd) = spec_handle_input(u, key, reg);
            &&& v.nav == u.nav.push(BlockId::SubscriptionsWindow).push(BlockId::TabNav)
            &&& v.nav.last() == BlockId::TabNav
            &&& v.tab == u.tab
            &&& v.input == u.input
            &&& cmd is None
        }),
{
}

/// Feeding any batch of notifications into a ring buffer that is within
/// its bound leaves exactly the newest entries, in arrival order: the last
/// capacity-many of everything the buffer has seen, or everything, when
/// that is less.
pub proof fn lemma_ring_feed(items: Seq<NotificationView>, xs: Seq<NotificationView>)
    requires
        items.len() <= NOTIFICATION_CAPACITY,
    ensures
        ({
            let all = items + xs;
            let cut = if all.len() <= NOTIFICATION_CAPACITY {
                0int
            } else {
                all.len() - NOTIFICATION_CAPACITY
            };
            &&& ring_feed(items, xs) == all.skip(cut)
            &&& ring_feed(items, xs).len() <= NOTIFICATION_CAPACITY
        }),
    decreases xs.len(),
{
    let all = items + xs;
    let cut = if all.len() <= NOTIFICATION_CAPACITY {
        0int
    } else {
        all.len() - NOTIFICATION_CAPACITY
    };
    if xs.len() == 0 {
        assert(all.skip(0) =~= items);
    } else {
        let next = ring_step(items, xs[0]);
        lemma_ring_feed(next, xs.skip(1));
        let rest = next + xs.skip(1);
        if items.len() < NOTIFICATION_CAPACITY {
            assert(rest =~= all);
            assert(ring_feed(items, xs) == all.skip(cut));
        } else {
            assert(rest =~= all.skip(1));
            let inner_cut = if rest.len() <= NOTIFICATION_CAPACITY {
                0int
            } else {
                rest.len() - NOTIFICATION_CAPACITY
            };
            assert(all.skip(1).skip(inner_cut) =~= all.skip(1 + inner_cut));
            assert(1 + inner_cut == cut);
        }
    }
}

/// While a list item is focused and the registry is not empty, moving the
/// cursor keeps the index inside the live registry: it never points past
/// the end, whatever the index was before.
pub proof fn lemma_list_index_clamp(u: UiView, reg: Seq<Seq<char>>, i: usize)
    requires
        nav_wf(u.nav),
        u.nav.last() == BlockId::SubscriptionsListItem(i),
        0 < reg.len() <= usize::MAX,
    ensures
        ({
            let nav_up = spec_handle_input(u, KeyEvent::Up, reg).0.nav;
            let nav_down = spec_handle_input(u, KeyEvent::Down, reg).0.nav;
            &&& exists|j: usize|
                nav_up.last() == BlockId::SubscriptionsListItem(j) && 0 <= j < reg.len()
            &&& exists|j: usize|
                nav_down.last() == BlockId::SubscriptionsListItem(j) && 0 <= j < reg.len()
        }),
{
    let clamped = if i as int > reg.len() - 1 {
        reg.len() - 1
    } else {
        i as int
    };
    let up = if clamped > 0 {
        clamped - 1
    } else {
        0
    };
    let down = if clamped < reg.len() - 1 {
        clamped + 1
    } else {
        clamped
    };
    let nav_up = spec_handle_input(u, KeyEvent::Up, reg).0.nav;
    let nav_down = spec_handle_input(u, KeyEvent::Down, reg).0.nav;
    assert(nav_up.last() == BlockId::SubscriptionsListItem(up as usize));
    assert(nav_down.last() == BlockId::SubscriptionsListItem(down as usize));
    assert(0 <= (up as usize) && (up as usize) < reg.len());
    assert(0 <= (down as usize) && (down as usize) < reg.len());
}

} // verus!
