//! Events delivered by the broker client.

use vstd::prelude::*;

verus! {

/// Mathematical value of a publish message: its topic and payload.
pub struct PublishView {
    pub topic: Seq<char>,
    pub payload: Seq<u8>,
}

/// A message published on a topic, as the broker client hands it over.
pub struct Publish {
    pub topic: String,
    pub payload: Vec<u8>,
}

impl View for Publish {
    type V = PublishView;

    open spec fn view(&self) -> PublishView {
        PublishView { topic: self.topic@, payload: self.payload@ }
    }
}

impl Clone for Publish {
    fn clone(&self) -> (r: Self)
        ensures
            r@ == self@,
    {
        let payload = self.payload.clone();
        proof {
            assert(payload@ =~= self.payload@);
        }
        Publish { topic: self.topic.clone(), payload }
    }
}

/// Mathematical value of a notification.
pub enum NotificationView {
    Publish(PublishView),
    Disconnected,
    Reconnected,
    Lifecycle(Seq<char>),
}

/// An event delivered from the broker client: a published message, a
/// connection loss or recovery, or any other broker lifecycle event,
/// carried as its description and shown for display purposes only.
pub enum Notification {
    Publish(Publish),
    Disconnected,
    Reconnected,
    Lifecycle(String),
}

impl View for Notification {
    type V = NotificationView;

    open spec fn view(&self) -> NotificationView {
        match self {
            Notification::Publish(p) => NotificationView::Publish(p@),
            Notification::Disconnected => NotificationView::Disconnected,
            Notification::Reconnected => NotificationView::Reconnected,
            Notification::Lifecycle(d) => NotificationView::Lifecycle(d@),
        }
    }
}

impl Clone for Notification {
    fn clone(&self) -> (r: Self)
        ensures
            r@ == self@,
    {
        match self {
            Notification::Publish(p) => Notification::Publish(p.clone()),
            Notification::Disconnected => Notification::Disconnected,
            Notification::Reconnected => Notification::Reconnected,
            Notification::Lifecycle(d) => Notification::Lifecycle(d.clone()),
        }
    }
}

} // verus!
