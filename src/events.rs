use vstd::prelude::*;

verus! {

/// A notification pushed to the live subscribers of one account.
#[derive(Debug, Clone, PartialEq, Eq)]
pub enum Event {
    MessageReceived(String),
    FriendRequest(String),
    FriendRequestAccepted(String),
}

/// What an event says, in the terms of the contracts.
pub enum EventView {
    MessageReceived(Seq<char>),
    FriendRequest(Seq<char>),
    FriendRequestAccepted(Seq<char>),
}

impl View for Event {
    type V = EventView;

    open spec fn view(&self) -> EventView {
        match self {
            Event::MessageReceived(t) => EventView::MessageReceived(t@),
            Event::FriendRequest(t) => EventView::FriendRequest(t@),
            Event::FriendRequestAccepted(t) => EventView::FriendRequestAccepted(t@),
        }
    }
}

#[verifier::external_type_specification]
#[verifier::external_body]
#[verifier::reject_recursive_types(T)]
pub struct ExSender<T>(tokio::sync::broadcast::Sender<T>);

#[verifier::external_type_specification]
#[verifier::external_body]
#[verifier::reject_recursive_types(T)]
pub struct ExReceiver<T>(tokio::sync::broadcast::Receiver<T>);

/// How many events a subscriber may fall behind before it skips ahead.
pub const CHANNEL_CAPACITY: usize = 1024;

/// Relies on `tokio::sync::broadcast::Sender::new`: a channel with no
/// subscriber yet. It panics for a capacity of zero or above `usize::MAX / 2`,
/// which `requires` leaves out.
#[verifier::external_body]
pub(crate) fn new_channel(capacity: usize) -> (r: tokio::sync::broadcast::Sender<Event>)
    requires
        0 < capacity <= usize::MAX / 2,
{
    tokio::sync::broadcast::Sender::new(capacity)
}

/// Relies on `tokio::sync::broadcast::Sender::subscribe`: a receiver of every
/// event sent from now on.
#[verifier::external_body]
pub(crate) fn subscribe_to(sender: &tokio::sync::broadcast::Sender<Event>) -> (r:
    tokio::sync::broadcast::Receiver<Event>) {
    sender.subscribe()
}

/// Relies on `tokio::sync::broadcast::Sender::send`: the event goes to every
/// live receiver, and is dropped where there is none. It never blocks.
#[verifier::external_body]
pub(crate) fn send_event(sender: &tokio::sync::broadcast::Sender<Event>, event: Event) {
    let _ = sender.send(event);
}

} // verus!
