//! The notification that wakes the event loop when a client adds a request
//! or asks to disconnect.
use vstd::prelude::*;

verus! {

/// What the event loop is told.
#[derive(Debug, Clone, Copy, PartialEq, Eq, Structural)]
pub enum RequestNotification {
    NewRequest,
    Disconnect,
}

/// The notification stored after `notification` arrives where `stored`
/// was: a disconnect is never overwritten.
pub open spec fn notify_spec(stored: Option<RequestNotification>, notification: RequestNotification) -> Option<RequestNotification> {
    match stored {
        Some(RequestNotification::Disconnect) => Some(RequestNotification::Disconnect),
        _ => Some(notification),
    }
}

/// What the event loop takes from `stored` (`None`: nothing yet, it waits)
/// and what is stored after: a disconnect stays, another notification is
/// consumed.
pub open spec fn take_spec(stored: Option<RequestNotification>) -> (Option<RequestNotification>, Option<RequestNotification>) {
    match stored {
        Some(RequestNotification::Disconnect) => (Some(RequestNotification::Disconnect), stored),
        Some(other) => (Some(other), None),
        None => (None, None),
    }
}

/// The pending notification of the event loop.
pub struct RequestState {
    notification: Option<RequestNotification>,
}

impl View for RequestState {
    type V = Option<RequestNotification>;

    closed spec fn view(&self) -> Option<RequestNotification> {
        self.notification
    }
}

impl RequestState {
    pub fn new() -> (s: Self)
        ensures
            s@ is None,
    {
        RequestState { notification: None }
    }

    /// Takes the pending notification, if any; see `take_spec`.
    pub fn next_notification(&mut self) -> (r: Option<RequestNotification>)
        ensures
            (r, final(self)@) == take_spec(old(self)@),
    {
        match self.notification {
            Some(RequestNotification::Disconnect) => Some(RequestNotification::Disconnect),
            Some(other) => {
                self.notification = None;
                Some(other)
            },
            None => None,
        }
    }

    /// Stores a notification; see `notify_spec`.
    pub fn notify(&mut self, notification: RequestNotification)
        ensures
            final(self)@ == notify_spec(old(self)@, notification),
    {
        self.notification = match self.notification {
            Some(RequestNotification::Disconnect) => Some(RequestNotification::Disconnect),
            _ => Some(notification),
        };
    }

    pub fn notify_new_request(&mut self)
        ensures
            final(self)@ == notify_spec(old(self)@, RequestNotification::NewRequest),
    {
        self.notify(RequestNotification::NewRequest);
    }

    pub fn notify_disconnect(&mut self)
        ensures
            final(self)@ == notify_spec(old(self)@, RequestNotification::Disconnect),
    {
        self.notify(RequestNotification::Disconnect);
    }
}

/// A disconnect is final: once notified, whatever is notified after it, it
/// is what the event loop takes, every time.
pub proof fn lemma_disconnect_sticks(stored: Option<RequestNotification>, later: Seq<RequestNotification>)
    ensures
        ({
            let s = notify_spec(stored, RequestNotification::Disconnect);
            let t = later.fold_left(s, |acc: Option<RequestNotification>, n: RequestNotification| notify_spec(acc, n));
            &&& t == Some(RequestNotification::Disconnect)
            &&& take_spec(t) == (Some(RequestNotification::Disconnect), t)
        }),
    decreases later.len(),
{
    let s = notify_spec(stored, RequestNotification::Disconnect);
    let f = |acc: Option<RequestNotification>, n: RequestNotification| notify_spec(acc, n);
    if later.len() > 0 {
        lemma_disconnect_sticks(stored, later.drop_last());
        assert(later.fold_left(s, f) == f(later.drop_last().fold_left(s, f), later.last()));
    }
}

/// Notifications of new requests do not pile up: however many arrived, the
/// event loop takes one and then waits.
pub proof fn lemma_new_requests_coalesce(n: nat)
    requires
        n >= 1,
    ensures
        ({
            let t = Seq::new(n, |i: int| RequestNotification::NewRequest).fold_left(
                None::<RequestNotification>,
                |acc: Option<RequestNotification>, x: RequestNotification| notify_spec(acc, x),
            );
            &&& take_spec(t) == (Some(RequestNotification::NewRequest), None::<RequestNotification>)
            &&& take_spec(take_spec(t).1).0 is None
        }),
    decreases n,
{
    let f = |acc: Option<RequestNotification>, x: RequestNotification| notify_spec(acc, x);
    let s = Seq::new(n, |i: int| RequestNotification::NewRequest);
    if n > 1 {
        lemma_new_requests_coalesce((n - 1) as nat);
        assert(s.drop_last() =~= Seq::new((n - 1) as nat, |i: int| RequestNotification::NewRequest));
    } else {
        assert(s.drop_last() =~= Seq::<RequestNotification>::empty());
    }
    assert(s.fold_left(None, f) == f(s.drop_last().fold_left(None, f), s.last()));
}

} // verus!
