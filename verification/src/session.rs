//! A subscriber's session: what to do next for a live consumer, given what
//! just happened. The session lasts until the consumer leaves or cannot be
//! reached. A consumer that fell behind has lost its oldest unread records and
//! goes on with the ones that are left.

use vstd::prelude::*;
use crate::broadcast::Delivery;
use crate::message::{MessageView, SyslogMessage};

verus! {

/// What just happened in a session.
#[derive(Debug)]
pub enum SessionEvent {
    /// The consumer attached.
    Attached,
    /// The greeting was sent, or could not be.
    Greeted(bool),
    /// The broadcaster answered a request for the next record.
    Polled(Delivery),
    /// A record could not be put into the form in which it is sent.
    Unsendable,
    /// A record was sent, or could not be.
    Sent(bool),
    /// The consumer said that it is leaving, or the connection failed.
    Left,
    /// The consumer sent something that calls for no answer.
    Heard,
}

/// What to do next in a session.
#[derive(Debug)]
pub enum SessionStep {
    /// Send the greeting.
    Greet,
    /// Ask the broadcaster for the next record, waiting if there is none.
    Next,
    /// Encode this record and send it.
    Deliver(SyslogMessage),
    /// End the session and detach.
    End,
}

/// A step, its record as mathematics.
pub enum SessionStepView {
    Greet,
    Next,
    Deliver(MessageView),
    End,
}

impl View for SessionStep {
    type V = SessionStepView;

    open spec fn view(&self) -> SessionStepView {
        match self {
            SessionStep::Greet => SessionStepView::Greet,
            SessionStep::Next => SessionStepView::Next,
            SessionStep::Deliver(m) => SessionStepView::Deliver(m@),
            SessionStep::End => SessionStepView::End,
        }
    }
}

/// What an event calls for. A record that cannot be encoded is passed over; a
/// record that cannot be sent ends the session. Word that records were lost
/// does not: the next request gives the oldest record that is left.
pub open spec fn step_for(event: SessionEvent) -> SessionStepView {
    match event {
        SessionEvent::Attached => SessionStepView::Greet,
        SessionEvent::Greeted(sent) => if sent {
            SessionStepView::Next
        } else {
            SessionStepView::End
        },
        SessionEvent::Polled(d) => match d {
            Delivery::Message(m) => SessionStepView::Deliver(m@),
            Delivery::Empty => SessionStepView::Next,
            Delivery::Lagged(_) => SessionStepView::Next,
            Delivery::Closed => SessionStepView::End,
        },
        SessionEvent::Unsendable => SessionStepView::Next,
        SessionEvent::Sent(done) => if done {
            SessionStepView::Next
        } else {
            SessionStepView::End
        },
        SessionEvent::Left => SessionStepView::End,
        SessionEvent::Heard => SessionStepView::Next,
    }
}

/// Decides what to do next in a session.
pub fn on_event(event: SessionEvent) -> (step: SessionStep)
    ensures
        step@ == step_for(event),
{
    match event {
        SessionEvent::Attached => SessionStep::Greet,
        SessionEvent::Greeted(sent) => {
            if sent {
                SessionStep::Next
            } else {
                SessionStep::End
            }
        },
        SessionEvent::Polled(d) => match d {
            Delivery::Message(m) => SessionStep::Deliver(m),
            Delivery::Empty => SessionStep::Next,
            Delivery::Lagged(_) => SessionStep::Next,
            Delivery::Closed => SessionStep::End,
        },
        SessionEvent::Unsendable => SessionStep::Next,
        SessionEvent::Sent(done) => {
            if done {
                SessionStep::Next
            } else {
                SessionStep::End
            }
        },
        SessionEvent::Left => SessionStep::End,
        SessionEvent::Heard => SessionStep::Next,
    }
}

/// The greeting that a consumer gets when it attaches.
pub fn greeting() -> (g: String)
    ensures
        g@ == "{\"type\":\"connected\"}"@,
{
    "{\"type\":\"connected\"}".to_owned()
}

} // verus!
