use syslog_collector::broadcast::{Broadcaster, Delivery};
use syslog_collector::message::Timestamp;
use syslog_collector::parser::parse_with;
use syslog_collector::session::{greeting, on_event, SessionEvent, SessionStep};

#[test]
fn session_opens_with_the_greeting() {
    assert!(matches!(on_event(SessionEvent::Attached), SessionStep::Greet));
    assert_eq!(greeting(), "{\"type\":\"connected\"}");
    assert!(matches!(on_event(SessionEvent::Greeted(true)), SessionStep::Next));
    assert!(matches!(on_event(SessionEvent::Greeted(false)), SessionStep::End));
}

#[test]
fn records_are_delivered_and_failures_end_the_session() {
    let m = parse_with("<13>x", "10.0.0.1", "id-1".to_string(), Timestamp { secs: 0, nanos: 0 });
    assert!(matches!(on_event(SessionEvent::Polled(Delivery::Message(m))), SessionStep::Deliver(d) if d.id == "id-1"));
    assert!(matches!(on_event(SessionEvent::Polled(Delivery::Empty)), SessionStep::Next));
    assert!(matches!(on_event(SessionEvent::Polled(Delivery::Lagged(3))), SessionStep::Next));
    assert!(matches!(on_event(SessionEvent::Polled(Delivery::Closed)), SessionStep::End));
    assert!(matches!(on_event(SessionEvent::Unsendable), SessionStep::Next));
    assert!(matches!(on_event(SessionEvent::Sent(true)), SessionStep::Next));
    assert!(matches!(on_event(SessionEvent::Sent(false)), SessionStep::End));
}

#[test]
fn the_consumer_may_leave() {
    assert!(matches!(on_event(SessionEvent::Left), SessionStep::End));
    assert!(matches!(on_event(SessionEvent::Heard), SessionStep::Next));
}

#[test]
fn a_consumer_that_fell_behind_goes_on_with_what_is_left() {
    let mut b = Broadcaster::new(2);
    let id = b.subscribe();
    for n in 0..5 {
        b.publish(parse_with("<13>x", "10.0.0.1", format!("id-{}", n), Timestamp { secs: 0, nanos: 0 }));
    }
    let mut got = Vec::new();
    let mut step = on_event(SessionEvent::Greeted(true));
    loop {
        step = match step {
            SessionStep::Next => match b.poll(id) {
                Delivery::Empty => break,
                d => on_event(SessionEvent::Polled(d)),
            },
            SessionStep::Deliver(m) => {
                got.push(m.id);
                on_event(SessionEvent::Sent(true))
            }
            SessionStep::Greet => on_event(SessionEvent::Greeted(true)),
            SessionStep::End => panic!("the session ended"),
        };
    }
    assert_eq!(got, vec!["id-3", "id-4"]);
}
