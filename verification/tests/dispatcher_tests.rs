use homestar_runtime::dispatcher::DispatcherAction;
use homestar_runtime::dispatcher::LoopDirective;
use homestar_runtime::dispatcher::SinkSendOutcome;
use homestar_runtime::dispatcher::SubscriptionEvent;
use homestar_runtime::dispatcher::WorkflowListeners;
use homestar_runtime::dispatcher::event_send_outcome;
use homestar_runtime::dispatcher::event_step;
use homestar_runtime::dispatcher::workflow_send_outcome;
use homestar_runtime::dispatcher::workflow_step;
use homestar_runtime::notifier::Header;
use homestar_runtime::notifier::Message;
use homestar_runtime::notifier::SubscriptionTyp;
use homestar_runtime::workflow::Cid;

fn cid(n: u8) -> Cid {
    Cid { bytes: vec![n, n, n] }
}

fn workflow_message(n: u8, ident: Option<&str>, payload: &[u8]) -> Message {
    Message {
        header: Header {
            subscription: SubscriptionTyp::Cid(cid(n)),
            ident: ident.map(String::from),
        },
        payload: payload.to_vec(),
    }
}

fn event_message(class: &str, payload: &[u8]) -> Message {
    Message {
        header: Header {
            subscription: SubscriptionTyp::EventSub(String::from(class)),
            ident: None,
        },
        payload: payload.to_vec(),
    }
}

#[test]
fn workflow_filter_delivers_to_matching_subscription_only() {
    let mut listeners = WorkflowListeners::new();
    listeners.insert(1, cid(10), String::from("wf-a"));
    listeners.insert(2, cid(20), String::from("wf-b"));

    let to_a = workflow_message(10, None, b"payload-a");
    let action_a = workflow_step(&mut listeners, 1, SubscriptionEvent::Received(to_a));
    assert_eq!(action_a, DispatcherAction::Forward(b"payload-a".to_vec()));

    let to_a_again = workflow_message(10, None, b"payload-a");
    let action_b = workflow_step(&mut listeners, 2, SubscriptionEvent::Received(to_a_again));
    assert_eq!(action_b, DispatcherAction::Skip);
}

#[test]
fn workflow_filter_honours_run_name() {
    let mut listeners = WorkflowListeners::new();
    listeners.insert(7, cid(10), String::from("wf-a"));

    let named_right = workflow_message(10, Some("wf-a"), b"x");
    assert_eq!(
        workflow_step(&mut listeners, 7, SubscriptionEvent::Received(named_right)),
        DispatcherAction::Forward(b"x".to_vec())
    );

    let named_wrong = workflow_message(10, Some("wf-z"), b"x");
    assert_eq!(
        workflow_step(&mut listeners, 7, SubscriptionEvent::Received(named_wrong)),
        DispatcherAction::Skip
    );
}

#[test]
fn workflow_event_class_messages_are_discarded() {
    let mut listeners = WorkflowListeners::new();
    listeners.insert(7, cid(10), String::from("wf-a"));

    let evt = event_message("subscribe_network_events", b"x");
    assert_eq!(
        workflow_step(&mut listeners, 7, SubscriptionEvent::Received(evt)),
        DispatcherAction::Skip
    );
}

#[test]
fn workflow_unregistered_subscription_gets_nothing() {
    let mut listeners = WorkflowListeners::new();
    let msg = workflow_message(10, None, b"x");
    assert_eq!(
        workflow_step(&mut listeners, 99, SubscriptionEvent::Received(msg)),
        DispatcherAction::Skip
    );
}

#[test]
fn workflow_sink_close_removes_record() {
    let mut listeners = WorkflowListeners::new();
    listeners.insert(1, cid(10), String::from("wf-a"));
    assert!(listeners.contains(1));

    let action = workflow_step(&mut listeners, 1, SubscriptionEvent::SinkClosed);
    assert_eq!(action, DispatcherAction::FinishOk);
    assert!(!listeners.contains(1));
}

#[test]
fn workflow_lag_removes_record_and_errors() {
    let mut listeners = WorkflowListeners::new();
    listeners.insert(1, cid(10), String::from("wf-a"));

    let action = workflow_step(&mut listeners, 1, SubscriptionEvent::Lagged);
    assert_eq!(action, DispatcherAction::FinishErr);
    assert!(!listeners.contains(1));
}

#[test]
fn workflow_stream_end_removes_record() {
    let mut listeners = WorkflowListeners::new();
    listeners.insert(1, cid(10), String::from("wf-a"));

    let action = workflow_step(&mut listeners, 1, SubscriptionEvent::StreamEnded);
    assert_eq!(action, DispatcherAction::FinishOk);
    assert!(!listeners.contains(1));
}

#[test]
fn workflow_full_sink_drops_message_but_subscription_survives() {
    let mut listeners = WorkflowListeners::new();
    listeners.insert(1, cid(10), String::from("wf-a"));

    for _ in 0..3 {
        let msg = workflow_message(10, None, b"dropped");
        assert_eq!(
            workflow_step(&mut listeners, 1, SubscriptionEvent::Received(msg)),
            DispatcherAction::Forward(b"dropped".to_vec())
        );
        let directive = workflow_send_outcome(&mut listeners, 1, SinkSendOutcome::Full);
        assert_eq!(directive, LoopDirective::KeepGoing);
        assert!(listeners.contains(1));
    }

    let msg = workflow_message(10, None, b"delivered");
    assert_eq!(
        workflow_step(&mut listeners, 1, SubscriptionEvent::Received(msg)),
        DispatcherAction::Forward(b"delivered".to_vec())
    );
    assert_eq!(
        workflow_send_outcome(&mut listeners, 1, SinkSendOutcome::Sent),
        LoopDirective::KeepGoing
    );
    assert!(listeners.contains(1));
}

#[test]
fn workflow_closed_sink_on_send_removes_record() {
    let mut listeners = WorkflowListeners::new();
    listeners.insert(1, cid(10), String::from("wf-a"));

    let directive = workflow_send_outcome(&mut listeners, 1, SinkSendOutcome::Closed);
    assert_eq!(directive, LoopDirective::StopErr);
    assert!(!listeners.contains(1));
}

#[test]
fn event_filter_delivers_matching_class_only() {
    let class = String::from("subscribe_network_events");

    let matching = event_message("subscribe_network_events", b"evt");
    assert_eq!(
        event_step(&class, SubscriptionEvent::Received(matching)),
        DispatcherAction::Forward(b"evt".to_vec())
    );

    let other = event_message("another_class", b"evt");
    assert_eq!(
        event_step(&class, SubscriptionEvent::Received(other)),
        DispatcherAction::Skip
    );

    let workflow_msg = workflow_message(10, None, b"evt");
    assert_eq!(
        event_step(&class, SubscriptionEvent::Received(workflow_msg)),
        DispatcherAction::Skip
    );
}

#[test]
fn event_lifecycle_actions() {
    let class = String::from("subscribe_network_events");
    assert_eq!(event_step(&class, SubscriptionEvent::SinkClosed), DispatcherAction::FinishOk);
    assert_eq!(event_step(&class, SubscriptionEvent::StreamEnded), DispatcherAction::FinishOk);
    assert_eq!(event_step(&class, SubscriptionEvent::Lagged), DispatcherAction::FinishErr);
    assert_eq!(event_send_outcome(SinkSendOutcome::Sent), LoopDirective::KeepGoing);
    assert_eq!(event_send_outcome(SinkSendOutcome::Full), LoopDirective::KeepGoing);
    assert_eq!(event_send_outcome(SinkSendOutcome::Closed), LoopDirective::StopErr);
}
