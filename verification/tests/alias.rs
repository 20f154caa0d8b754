use atm0s_sdn_network::alias::{
    AliasFeature, AliasFeatureWorker, Control, Event, FeatureInput, FoundLocation, HintSlot, Message, Output, ToWorker,
    HINT_TIMEOUT_MS, SCAN_TIMEOUT_MS,
};
use atm0s_sdn_network::base::{RouteRule, WorkerInput, WorkerOutput};
use atm0s_sdn_network::types::{FeatureControlActor, ServiceBroadcastLevel};

fn decode_msg(msg: Option<Output>) -> Option<(RouteRule, Message)> {
    match msg? {
        Output::SendRoute(rule, msg) => Some((rule, msg)),
        _ => panic!("Should be SendRoute"),
    }
}

#[test]
fn local_alias_simple() {
    let mut alias = AliasFeature::default();
    let service = 1;
    let level = ServiceBroadcastLevel::Global;
    alias.on_input(0, FeatureInput::Control(FeatureControlActor::Controller, Control::Register { alias: 1000, service, level }));
    assert_eq!(decode_msg(alias.pop_output()), Some((RouteRule::ToServices(service, level, 0), Message::Notify(1000))));
    assert_eq!(alias.pop_output(), None);

    alias.on_input(0, FeatureInput::Control(FeatureControlActor::Controller, Control::Query { alias: 1000, service, level }));
    assert_eq!(
        alias.pop_output(),
        Some(Output::Event(FeatureControlActor::Controller, Event::QueryResult(1000, Some(FoundLocation::Local))))
    );
    assert_eq!(alias.pop_output(), None);
}

#[test]
fn local_alias_handle_check() {
    let mut alias = AliasFeature::default();
    let service = 1;
    let level = ServiceBroadcastLevel::Global;
    alias.on_input(0, FeatureInput::Control(FeatureControlActor::Controller, Control::Register { alias: 1000, service, level }));
    assert_eq!(decode_msg(alias.pop_output()), Some((RouteRule::ToServices(service, level, 0), Message::Notify(1000))));
    assert_eq!(alias.pop_output(), None);

    alias.process_remote(0, 123, Message::Check(1000));
    assert_eq!(decode_msg(alias.pop_output()), Some((RouteRule::ToNode(123), Message::Found(1000, true))));
    assert_eq!(alias.pop_output(), None);

    alias.process_remote(0, 123, Message::Check(1001));
    assert_eq!(decode_msg(alias.pop_output()), Some((RouteRule::ToNode(123), Message::Found(1001, false))));
    assert_eq!(alias.pop_output(), None);
}

#[test]
fn local_alias_handle_scan() {
    let mut alias = AliasFeature::default();
    let service = 1;
    let level = ServiceBroadcastLevel::Global;
    alias.on_input(0, FeatureInput::Control(FeatureControlActor::Controller, Control::Register { alias: 1000, service, level }));
    assert_eq!(decode_msg(alias.pop_output()), Some((RouteRule::ToServices(service, level, 0), Message::Notify(1000))));
    assert_eq!(alias.pop_output(), None);

    alias.process_remote(0, 123, Message::Scan(1000));
    assert_eq!(decode_msg(alias.pop_output()), Some((RouteRule::ToNode(123), Message::Found(1000, true))));
    assert_eq!(alias.pop_output(), None);

    alias.process_remote(0, 123, Message::Scan(1001));
    assert_eq!(alias.pop_output(), None);
}

#[test]
fn found_cached_hint() {
    let mut alias = AliasFeature::default();
    let service = 1;
    let level = ServiceBroadcastLevel::Global;

    alias.set_hint(1000, HintSlot { node: 123, ts: 0 });

    alias.on_input(HINT_TIMEOUT_MS, FeatureInput::Control(FeatureControlActor::Controller, Control::Query { alias: 1000, service, level }));

    assert_eq!(
        alias.pop_output(),
        Some(Output::Event(FeatureControlActor::Controller, Event::QueryResult(1000, Some(FoundLocation::CachedHint(123)))))
    );
    assert_eq!(alias.pop_output(), None);
}

#[test]
fn found_remote_with_hint() {
    let mut alias = AliasFeature::default();
    let service = 1;
    let level = ServiceBroadcastLevel::Global;

    alias.set_hint(1000, HintSlot { node: 123, ts: 0 });

    alias.on_input(10000, FeatureInput::Control(FeatureControlActor::Controller, Control::Query { alias: 1000, service, level }));
    assert_eq!(decode_msg(alias.pop_output()), Some((RouteRule::ToNode(123), Message::Check(1000))));
    assert_eq!(alias.pop_output(), None);

    //simulate remote found
    alias.process_remote(10100, 123, Message::Found(1000, true));

    assert_eq!(
        alias.pop_output(),
        Some(Output::Event(FeatureControlActor::Controller, Event::QueryResult(1000, Some(FoundLocation::RemoteHint(123)))))
    );
    assert_eq!(alias.pop_output(), None);
}

#[test]
fn found_remote_with_scan() {
    let mut alias = AliasFeature::default();
    let service = 1;
    let level = ServiceBroadcastLevel::Global;

    alias.on_input(0, FeatureInput::Control(FeatureControlActor::Controller, Control::Query { alias: 1000, service, level }));
    assert_eq!(decode_msg(alias.pop_output()), Some((RouteRule::ToServices(service, level, 0), Message::Scan(1000))));
    assert_eq!(alias.pop_output(), None);

    //simulate scan found
    alias.process_remote(100, 123, Message::Found(1000, true));

    assert_eq!(
        alias.pop_output(),
        Some(Output::Event(FeatureControlActor::Controller, Event::QueryResult(1000, Some(FoundLocation::RemoteScan(123)))))
    );
    assert_eq!(alias.pop_output(), None);
}

#[test]
fn found_remote_with_hint_then_scan_fallback() {
    let mut alias = AliasFeature::default();
    let service = 1;
    let level = ServiceBroadcastLevel::Global;

    alias.set_hint(1000, HintSlot { node: 122, ts: 0 });

    alias.on_input(10000, FeatureInput::Control(FeatureControlActor::Controller, Control::Query { alias: 1000, service, level }));
    assert_eq!(decode_msg(alias.pop_output()), Some((RouteRule::ToNode(122), Message::Check(1000))));
    assert_eq!(alias.pop_output(), None);

    //simulate remote not found
    alias.process_remote(10100, 122, Message::Found(1000, false));

    // will fallback to scan
    assert_eq!(decode_msg(alias.pop_output()), Some((RouteRule::ToServices(service, level, 0), Message::Scan(1000))));
    assert_eq!(alias.pop_output(), None);

    //simulate scan found
    alias.process_remote(10100, 123, Message::Found(1000, true));

    assert_eq!(
        alias.pop_output(),
        Some(Output::Event(FeatureControlActor::Controller, Event::QueryResult(1000, Some(FoundLocation::RemoteScan(123)))))
    );
    assert_eq!(alias.pop_output(), None);
}

#[test]
fn found_remote_with_hint_timeout_then_scan_fallback() {
    let mut alias = AliasFeature::default();
    let service = 1;
    let level = ServiceBroadcastLevel::Global;

    alias.set_hint(1000, HintSlot { node: 122, ts: 0 });

    alias.on_input(10000, FeatureInput::Control(FeatureControlActor::Controller, Control::Query { alias: 1000, service, level }));
    assert_eq!(decode_msg(alias.pop_output()), Some((RouteRule::ToNode(122), Message::Check(1000))));
    assert_eq!(alias.pop_output(), None);

    //simulate remote not found
    alias.on_tick(10000 + HINT_TIMEOUT_MS);

    // will fallback to scan
    assert_eq!(decode_msg(alias.pop_output()), Some((RouteRule::ToServices(service, level, 0), Message::Scan(1000))));
    assert_eq!(alias.pop_output(), None);

    //simulate scan found
    alias.process_remote(10100 + HINT_TIMEOUT_MS, 123, Message::Found(1000, true));

    assert_eq!(
        alias.pop_output(),
        Some(Output::Event(FeatureControlActor::Controller, Event::QueryResult(1000, Some(FoundLocation::RemoteScan(123)))))
    );
    assert_eq!(alias.pop_output(), None);

    //after that hint should be saved
    assert_eq!(alias.hint(1000), Some(HintSlot { node: 123, ts: 10100 + HINT_TIMEOUT_MS }));
}

#[test]
fn timeout_both_hint_and_scan() {
    let mut alias = AliasFeature::default();
    let service = 1;
    let level = ServiceBroadcastLevel::Global;

    alias.set_hint(1000, HintSlot { node: 122, ts: 0 });

    alias.on_input(10000, FeatureInput::Control(FeatureControlActor::Controller, Control::Query { alias: 1000, service, level }));
    assert_eq!(decode_msg(alias.pop_output()), Some((RouteRule::ToNode(122), Message::Check(1000))));
    assert_eq!(alias.pop_output(), None);

    //simulate remote not found
    alias.on_tick(10000 + HINT_TIMEOUT_MS);

    // will fallback to scan
    assert_eq!(decode_msg(alias.pop_output()), Some((RouteRule::ToServices(service, level, 0), Message::Scan(1000))));
    assert_eq!(alias.pop_output(), None);

    //simulate scan found
    alias.on_tick(10000 + HINT_TIMEOUT_MS + SCAN_TIMEOUT_MS);

    assert_eq!(alias.pop_output(), Some(Output::Event(FeatureControlActor::Controller, Event::QueryResult(1000, None))));
    assert_eq!(alias.pop_output(), None);
}

#[test]
fn handle_notify_from_remote() {
    let mut alias = AliasFeature::default();
    alias.process_remote(100, 123, Message::Notify(1000));
    assert_eq!(alias.hint(1000), Some(HintSlot { node: 123, ts: 100 }));
}

#[test]
fn alias_unregister_then_query_scans() {
    let mut alias = AliasFeature::new();
    let level = ServiceBroadcastLevel::Global;
    alias.on_input(0, FeatureInput::Control(FeatureControlActor::Controller, Control::Register { alias: 7, service: 2, level }));
    alias.on_input(0, FeatureInput::Control(FeatureControlActor::Controller, Control::Unregister { alias: 7 }));
    assert_eq!(decode_msg(alias.pop_output()), Some((RouteRule::ToServices(2, level, 0), Message::Notify(7))));
    alias.on_input(1, FeatureInput::Control(FeatureControlActor::Worker(3), Control::Query { alias: 7, service: 2, level }));
    assert_eq!(decode_msg(alias.pop_output()), Some((RouteRule::ToServices(2, level, 1), Message::Scan(7))));
    assert_eq!(alias.pop_output(), None);
}

#[test]
fn alias_second_query_waits_with_first() {
    let mut alias = AliasFeature::new();
    let level = ServiceBroadcastLevel::Global;
    alias.on_input(0, FeatureInput::Control(FeatureControlActor::Worker(1), Control::Query { alias: 5, service: 2, level }));
    assert_eq!(decode_msg(alias.pop_output()), Some((RouteRule::ToServices(2, level, 0), Message::Scan(5))));
    alias.on_input(1, FeatureInput::Control(FeatureControlActor::Worker(2), Control::Query { alias: 5, service: 2, level }));
    assert_eq!(alias.pop_output(), None);
    alias.on_input(2, FeatureInput::Net(true, Some(44), Message::Notify(5)));
    assert_eq!(alias.pop_output(), Some(Output::Event(FeatureControlActor::Worker(1), Event::QueryResult(5, Some(FoundLocation::Notify(44))))));
    assert_eq!(alias.pop_output(), Some(Output::Event(FeatureControlActor::Worker(2), Event::QueryResult(5, Some(FoundLocation::Notify(44))))));
    assert_eq!(alias.pop_output(), None);
    assert_eq!(alias.hint(5), Some(HintSlot { node: 44, ts: 2 }));
}

#[test]
fn alias_rejects_unsecure_or_anonymous_message() {
    let mut alias = AliasFeature::new();
    alias.on_input(0, FeatureInput::Net(false, Some(44), Message::Notify(5)));
    alias.on_input(0, FeatureInput::Local(true, None, Message::Notify(5)));
    assert_eq!(alias.hint(5), None);
    alias.on_input(0, FeatureInput::Local(true, Some(9), Message::Check(5)));
    assert_eq!(decode_msg(alias.pop_output()), Some((RouteRule::ToNode(9), Message::Found(5, false))));
}

#[test]
fn alias_wrong_hint_reply_and_scan_miss_are_ignored() {
    let mut alias = AliasFeature::new();
    let level = ServiceBroadcastLevel::Global;
    alias.set_hint(8, HintSlot { node: 10, ts: 0 });
    alias.on_input(5000, FeatureInput::Control(FeatureControlActor::Controller, Control::Query { alias: 8, service: 1, level }));
    assert_eq!(decode_msg(alias.pop_output()), Some((RouteRule::ToNode(10), Message::Check(8))));
    alias.process_remote(5001, 11, Message::Found(8, false));
    assert_eq!(alias.pop_output(), None);
    alias.on_tick(5000 + HINT_TIMEOUT_MS - 1);
    assert_eq!(alias.pop_output(), None);
    alias.process_remote(5002, 10, Message::Found(8, false));
    assert_eq!(decode_msg(alias.pop_output()), Some((RouteRule::ToServices(1, level, 0), Message::Scan(8))));
    alias.process_remote(5003, 12, Message::Found(8, false));
    assert_eq!(alias.pop_output(), None);
}

#[test]
fn alias_worker_forwards_to_controller() {
    let mut w = AliasFeatureWorker::default();
    w.on_input(WorkerInput::Control(FeatureControlActor::Worker(1), Control::Unregister { alias: 3 }));
    w.on_input(WorkerInput::FromController(ToWorker));
    match w.pop_output() {
        Some(WorkerOutput::ForwardControlToController(a, c)) => {
            assert_eq!(a, FeatureControlActor::Worker(1));
            assert_eq!(c, Control::Unregister { alias: 3 });
        },
        _ => panic!("expected a forwarded control"),
    }
    assert!(w.pop_output().is_none());
}
