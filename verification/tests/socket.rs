use atm0s_sdn_network::socket::{
    embed_meta, extract_meta, Control, Event, FeatureInput, Incoming, Output, SocketFeature, SocketFeatureWorker, ToWorker, WorkerInput, WorkerOutput,
};
use atm0s_sdn_network::types::{FeatureControlActor, RouteRule};

#[test]
fn embed_then_extract_gives_ports_and_payload() {
    let buf = embed_meta(0x0102, 0x0304, &vec![9, 8]);
    assert_eq!(buf, vec![1, 2, 3, 4, 9, 8]);
    assert_eq!(extract_meta(&buf), Some((0x0102, 0x0304, vec![9, 8])));
    assert_eq!(extract_meta(&vec![1, 2, 3]), None);
}

#[test]
fn socket_bind_connect_send_unbind() {
    let a = FeatureControlActor::Worker(1);
    let mut s = SocketFeature::new();
    s.on_input(1, FeatureInput::Control(a, Control::Bind(10)));
    assert_eq!(s.pop_output(), Some(Output::ToWorker(true, ToWorker::BindSocket(10, a))));
    s.on_input(1, FeatureInput::Control(FeatureControlActor::Controller, Control::Bind(10)));
    assert_eq!(s.pop_output(), None);

    s.on_input(1, FeatureInput::Control(FeatureControlActor::Controller, Control::Connect(10, 2, 20)));
    assert_eq!(s.pop_output(), None);
    s.on_input(1, FeatureInput::Control(a, Control::Connect(10, 2, 20)));
    assert_eq!(s.pop_output(), Some(Output::ToWorker(true, ToWorker::ConnectSocket(10, 2, 20))));

    s.on_input(1, FeatureInput::Control(a, Control::Send(10, vec![7], 3)));
    assert_eq!(s.pop_output(), Some(Output::SendRoute(RouteRule::ToNode(2), 3, vec![0, 10, 0, 20, 7])));

    s.on_input(1, FeatureInput::Control(a, Control::Unbind(10)));
    assert_eq!(s.pop_output(), Some(Output::ToWorker(true, ToWorker::UnbindSocket(10))));
    s.on_input(1, FeatureInput::Control(a, Control::Send(10, vec![7], 3)));
    assert_eq!(s.pop_output(), None);
}

#[test]
fn socket_send_to_local_port() {
    let a = FeatureControlActor::Service(3);
    let mut s = SocketFeature::new();
    s.on_input(5, FeatureInput::Control(a, Control::Bind(1)));
    s.on_input(5, FeatureInput::Control(a, Control::Bind(2)));
    while s.pop_output().is_some() {}
    s.on_input(5, FeatureInput::Control(a, Control::SendTo(1, 5, 2, vec![4, 4], 0)));
    assert_eq!(s.pop_output(), Some(Output::Event(a, Event::RecvFrom(2, 5, 1, vec![4, 4], 0))));
    s.on_input(5, FeatureInput::Control(a, Control::SendTo(1, 5, 3, vec![4, 4], 0)));
    assert_eq!(s.pop_output(), None);
}

#[test]
fn socket_receives_only_from_connected_peer() {
    let a = FeatureControlActor::Worker(0);
    let mut s = SocketFeature::new();
    s.on_input(1, FeatureInput::Control(a, Control::Bind(10)));
    s.on_input(1, FeatureInput::Control(a, Control::Connect(10, 2, 10)));
    while s.pop_output().is_some() {}
    s.on_input(1, FeatureInput::Net(Incoming { source: Some(3), meta: 1, buf: vec![0, 5, 0, 10, 1] }));
    assert_eq!(s.pop_output(), None);
    s.on_input(1, FeatureInput::Net(Incoming { source: None, meta: 1, buf: vec![0, 5, 0, 10, 1] }));
    assert_eq!(s.pop_output(), None);
    s.on_input(1, FeatureInput::Net(Incoming { source: Some(2), meta: 1, buf: vec![0, 5, 0, 10, 1] }));
    assert_eq!(s.pop_output(), Some(Output::Event(a, Event::RecvFrom(10, 2, 5, vec![1], 1))));
}

#[test]
fn socket_worker_sends_and_forwards() {
    let a = FeatureControlActor::Worker(0);
    let mut w = SocketFeatureWorker::new();
    w.on_input(WorkerInput::FromController(true, ToWorker::BindSocket(10, a)));
    w.on_input(WorkerInput::Control(a, Control::Send(10, vec![1], 2)));
    assert_eq!(w.pop_output(), None);
    w.on_input(WorkerInput::Control(a, Control::SendTo(10, 4, 40, vec![1], 2)));
    assert_eq!(w.pop_output(), Some(WorkerOutput::SendRoute(RouteRule::ToNode(4), 2, vec![0, 10, 0, 40, 1])));
    w.on_input(WorkerInput::FromController(true, ToWorker::ConnectSocket(10, 4, 40)));
    w.on_input(WorkerInput::Control(a, Control::Send(10, vec![1], 2)));
    assert_eq!(w.pop_output(), Some(WorkerOutput::SendRoute(RouteRule::ToNode(4), 2, vec![0, 10, 0, 40, 1])));
    w.on_input(WorkerInput::Control(FeatureControlActor::Controller, Control::Send(10, vec![1], 2)));
    assert_eq!(w.pop_output(), None);
    w.on_input(WorkerInput::Control(a, Control::Bind(11)));
    assert_eq!(w.pop_output(), Some(WorkerOutput::ForwardControlToController(a, Control::Bind(11))));
    w.on_input(WorkerInput::Net(Incoming { source: Some(4), meta: 9, buf: vec![0, 40, 0, 10, 3] }));
    assert_eq!(w.pop_output(), None);
    w.on_input(WorkerInput::FromController(true, ToWorker::UnbindSocket(10)));
    w.on_input(WorkerInput::Control(a, Control::SendTo(10, 4, 40, vec![1], 2)));
    assert_eq!(w.pop_output(), None);
}
