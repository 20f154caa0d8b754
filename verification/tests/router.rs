use atm0s_sdn_network::router::{ForceLocalRouter, MsgRoute, RouteAction, RouterTable};

#[test]
fn force_local_router_keeps_everything_local() {
    let r = ForceLocalRouter();
    assert_eq!(r.path_to_node(5), RouteAction::Local);
    assert_eq!(r.path_to_key(9), RouteAction::Local);
    assert_eq!(r.path_to_service(2), RouteAction::Local);
    assert_eq!(r.path_to(&MsgRoute::ToNode(1), 0), RouteAction::Local);
    assert_eq!(r.path_to(&MsgRoute::ToKey(1), 0), RouteAction::Local);
    assert_eq!(r.path_to(&MsgRoute::ToService(4), 4), RouteAction::Local);
}
