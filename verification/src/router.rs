//! The routing table that the network plane asks where a message goes, and a table that
//! keeps everything on this node.

use vstd::prelude::*;

use crate::base::ConnId;
use crate::types::NodeId;

verus! {

/// Where a message is routed: to a node, to the node closest to a key, or to a service.
#[derive(Debug, Clone, Copy, PartialEq, Eq, Structural)]
pub enum MsgRoute {
    ToNode(NodeId),
    ToKey(NodeId),
    ToService(u8),
}

/// What to do with a message: drop it, handle it here, or send it over a connection to the
/// next node.
#[derive(Debug, Clone, Copy, PartialEq, Eq, Structural)]
pub enum RouteAction {
    Reject,
    Local,
    Remote(ConnId, NodeId),
}

/// A routing table: where a message to a node, to a key or to a service goes.
pub trait RouterTable {
    /// Where a message to `dest` goes.
    spec fn node_path(&self, dest: NodeId) -> RouteAction;

    /// Where a message to the node closest to `key` goes.
    spec fn key_path(&self, key: NodeId) -> RouteAction;

    /// Where a message to service `service_id` goes.
    spec fn service_path(&self, service_id: u8) -> RouteAction;

    fn path_to_node(&self, dest: NodeId) -> (r: RouteAction)
        ensures
            r == self.node_path(dest),
    ;

    fn path_to_key(&self, key: NodeId) -> (r: RouteAction)
        ensures
            r == self.key_path(key),
    ;

    fn path_to_service(&self, service_id: u8) -> (r: RouteAction)
        ensures
            r == self.service_path(service_id),
    ;

    /// Where a message with route `route`, for service `service_id`, goes.
    fn path_to(&self, route: &MsgRoute, service_id: u8) -> (r: RouteAction)
        ensures
            r == match *route {
                MsgRoute::ToNode(dest) => self.node_path(dest),
                MsgRoute::ToKey(key) => self.key_path(key),
                MsgRoute::ToService(_) => self.service_path(service_id),
            },
    {
        match route {
            MsgRoute::ToNode(dest) => self.path_to_node(*dest),
            MsgRoute::ToKey(key) => self.path_to_key(*key),
            MsgRoute::ToService(_) => self.path_to_service(service_id),
        }
    }
}

/// A routing table that handles every message on this node.
pub struct ForceLocalRouter();

impl RouterTable for ForceLocalRouter {
    open spec fn node_path(&self, dest: NodeId) -> RouteAction {
        RouteAction::Local
    }

    open spec fn key_path(&self, key: NodeId) -> RouteAction {
        RouteAction::Local
    }

    open spec fn service_path(&self, service_id: u8) -> RouteAction {
        RouteAction::Local
    }

    fn path_to_node(&self, dest: NodeId) -> (r: RouteAction) {
        RouteAction::Local
    }

    fn path_to_key(&self, key: NodeId) -> (r: RouteAction) {
        RouteAction::Local
    }

    fn path_to_service(&self, service_id: u8) -> (r: RouteAction) {
        RouteAction::Local
    }
}

} // verus!
