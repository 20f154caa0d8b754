//! The features of a node, each known by its identifier; the controls of local actors and
//! the messages that the workers send to the controller, each for the feature it belongs
//! to; and what an application outside the node asks of it.

use vstd::prelude::*;

use crate::types::ServiceId;
use crate::{alias, data, dht_kv, neighbours, pubsub, router_sync, socket, vpn};

verus! {

/// A feature of a node.
#[derive(Debug, Clone, Copy, PartialEq, Eq, Structural)]
pub enum Features {
    Neighbours,
    Data,
    RouterSync,
    Vpn,
    DhtKv,
    PubSub,
    Alias,
    Socket,
}

/// The identifier of a feature.
pub open spec fn feature_id(f: Features) -> u8 {
    match f {
        Features::Neighbours => neighbours::FEATURE_ID,
        Features::Data => data::FEATURE_ID,
        Features::RouterSync => router_sync::FEATURE_ID,
        Features::Vpn => vpn::FEATURE_ID,
        Features::DhtKv => dht_kv::feature::FEATURE_ID,
        Features::PubSub => pubsub::FEATURE_ID,
        Features::Alias => alias::FEATURE_ID,
        Features::Socket => socket::FEATURE_ID,
    }
}

impl Features {
    /// The identifier of this feature.
    pub fn to_u8(self) -> (r: u8)
        ensures
            r == feature_id(self),
    {
        match self {
            Features::Neighbours => neighbours::FEATURE_ID,
            Features::Data => data::FEATURE_ID,
            Features::RouterSync => router_sync::FEATURE_ID,
            Features::Vpn => vpn::FEATURE_ID,
            Features::DhtKv => dht_kv::feature::FEATURE_ID,
            Features::PubSub => pubsub::FEATURE_ID,
            Features::Alias => alias::FEATURE_ID,
            Features::Socket => socket::FEATURE_ID,
        }
    }

    /// The feature with identifier `id`, if there is one.
    pub fn from_u8(id: u8) -> (r: Option<Features>)
        ensures
            match r {
                Some(f) => feature_id(f) == id,
                None => forall|f: Features| feature_id(f) != id,
            },
    {
        match id {
            0 => Some(Features::Neighbours),
            1 => Some(Features::Data),
            2 => Some(Features::RouterSync),
            3 => Some(Features::Vpn),
            4 => Some(Features::DhtKv),
            5 => Some(Features::PubSub),
            6 => Some(Features::Alias),
            7 => Some(Features::Socket),
            _ => None,
        }
    }
}

/// Each feature has its own identifier, and it is the one found from it.
pub proof fn law_feature_id_roundtrip(f: Features, g: Features)
    ensures
        feature_id(f) == feature_id(g) ==> f == g,
        feature_id(f) < 8,
{
}

/// A control of a local actor, for the feature it belongs to. The VPN feature takes no
/// control, so no control belongs to it.
#[derive(Debug, PartialEq, Eq)]
pub enum FeaturesControl {
    Neighbours(neighbours::Control),
    Data(data::Control),
    RouterSync(router_sync::Control),
    DhtKv(dht_kv::storage::Control),
    PubSub(pubsub::Control),
    Alias(alias::Control),
    Socket(socket::Control),
}

/// The feature a control belongs to.
pub open spec fn control_feature(c: FeaturesControl) -> Features {
    match c {
        FeaturesControl::Neighbours(_) => Features::Neighbours,
        FeaturesControl::Data(_) => Features::Data,
        FeaturesControl::RouterSync(_) => Features::RouterSync,
        FeaturesControl::DhtKv(_) => Features::DhtKv,
        FeaturesControl::PubSub(_) => Features::PubSub,
        FeaturesControl::Alias(_) => Features::Alias,
        FeaturesControl::Socket(_) => Features::Socket,
    }
}

impl FeaturesControl {
    /// The feature this control belongs to.
    pub fn to_feature(&self) -> (r: Features)
        ensures
            r == control_feature(*self),
    {
        match self {
            FeaturesControl::Neighbours(_) => Features::Neighbours,
            FeaturesControl::Data(_) => Features::Data,
            FeaturesControl::RouterSync(_) => Features::RouterSync,
            FeaturesControl::DhtKv(_) => Features::DhtKv,
            FeaturesControl::PubSub(_) => Features::PubSub,
            FeaturesControl::Alias(_) => Features::Alias,
            FeaturesControl::Socket(_) => Features::Socket,
        }
    }
}

/// What an application outside the node asks: a control of a feature, or a control of a
/// service, each with the application's own data.
pub enum ExtIn<UserData, ServicesControl> {
    FeaturesControl(UserData, FeaturesControl),
    ServicesControl(ServiceId, UserData, ServicesControl),
}

/// A message from a worker to the controller, for the feature it belongs to.
#[derive(Debug, PartialEq, Eq)]
pub enum FeaturesToController {
    Neighbours(neighbours::ToController),
    Data(data::ToController),
    RouterSync(router_sync::ToController),
    Vpn(vpn::ToController),
    DhtKv(dht_kv::feature::ToController),
    PubSub(pubsub::ToController),
    Alias(alias::ToController),
    Socket(socket::ToController),
}

/// The feature a message to the controller belongs to.
pub open spec fn to_controller_feature(m: FeaturesToController) -> Features {
    match m {
        FeaturesToController::Neighbours(_) => Features::Neighbours,
        FeaturesToController::Data(_) => Features::Data,
        FeaturesToController::RouterSync(_) => Features::RouterSync,
        FeaturesToController::Vpn(_) => Features::Vpn,
        FeaturesToController::DhtKv(_) => Features::DhtKv,
        FeaturesToController::PubSub(_) => Features::PubSub,
        FeaturesToController::Alias(_) => Features::Alias,
        FeaturesToController::Socket(_) => Features::Socket,
    }
}

impl FeaturesToController {
    /// The feature this message belongs to.
    pub fn to_feature(&self) -> (r: Features)
        ensures
            r == to_controller_feature(*self),
    {
        match self {
            FeaturesToController::Neighbours(_) => Features::Neighbours,
            FeaturesToController::Data(_) => Features::Data,
            FeaturesToController::RouterSync(_) => Features::RouterSync,
            FeaturesToController::Vpn(_) => Features::Vpn,
            FeaturesToController::DhtKv(_) => Features::DhtKv,
            FeaturesToController::PubSub(_) => Features::PubSub,
            FeaturesToController::Alias(_) => Features::Alias,
            FeaturesToController::Socket(_) => Features::Socket,
        }
    }
}

/// An event of a feature for a local actor. The dump of the routing table that the router
/// synchronization feature answers is of the dump type `D` of the router in use; the VPN
/// feature has no event.
#[derive(Debug, PartialEq, Eq)]
pub enum FeaturesEvent<D> {
    Neighbours(neighbours::Event),
    Data(data::Event),
    RouterSync(router_sync::Event<D>),
    DhtKv(dht_kv::storage::Event),
    PubSub(pubsub::Event),
    Alias(alias::Event),
    Socket(socket::Event),
}

/// A command from the controller to the workers, for the feature it belongs to. The changes
/// of the routing table that the router synchronization feature sends are of the delta type
/// `R` of the router in use.
#[derive(Debug, PartialEq, Eq)]
pub enum FeaturesToWorker<R> {
    Neighbours(neighbours::ToWorker),
    Data(data::ToWorker),
    RouterSync(R),
    Vpn(vpn::ToWorker),
    DhtKv(dht_kv::feature::ToWorker),
    PubSub(pubsub::ToWorker),
    Alias(alias::ToWorker),
    Socket(socket::ToWorker),
}

/// The feature a command for the workers belongs to.
pub open spec fn to_worker_feature<R>(m: FeaturesToWorker<R>) -> Features {
    match m {
        FeaturesToWorker::Neighbours(_) => Features::Neighbours,
        FeaturesToWorker::Data(_) => Features::Data,
        FeaturesToWorker::RouterSync(_) => Features::RouterSync,
        FeaturesToWorker::Vpn(_) => Features::Vpn,
        FeaturesToWorker::DhtKv(_) => Features::DhtKv,
        FeaturesToWorker::PubSub(_) => Features::PubSub,
        FeaturesToWorker::Alias(_) => Features::Alias,
        FeaturesToWorker::Socket(_) => Features::Socket,
    }
}

impl<R> FeaturesToWorker<R> {
    /// The feature this command belongs to.
    pub fn to_feature(&self) -> (r: Features)
        ensures
            r == to_worker_feature(*self),
    {
        match self {
            FeaturesToWorker::Neighbours(_) => Features::Neighbours,
            FeaturesToWorker::Data(_) => Features::Data,
            FeaturesToWorker::RouterSync(_) => Features::RouterSync,
            FeaturesToWorker::Vpn(_) => Features::Vpn,
            FeaturesToWorker::DhtKv(_) => Features::DhtKv,
            FeaturesToWorker::PubSub(_) => Features::PubSub,
            FeaturesToWorker::Alias(_) => Features::Alias,
            FeaturesToWorker::Socket(_) => Features::Socket,
        }
    }
}

/// What the node tells an application outside it: an event of a feature, or an event of a
/// service, each with the application's own data.
#[derive(Debug, PartialEq, Eq)]
pub enum ExtOut<UserData, ServicesEvent, D> {
    FeaturesEvent(UserData, FeaturesEvent<D>),
    ServicesEvent(ServiceId, UserData, ServicesEvent),
}

} // verus!
