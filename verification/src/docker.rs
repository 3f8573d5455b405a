//! Containers and ports of the stores that the runtime starts itself.
use vstd::prelude::*;
use crate::stdtext::{hash_text, text_hash};
use crate::text::text_eq;

verus! {

/// The port offset of an instance: none for `default`, else its hash modulo 100.
pub open spec fn port_offset(instance: Seq<char>) -> u16 {
    if instance == "default"@ {
        0
    } else {
        (text_hash(instance) % 100) as u16
    }
}

/// A small port offset computed from an instance name, so that instances do
/// not collide (see [`port_offset`]).
pub fn hash_offset(instance: &str) -> (r: u16)
    ensures
        r == port_offset(instance@),
        r < 100,
{
    if text_eq(instance, "default") {
        return 0;
    }
    let h = hash_text(instance);
    (h % 100) as u16
}

/// The state Docker reports of a container.
#[derive(Debug, Clone, Copy, PartialEq, Eq, Structural)]
pub enum ContainerState {
    Running,
    Stopped,
    NotFound,
}

/// What to do to have a container running.
#[derive(Debug, Clone, Copy, PartialEq, Eq, Structural)]
pub enum ContainerAction {
    /// It runs already.
    Nothing,
    /// Start the stopped container.
    Start,
    /// Create and run a new container.
    Create,
}

/// What to do to have a container in state `state` running.
pub fn container_action(state: ContainerState) -> (r: ContainerAction)
    ensures
        r == match state {
            ContainerState::Running => ContainerAction::Nothing,
            ContainerState::Stopped => ContainerAction::Start,
            ContainerState::NotFound => ContainerAction::Create,
        },
{
    match state {
        ContainerState::Running => ContainerAction::Nothing,
        ContainerState::Stopped => ContainerAction::Start,
        ContainerState::NotFound => ContainerAction::Create,
    }
}

/// The port of instance `instance` of a store whose first port is `base`
/// (see [`port_offset`]).
pub fn instance_port(base: u16, instance: &str) -> (r: u16)
    requires
        base + 99 <= u16::MAX,
    ensures
        r == base + port_offset(instance@),
{
    base + hash_offset(instance)
}

} // verus!
