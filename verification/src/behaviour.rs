//! The decision core of the player-input behaviour.
//!
//! The surrounding input loop — polling a device, blocking, redrawing — is
//! I/O and lives with the frontend. What is decided here is pure: which
//! meta-action a control, looked up from an input event, asks of the game,
//! and which controls are movement.

use vstd::prelude::*;
use crate::entity::{Direction, EntityId};

verus! {

/// A control the player can issue, after key binding has been resolved.
#[derive(Clone, Copy, Debug, PartialEq, Eq, Structural)]
pub enum Control {
    Direction(Direction),
    Fire,
    Wait,
    Pause,
    DisplayMessageLog,
    Examine,
    Use,
}

/// A change of the player's speed.
#[derive(Clone, Copy, Debug, PartialEq, Eq, Structural)]
pub enum ChangeSpeed {
    Accelerate,
    Decelerate,
}

/// A steering direction.
#[derive(Clone, Copy, Debug, PartialEq, Eq, Structural)]
pub enum SteerDirection {
    Up,
    Down,
}

/// Arguments of an in-game action the player asks for.
#[derive(Clone, Copy, Debug, PartialEq, Eq, Structural)]
pub enum ActionArgs {
    Null,
    ChangeSpeed(EntityId, ChangeSpeed),
    Steer(EntityId, SteerDirection),
    TryLevelSwitch(EntityId),
}

/// A request that leaves the game proper.
#[derive(Clone, Copy, Debug, PartialEq, Eq, Structural)]
pub enum External {
    Quit,
    Pause,
}

/// What one player input amounts to.
#[derive(Clone, Copy, Debug, PartialEq, Eq, Structural)]
pub enum MetaAction {
    ActionArgs(ActionArgs),
    External(External),
}

/// The direction a control asks to move in, if it is a movement control.
pub fn control_to_direction(control: Control) -> (r: Option<Direction>)
    ensures
        r == (match control {
            Control::Direction(d) => Some(d),
            _ => None::<Direction>,
        }),
{
    match control {
        Control::Direction(d) => Some(d),
        _ => None,
    }
}

/// The player-input decision: which meta-action a resolved control asks of
/// the game on the player entity's behalf. Controls that need more context
/// (fire, examine) or that are handled by the frontend (the message log)
/// decide nothing here.
pub fn player_input(entity_id: EntityId, control: Control) -> (r: Option<MetaAction>)
    ensures
        r == spec_player_input(entity_id, control),
{
    match control {
        Control::Direction(Direction::East) => Some(
            MetaAction::ActionArgs(ActionArgs::ChangeSpeed(entity_id, ChangeSpeed::Accelerate)),
        ),
        Control::Direction(Direction::West) => Some(
            MetaAction::ActionArgs(ActionArgs::ChangeSpeed(entity_id, ChangeSpeed::Decelerate)),
        ),
        Control::Direction(Direction::North) => Some(
            MetaAction::ActionArgs(ActionArgs::Steer(entity_id, SteerDirection::Up)),
        ),
        Control::Direction(Direction::South) => Some(
            MetaAction::ActionArgs(ActionArgs::Steer(entity_id, SteerDirection::Down)),
        ),
        Control::Wait => Some(MetaAction::ActionArgs(ActionArgs::Null)),
        Control::Pause => Some(MetaAction::External(External::Pause)),
        Control::Use => Some(MetaAction::ActionArgs(ActionArgs::TryLevelSwitch(entity_id))),
        _ => None,
    }
}

/// What [`player_input`] decides for every control.
pub open spec fn spec_player_input(entity_id: EntityId, control: Control) -> Option<MetaAction> {
    match control {
        Control::Direction(Direction::East) => Some(
            MetaAction::ActionArgs(ActionArgs::ChangeSpeed(entity_id, ChangeSpeed::Accelerate)),
        ),
        Control::Direction(Direction::West) => Some(
            MetaAction::ActionArgs(ActionArgs::ChangeSpeed(entity_id, ChangeSpeed::Decelerate)),
        ),
        Control::Direction(Direction::North) => Some(
            MetaAction::ActionArgs(ActionArgs::Steer(entity_id, SteerDirection::Up)),
        ),
        Control::Direction(Direction::South) => Some(
            MetaAction::ActionArgs(ActionArgs::Steer(entity_id, SteerDirection::Down)),
        ),
        Control::Wait => Some(MetaAction::ActionArgs(ActionArgs::Null)),
        Control::Pause => Some(MetaAction::External(External::Pause)),
        Control::Use => Some(MetaAction::ActionArgs(ActionArgs::TryLevelSwitch(entity_id))),
        _ => None::<MetaAction>,
    }
}

} // verus!
