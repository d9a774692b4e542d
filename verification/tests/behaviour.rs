use ecs_table::behaviour::{
    control_to_direction, player_input, ActionArgs, ChangeSpeed, Control, External, MetaAction,
    SteerDirection,
};
use ecs_table::entity::Direction;
use ecs_table::rule::{fail, pass, RuleResult};

#[test]
fn pass_lets_the_update_stand() {
    match pass() {
        RuleResult::After(v) => assert!(v.is_empty()),
        RuleResult::Instead(_) => panic!("pass must not veto"),
    }
}

#[test]
fn fail_vetoes_the_update() {
    match fail() {
        RuleResult::Instead(v) => assert!(v.is_empty()),
        RuleResult::After(_) => panic!("fail must veto"),
    }
}

#[test]
fn controls_map_to_meta_actions() {
    let id: u64 = 3;
    assert_eq!(
        player_input(id, Control::Direction(Direction::East)),
        Some(MetaAction::ActionArgs(ActionArgs::ChangeSpeed(id, ChangeSpeed::Accelerate)))
    );
    assert_eq!(
        player_input(id, Control::Direction(Direction::West)),
        Some(MetaAction::ActionArgs(ActionArgs::ChangeSpeed(id, ChangeSpeed::Decelerate)))
    );
    assert_eq!(
        player_input(id, Control::Direction(Direction::North)),
        Some(MetaAction::ActionArgs(ActionArgs::Steer(id, SteerDirection::Up)))
    );
    assert_eq!(
        player_input(id, Control::Direction(Direction::South)),
        Some(MetaAction::ActionArgs(ActionArgs::Steer(id, SteerDirection::Down)))
    );
    assert_eq!(
        player_input(id, Control::Wait),
        Some(MetaAction::ActionArgs(ActionArgs::Null))
    );
    assert_eq!(player_input(id, Control::Pause), Some(MetaAction::External(External::Pause)));
    assert_eq!(
        player_input(id, Control::Use),
        Some(MetaAction::ActionArgs(ActionArgs::TryLevelSwitch(id)))
    );
    assert_eq!(player_input(id, Control::Fire), None);
    assert_eq!(player_input(id, Control::Examine), None);
    assert_eq!(player_input(id, Control::DisplayMessageLog), None);
    assert_eq!(player_input(id, Control::Direction(Direction::NorthEast)), None);
}

#[test]
fn movement_controls_give_directions() {
    assert_eq!(
        control_to_direction(Control::Direction(Direction::SouthWest)),
        Some(Direction::SouthWest)
    );
    assert_eq!(control_to_direction(Control::Wait), None);
    assert_eq!(control_to_direction(Control::Fire), None);
}
