use chunk_stream::player::{PlayerAnimation, PlayerState};

#[test]
fn player_starts_idle() {
    let animation = PlayerAnimation::new("idle", "running");
    assert_eq!(animation.state, PlayerState::Idle);
    assert_eq!(*animation.current(), "idle");
}

#[test]
fn set_state_hands_out_the_new_animation_on_a_change() {
    let mut animation = PlayerAnimation::new(10, 20);
    {
        let restart = animation.set_state(PlayerState::Running);
        assert_eq!(restart, Some(&mut 20));
        *restart.unwrap() = 21;
    }
    assert_eq!(animation.state, PlayerState::Running);
    assert_eq!(*animation.current(), 21);
    assert_eq!(animation.idle, 10);
    assert_eq!(animation.set_state(PlayerState::Idle), Some(&mut 10));
    assert_eq!(animation.state, PlayerState::Idle);
}

#[test]
fn set_state_to_the_same_state_restarts_nothing() {
    let mut animation = PlayerAnimation::new(10, 20);
    assert_eq!(animation.set_state(PlayerState::Idle), None);
    assert_eq!(animation.state, PlayerState::Idle);
    animation.set_state(PlayerState::Running);
    assert_eq!(animation.set_state(PlayerState::Running), None);
    assert_eq!(animation.state, PlayerState::Running);
    assert_eq!(animation.idle, 10);
    assert_eq!(animation.running, 20);
}

#[test]
fn current_mut_reaches_the_animation_of_the_state() {
    let mut animation = PlayerAnimation::new(1, 2);
    *animation.current_mut() += 100;
    assert_eq!(animation.idle, 101);
    assert_eq!(animation.running, 2);
    animation.set_state(PlayerState::Running);
    *animation.current_mut() += 100;
    assert_eq!(animation.idle, 101);
    assert_eq!(animation.running, 102);
}
