use vstd::prelude::*;

verus! {

/// What the player is doing.
#[derive(Debug, Clone, Copy, PartialEq, Eq, Structural)]
pub enum PlayerState {
    Idle,
    Running,
}

/// The two animations of the player and the state that picks between them.
pub struct PlayerAnimation<A> {
    pub state: PlayerState,
    pub idle: A,
    pub running: A,
}

impl<A> PlayerAnimation<A> {
    /// The animation that belongs to the state.
    pub open spec fn shown(&self) -> A {
        match self.state {
            PlayerState::Idle => self.idle,
            PlayerState::Running => self.running,
        }
    }

    /// A player at rest.
    pub fn new(idle: A, running: A) -> (animation: Self)
        ensures
            animation == (PlayerAnimation { state: PlayerState::Idle, idle, running }),
    {
        PlayerAnimation { state: PlayerState::Idle, idle, running }
    }

    pub fn current(&self) -> (shown: &A)
        ensures
            *shown == self.shown(),
    {
        match self.state {
            PlayerState::Idle => &self.idle,
            PlayerState::Running => &self.running,
        }
    }

    pub fn current_mut(&mut self) -> (shown: &mut A)
        ensures
            *shown == old(self).shown(),
            final(self).state == old(self).state,
            final(self).shown() == *final(shown),
            old(self).state == PlayerState::Idle ==> final(self).running == old(self).running,
            old(self).state == PlayerState::Running ==> final(self).idle == old(self).idle,
    {
        match self.state {
            PlayerState::Idle => &mut self.idle,
            PlayerState::Running => &mut self.running,
        }
    }

    /// Puts the player into `state`. Where that is a change, the animation
    /// of the new state is returned, to be started from its first frame;
    /// where the player was in that state already, nothing is.
    pub fn set_state(&mut self, state: PlayerState) -> (restart: Option<&mut A>)
        ensures
            final(self).state == state,
            restart is Some <==> old(self).state != state,
            match restart {
                Some(shown) => {
                    &&& *shown == (PlayerAnimation { state, ..*old(self) }).shown()
                    &&& final(self).shown() == *final(shown)
                    &&& state == PlayerState::Idle ==> final(self).running == old(self).running
                    &&& state == PlayerState::Running ==> final(self).idle == old(self).idle
                },
                None => *final(self) == *old(self),
            },
    {
        if self.state != state {
            self.state = state;
            Some(self.current_mut())
        } else {
            None
        }
    }
}

} // verus!
