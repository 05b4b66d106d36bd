//! The loading screen.

use crate::client::timer::{Timer, TimerMode};
use vstd::prelude::*;

verus! {

/// How long the screen stays at least after the first state: 1.5 seconds.
pub const MIN_DISPLAY: u64 = 1_500_000_000;

/// How many states must have come before the client counts as synced.
pub const MIN_STATES: u32 = 3;

/// What the client waits for before the game is shown.
#[derive(Debug, Clone, Copy, PartialEq, Eq, Structural)]
pub struct LoadingState {
    pub welcome_received: bool,
    pub first_state_received: bool,
    pub state_count: u32,
    pub min_display_timer: Option<Timer>,
    pub loading_screen_entity: Option<u64>,
}

/// What becomes of the loading screen in a frame.
#[derive(Debug, Clone, Copy)]
pub enum LoadingScreen {
    Hidden,
    Showing(&'static str),
}

impl Default for LoadingState {
    fn default() -> (state: LoadingState)
        ensures
            state == LoadingState::initial(),
    {
        LoadingState {
            welcome_received: false,
            first_state_received: false,
            state_count: 0,
            min_display_timer: None,
            loading_screen_entity: None,
        }
    }
}

impl LoadingState {
    /// The state before anything was received.
    pub open spec fn initial() -> LoadingState {
        LoadingState {
            welcome_received: false,
            first_state_received: false,
            state_count: 0,
            min_display_timer: None,
            loading_screen_entity: None,
        }
    }

    /// Whether the server has welcomed the client, enough states have come,
    /// and the screen has been shown long enough.
    pub open spec fn ready(self) -> bool {
        &&& self.welcome_received
        &&& self.first_state_received
        &&& self.state_count >= MIN_STATES
        &&& self.min_display_timer matches Some(timer)
        &&& timer.finished
    }

    /// The state after a welcome.
    pub open spec fn welcomed(self) -> LoadingState {
        LoadingState { welcome_received: true, ..self }
    }

    /// The state after a world state has come: the first one starts the timer.
    pub open spec fn informed(self) -> LoadingState {
        if self.first_state_received {
            LoadingState { state_count: (self.state_count + 1) as u32, ..self }
        } else {
            LoadingState {
                first_state_received: true,
                state_count: 1,
                min_display_timer: Some(Timer::fresh(MIN_DISPLAY, TimerMode::Once)),
                ..self
            }
        }
    }

    /// The state after some more time.
    pub open spec fn ticked(self, delta: u64) -> LoadingState {
        LoadingState {
            min_display_timer: match self.min_display_timer {
                Some(timer) => Some(timer.ticked(delta)),
                None => None,
            },
            ..self
        }
    }

    /// What the screen says.
    pub open spec fn status(self) -> Seq<char> {
        if !self.welcome_received {
            "Connecting to server..."@
        } else if !self.first_state_received {
            "Syncing with server..."@
        } else {
            "Loading..."@
        }
    }

    pub fn is_ready(&self) -> (r: bool)
        ensures
            r == self.ready(),
    {
        if !self.welcome_received || !self.first_state_received {
            return false;
        }
        if self.state_count < MIN_STATES {
            return false;
        }
        match self.min_display_timer {
            Some(timer) => timer.finished,
            None => false,
        }
    }

    pub fn receive_welcome(&mut self)
        ensures
            *final(self) == old(self).welcomed(),
    {
        self.welcome_received = true;
    }

    pub fn receive_state(&mut self)
        requires
            old(self).first_state_received ==> old(self).state_count < u32::MAX,
        ensures
            *final(self) == old(self).informed(),
    {
        if !self.first_state_received {
            self.first_state_received = true;
            self.state_count = 1;
            self.min_display_timer = Some(Timer::new(MIN_DISPLAY, TimerMode::Once));
        } else {
            self.state_count = self.state_count + 1;
        }
    }

    /// Advances the timer by the length of a frame, and tells what becomes of
    /// the screen.
    pub fn update_loading_screen(&mut self, delta: u64) -> (screen: LoadingScreen)
        ensures
            *final(self) == old(self).ticked(delta),
            match screen {
                LoadingScreen::Hidden => final(self).ready(),
                LoadingScreen::Showing(text) => !final(self).ready() && text@
                    == final(self).status(),
            },
    {
        if let Some(mut timer) = self.min_display_timer {
            timer.tick(delta);
            self.min_display_timer = Some(timer);
        }
        if self.is_ready() {
            return LoadingScreen::Hidden;
        }
        if !self.welcome_received {
            LoadingScreen::Showing("Connecting to server...")
        } else if !self.first_state_received {
            LoadingScreen::Showing("Syncing with server...")
        } else {
            LoadingScreen::Showing("Loading...")
        }
    }

    /// Once the client is ready it stays so, whatever comes.
    pub proof fn ready_for_good(self, delta: u64)
        requires
            self.ready(),
            self.state_count < u32::MAX,
            self.min_display_timer->0.mode == TimerMode::Once,
        ensures
            self.welcomed().ready(),
            self.informed().ready(),
            self.ticked(delta).ready(),
    {
    }

    /// The screen stays for at least its time after the first state: whatever
    /// comes and however the frames fall, the client is not ready before that
    /// much has passed.
    pub proof fn shown_long_enough(self, events: Seq<LoadingEvent>)
        requires
            !self.first_state_received,
            LoadingEvent::total(events) < MIN_DISPLAY,
        ensures
            !self.informed().after(events).ready(),
    {
        self.informed().elapsed_after(events);
    }

    /// The state after one event.
    pub open spec fn met(self, event: LoadingEvent) -> LoadingState {
        match event {
            LoadingEvent::Welcome => self.welcomed(),
            LoadingEvent::State => self.informed(),
            LoadingEvent::Frame(delta) => self.ticked(delta),
        }
    }

    /// The state after several events.
    pub open spec fn after(self, events: Seq<LoadingEvent>) -> LoadingState
        decreases events.len(),
    {
        if events.len() == 0 {
            self
        } else {
            self.after(events.drop_last()).met(events.last())
        }
    }

    proof fn elapsed_after(self, events: Seq<LoadingEvent>)
        requires
            self.first_state_received,
            self.min_display_timer == Some(Timer::fresh(MIN_DISPLAY, TimerMode::Once)),
            LoadingEvent::total(events) < MIN_DISPLAY,
        ensures
            self.after(events).first_state_received,
            self.after(events).min_display_timer matches Some(timer) && timer == (Timer {
                elapsed: LoadingEvent::total(events) as u64,
                ..Timer::fresh(MIN_DISPLAY, TimerMode::Once)
            }),
        decreases events.len(),
    {
        if events.len() > 0 {
            self.elapsed_after(events.drop_last());
        }
    }
}

/// What can happen to the loading screen.
pub ghost enum LoadingEvent {
    Welcome,
    State,
    Frame(u64),
}

impl LoadingEvent {
    /// The time that several events take.
    pub open spec fn total(events: Seq<LoadingEvent>) -> nat
        decreases events.len(),
    {
        if events.len() == 0 {
            0
        } else {
            Self::total(events.drop_last()) + match events.last() {
                LoadingEvent::Frame(delta) => delta as nat,
                _ => 0,
            }
        }
    }
}

} // verus!
