//! The per-frame decisions of the countdown: time accrual, pausing, keys,
//! expiry, and what to draw.
use vstd::prelude::*;

use crate::duration::{duration_from_string, format_spec, string_from_duration, ParseError};

verus! {

/// Seconds added to the requested duration, so that the first frame shows the
/// value that was asked for.
pub const START_PADDING_SECS: u64 = 1;

/// A key as the terminal reports it.
#[derive(Debug, Clone, Copy, PartialEq, Eq, Structural)]
pub enum Key {
    Char(char),
    Ctrl(char),
    Esc,
    Other,
}

/// What a key means to the countdown.
#[derive(Debug, Clone, Copy, PartialEq, Eq, Structural)]
pub enum KeyEvent {
    Quit,
    TogglePause,
    Other,
}

/// What a frame has to do.
#[derive(Debug, PartialEq, Eq)]
pub enum Frame {
    /// Clear the screen and draw `text` centred, highlighted while paused.
    Draw { text: String, highlighted: bool },
    /// The countdown has run out.
    Finished,
}

/// The state of a running countdown.
#[derive(Debug, Clone, Copy, PartialEq, Eq, Structural)]
pub struct CountdownState {
    /// Length of the countdown in seconds, fixed at start.
    pub countdown_secs: u64,
    /// Milliseconds accrued while not paused.
    pub elapsed_ms: u64,
    pub paused: bool,
}

pub open spec fn key_event_spec(key: Key) -> KeyEvent {
    match key {
        Key::Ctrl(c) => if c == 'c' {
            KeyEvent::Quit
        } else {
            KeyEvent::Other
        },
        Key::Esc => KeyEvent::Quit,
        Key::Char(c) => if c == ' ' {
            KeyEvent::TogglePause
        } else {
            KeyEvent::Other
        },
        Key::Other => KeyEvent::Other,
    }
}

/// Interrupt (`Ctrl-C`) and `Esc` quit, the space bar pauses or resumes,
/// anything else is ignored.
pub fn classify_key(key: Key) -> (r: KeyEvent)
    ensures
        r == key_event_spec(key),
{
    match key {
        Key::Ctrl(c) => if c == 'c' {
            KeyEvent::Quit
        } else {
            KeyEvent::Other
        },
        Key::Esc => KeyEvent::Quit,
        Key::Char(c) => if c == ' ' {
            KeyEvent::TogglePause
        } else {
            KeyEvent::Other
        },
        Key::Other => KeyEvent::Other,
    }
}

/// Whether the bell rings after the loop: only on natural expiry, and not when quiet.
pub fn alert_due(finished: bool, quiet: bool) -> (r: bool)
    ensures
        r == (finished && !quiet),
{
    finished && !quiet
}

impl CountdownState {
    /// The countdown in milliseconds.
    pub open spec fn countdown_ms(self) -> int {
        self.countdown_secs * 1000
    }

    /// Time remains while the countdown is at least the elapsed time.
    pub open spec fn expired(self) -> bool {
        self.elapsed_ms > self.countdown_ms()
    }

    /// Whole seconds that remain, rounded down.
    pub open spec fn remaining_secs(self) -> int {
        (self.countdown_ms() - self.elapsed_ms) / 1000
    }

    /// The frame that this state shows.
    pub open spec fn frame_spec(self) -> Option<(Seq<char>, bool)> {
        if self.expired() {
            None
        } else {
            Some((format_spec(self.remaining_secs() as nat), self.paused))
        }
    }

    /// The state after a frame that is `dt_ms` milliseconds after the previous one.
    pub open spec fn advance_spec(self, dt_ms: u64) -> CountdownState {
        if self.paused {
            self
        } else {
            CountdownState {
                elapsed_ms: if self.elapsed_ms + dt_ms > u64::MAX {
                    u64::MAX
                } else {
                    (self.elapsed_ms + dt_ms) as u64
                },
                ..self
            }
        }
    }

    /// The state after `key`, and whether it ends the countdown.
    pub open spec fn key_spec(self, key: KeyEvent) -> (CountdownState, bool) {
        match key {
            KeyEvent::Quit => (self, true),
            KeyEvent::TogglePause => (CountdownState { paused: !self.paused, ..self }, false),
            KeyEvent::Other => (self, false),
        }
    }

    /// The state after the keys of one frame, read in order up to the first that
    /// quits, and whether one did.
    pub open spec fn keys_spec(self, keys: Seq<KeyEvent>) -> (CountdownState, bool)
        decreases keys.len(),
    {
        if keys.len() == 0 {
            (self, false)
        } else {
            let (next, quit) = self.key_spec(keys[0]);
            if quit {
                (next, true)
            } else {
                next.keys_spec(keys.subrange(1, keys.len() as int))
            }
        }
    }

    /// A countdown of `countdown_secs` seconds, not started and not paused.
    pub fn new(countdown_secs: u64) -> (r: CountdownState)
        ensures
            r.countdown_secs == countdown_secs,
            r.elapsed_ms == 0,
            !r.paused,
    {
        CountdownState { countdown_secs, elapsed_ms: 0, paused: false }
    }

    /// The countdown that a duration string asks for, with the start padding added.
    pub fn from_input(input: &str) -> (r: Result<CountdownState, ParseError>)
        ensures
            match crate::duration::parse_spec(input@) {
                None => r == Err::<CountdownState, ParseError>(ParseError::Malformed),
                Some(d) => if d + START_PADDING_SECS <= u64::MAX {
                    r == Ok::<CountdownState, ParseError>(
                        CountdownState {
                            countdown_secs: (d + START_PADDING_SECS) as u64,
                            elapsed_ms: 0,
                            paused: false,
                        },
                    )
                } else {
                    r == Err::<CountdownState, ParseError>(ParseError::TooLarge)
                },
            },
    {
        match duration_from_string(input) {
            Ok(d) => if d <= u64::MAX - START_PADDING_SECS {
                Ok(CountdownState::new(d + START_PADDING_SECS))
            } else {
                Err(ParseError::TooLarge)
            },
            Err(e) => Err(e),
        }
    }

    /// Accrues `dt_ms` milliseconds unless paused; the sum stops at the largest
    /// value rather than wrapping.
    pub fn advance(&mut self, dt_ms: u64)
        ensures
            *final(self) == old(self).advance_spec(dt_ms),
    {
        if !self.paused {
            self.elapsed_ms = self.elapsed_ms.saturating_add(dt_ms);
        }
    }

    /// Whole seconds left, or `None` once the elapsed time has passed the countdown.
    pub fn remaining(&self) -> (r: Option<u64>)
        ensures
            self.expired() ==> r is None,
            !self.expired() ==> r == Some(self.remaining_secs() as u64),
    {
        let countdown_ms = self.countdown_secs as u128 * 1000;
        if countdown_ms >= self.elapsed_ms as u128 {
            let left = (countdown_ms - self.elapsed_ms as u128) / 1000;
            assert(left <= self.countdown_secs);
            Some(left as u64)
        } else {
            None
        }
    }

    /// What this frame shows: the remaining time in its canonical text, or the end.
    pub fn frame(&self) -> (r: Frame)
        ensures
            match self.frame_spec() {
                None => r == Frame::Finished,
                Some((text, highlighted)) => r matches Frame::Draw { text: t, highlighted: h }
                    && t@ == text && h == highlighted,
            },
    {
        match self.remaining() {
            Some(secs) => Frame::Draw { text: string_from_duration(secs), highlighted: self.paused },
            None => Frame::Finished,
        }
    }

    /// Takes one key; returns whether it quits.
    pub fn handle_key(&mut self, key: KeyEvent) -> (quit: bool)
        ensures
            (*final(self), quit) == old(self).key_spec(key),
    {
        match key {
            KeyEvent::Quit => true,
            KeyEvent::TogglePause => {
                self.paused = !self.paused;
                false
            },
            KeyEvent::Other => false,
        }
    }

    /// Takes the keys buffered during a frame in order, stopping at the first that
    /// quits; returns whether one did.
    pub fn handle_keys(&mut self, keys: &Vec<KeyEvent>) -> (quit: bool)
        ensures
            (*final(self), quit) == old(self).keys_spec(keys@),
    {
        let mut i: usize = 0;
        assert(keys@.subrange(0, keys@.len() as int) =~= keys@);
        while i < keys.len()
            invariant
                i <= keys@.len(),
                old(self).keys_spec(keys@) == self.keys_spec(
                    keys@.subrange(i as int, keys@.len() as int),
                ),
            decreases keys@.len() - i,
        {
            let ghost rest = keys@.subrange(i as int, keys@.len() as int);
            assert(rest.subrange(1, rest.len() as int) =~= keys@.subrange(
                i + 1,
                keys@.len() as int,
            ));
            if self.handle_key(keys[i]) {
                return true;
            }
            i = i + 1;
        }
        false
    }
}

/// The state after frames that come `dts[0]`, `dts[1]`, ... milliseconds apart.
pub open spec fn advance_all(state: CountdownState, dts: Seq<u64>) -> CountdownState
    decreases dts.len(),
{
    if dts.len() == 0 {
        state
    } else {
        advance_all(state.advance_spec(dts[0]), dts.subrange(1, dts.len() as int))
    }
}

/// A countdown started from a duration string shows, on a frame with no time
/// elapsed, a text that parses to the requested duration plus the start padding.
pub proof fn lemma_first_frame_shows_input(input: Seq<char>)
    requires
        crate::duration::parse_spec(input) is Some,
        crate::duration::parse_spec(input)->0 + START_PADDING_SECS <= u64::MAX,
    ensures
        ({
            let d = crate::duration::parse_spec(input)->0;
            let state = CountdownState {
                countdown_secs: (d + START_PADDING_SECS) as u64,
                elapsed_ms: 0,
                paused: false,
            };
            &&& state.frame_spec() == Some((format_spec(state.remaining_secs() as nat), false))
            &&& crate::duration::parse_spec(format_spec(state.remaining_secs() as nat)) == Some(
                (d + START_PADDING_SECS) as nat,
            )
        }),
{
    let d = crate::duration::parse_spec(input)->0;
    crate::duration::lemma_format_parse_round_trip((d + START_PADDING_SECS) as nat);
}

/// While paused, no number of frames changes the elapsed time.
pub proof fn lemma_paused_frames_keep_elapsed(state: CountdownState, dts: Seq<u64>)
    requires
        state.paused,
    ensures
        advance_all(state, dts) == state,
    decreases dts.len(),
{
    if dts.len() > 0 {
        lemma_paused_frames_keep_elapsed(state.advance_spec(dts[0]), dts.subrange(1, dts.len() as int));
    }
}

/// Resuming a paused countdown accrues only the time of the frames after it: the
/// first frame adds just the time since the frame before, none of the pause.
pub proof fn lemma_resume_accrues_from_pause(state: CountdownState, dt_ms: u64)
    requires
        state.paused,
    ensures
        ({
            let resumed = state.key_spec(KeyEvent::TogglePause).0;
            let next = resumed.advance_spec(dt_ms);
            &&& !resumed.paused
            &&& resumed.elapsed_ms == state.elapsed_ms
            &&& next.elapsed_ms == if state.elapsed_ms + dt_ms > u64::MAX {
                u64::MAX as int
            } else {
                state.elapsed_ms + dt_ms
            }
        }),
{
}

/// A quit key among a frame's keys ends the countdown, whatever time remains.
pub proof fn lemma_quit_cancels(state: CountdownState, keys: Seq<KeyEvent>)
    requires
        keys.contains(KeyEvent::Quit),
    ensures
        state.keys_spec(keys).1,
    decreases keys.len(),
{
    if keys[0] != KeyEvent::Quit {
        let rest = keys.subrange(1, keys.len() as int);
        let j = choose|j: int| 0 <= j < keys.len() && keys[j] == KeyEvent::Quit;
        assert(rest[j - 1] == KeyEvent::Quit);
        lemma_quit_cancels(state.key_spec(keys[0]).0, rest);
    }
}

/// Once the elapsed time has passed the countdown, the frame ends the countdown
/// as finished.
pub proof fn lemma_expiry_finishes(state: CountdownState)
    requires
        state.elapsed_ms > state.countdown_secs * 1000,
    ensures
        state.frame_spec() is None,
{
}

/// The state after frames that each take `dt` milliseconds and then the keys
/// read in them, up to a frame whose keys quit.
pub open spec fn run_frames(state: CountdownState, frames: Seq<(u64, Seq<KeyEvent>)>) -> CountdownState
    decreases frames.len(),
{
    if frames.len() == 0 {
        state
    } else {
        let (dt, keys) = frames[0];
        let (next, quit) = state.advance_spec(dt).keys_spec(keys);
        if quit {
            next
        } else {
            run_frames(next, frames.subrange(1, frames.len() as int))
        }
    }
}

/// The milliseconds of those frames of `run_frames` that begin unpaused.
pub open spec fn unpaused_time(state: CountdownState, frames: Seq<(u64, Seq<KeyEvent>)>) -> nat
    decreases frames.len(),
{
    if frames.len() == 0 {
        0
    } else {
        let (dt, keys) = frames[0];
        let (next, quit) = state.advance_spec(dt).keys_spec(keys);
        let own: nat = if state.paused {
            0
        } else {
            dt as nat
        };
        if quit {
            own
        } else {
            own + unpaused_time(next, frames.subrange(1, frames.len() as int))
        }
    }
}

proof fn lemma_keys_keep_time(state: CountdownState, keys: Seq<KeyEvent>)
    ensures
        state.keys_spec(keys).0.elapsed_ms == state.elapsed_ms,
        state.keys_spec(keys).0.countdown_secs == state.countdown_secs,
    decreases keys.len(),
{
    if keys.len() > 0 {
        lemma_keys_keep_time(state.key_spec(keys[0]).0, keys.subrange(1, keys.len() as int));
    }
}

/// Over any run of frames, with pauses switched on and off by keys, the elapsed
/// time never decreases, and grows by exactly the time of the frames that were not
/// paused, as long as the sum fits in a `u64`: a pause adds nothing, neither when
/// it ends nor after.
pub proof fn lemma_elapsed_is_unpaused_time(state: CountdownState, frames: Seq<(u64, Seq<KeyEvent>)>)
    ensures
        run_frames(state, frames).elapsed_ms >= state.elapsed_ms,
        state.elapsed_ms + unpaused_time(state, frames) <= u64::MAX ==> run_frames(
            state,
            frames,
        ).elapsed_ms == state.elapsed_ms + unpaused_time(state, frames),
    decreases frames.len(),
{
    if frames.len() > 0 {
        let (dt, keys) = frames[0];
        let advanced = state.advance_spec(dt);
        lemma_keys_keep_time(advanced, keys);
        let (next, quit) = advanced.keys_spec(keys);
        if !quit {
            lemma_elapsed_is_unpaused_time(next, frames.subrange(1, frames.len() as int));
        }
    }
}

} // verus!
