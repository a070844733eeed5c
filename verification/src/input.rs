//! Detection of the input mode for the automatic switch between controller and
//! keyboard.
//!
//! Rules (the latest poll wins):
//! - the pad is active when it is connected and a button is pressed, a trigger
//!   is above 8, or a stick is farther than 4000 from the middle;
//! - the keyboard is active when the mouse has moved by more than two pixels
//!   (where mouse movement counts);
//! - within one poll the pad comes before the keyboard.

use vstd::prelude::*;

use crate::num;

verus! {

/// Stick dead zone (axis range -32768..=32767).
pub const STICK_DEAD_ZONE: i32 = 4000;

/// Trigger threshold (range 0..=255).
pub const TRIGGER_THRESHOLD: u8 = 8;

/// Mouse move threshold (pixels since the previous poll).
pub const MOUSE_MOVE_THRESHOLD: i64 = 2;

/// Nanoseconds in a millisecond.
pub const NANOS_PER_MILLI: u64 = 1_000_000;

/// How much later the next poll comes while no pad is connected, in
/// nanoseconds.
pub const BACK_OFF: u64 = 900_000_000;

/// Input mode.
#[derive(Debug, Clone, Copy, PartialEq, Eq, Structural)]
pub enum InputMode {
    Keyboard,
    Controller,
}

impl InputMode {
    pub fn label(self) -> (r: &'static str)
        ensures
            r@ == (match self {
                InputMode::Keyboard => "keyboard"@,
                InputMode::Controller => "pad"@,
            }),
    {
        match self {
            InputMode::Keyboard => "keyboard",
            InputMode::Controller => "pad",
        }
    }
}

/// What a poll of the pad found.
#[derive(Debug, Clone, Copy, PartialEq, Eq, Structural)]
pub enum PadState {
    Active,
    Idle,
    NotConnected,
}

/// State of a pad.
#[derive(Debug, Clone, Copy)]
pub struct Gamepad {
    pub buttons: u16,
    pub left_trigger: u8,
    pub right_trigger: u8,
    pub thumb_lx: i16,
    pub thumb_ly: i16,
    pub thumb_rx: i16,
    pub thumb_ry: i16,
}

/// Whether an axis is outside of the dead zone.
pub open spec fn is_out(axis: i16) -> bool {
    num::int_abs(axis as int) > STICK_DEAD_ZONE
}

/// Whether there is input from a pad.
pub open spec fn is_pad_active(g: Gamepad) -> bool {
    ||| g.buttons != 0
    ||| g.left_trigger > TRIGGER_THRESHOLD
    ||| g.right_trigger > TRIGGER_THRESHOLD
    ||| is_out(g.thumb_lx)
    ||| is_out(g.thumb_ly)
    ||| is_out(g.thumb_rx)
    ||| is_out(g.thumb_ry)
}

/// What the state of the pad says; without a state no pad is connected.
pub open spec fn pad_state(pad: Option<Gamepad>) -> PadState {
    match pad {
        None => PadState::NotConnected,
        Some(g) => if is_pad_active(g) { PadState::Active } else { PadState::Idle },
    }
}

fn out_of_dead_zone(axis: i16) -> (r: bool)
    ensures
        r == is_out(axis),
{
    num::abs_i32(axis as i32) > STICK_DEAD_ZONE
}

/// What the state of the pad says. `pad` is `None` where no pad is connected.
pub fn pad_activity(pad: Option<Gamepad>) -> (r: PadState)
    ensures
        r == pad_state(pad),
{
    match pad {
        None => PadState::NotConnected,
        Some(g) => {
            if g.buttons != 0 || g.left_trigger > TRIGGER_THRESHOLD || g.right_trigger
                > TRIGGER_THRESHOLD || out_of_dead_zone(g.thumb_lx) || out_of_dead_zone(g.thumb_ly)
                || out_of_dead_zone(g.thumb_rx) || out_of_dead_zone(g.thumb_ry) {
                PadState::Active
            } else {
                PadState::Idle
            }
        },
    }
}

/// Input detector.
#[derive(Debug, Clone, Copy)]
pub struct Input {
    /// Poll interval in milliseconds
    pub interval: u64,
    /// Whether mouse movement counts as keyboard activity
    pub track_mouse: bool,
    /// Time of the last poll in nanoseconds
    pub last_poll: u64,
    pub last_cursor: (i32, i32),
    /// Current mode
    pub current: InputMode,
    /// Whether the next poll is the first
    pub first_poll: bool,
}

/// Whether the mouse has moved by more than the threshold.
pub open spec fn has_moved(from: (i32, i32), to: (i32, i32)) -> bool {
    num::int_abs(to.0 - from.0) > 2 || num::int_abs(to.1 - from.1) > 2
}

/// The mode that a poll decides on.
pub open spec fn decided(mode: InputMode, pad: PadState, mouse_active: bool) -> InputMode {
    if pad == PadState::Active {
        InputMode::Controller
    } else if mouse_active {
        InputMode::Keyboard
    } else {
        mode
    }
}

impl Input {
    /// Whether a poll at the time `now` is due: the first is, and later ones
    /// once the interval has passed.
    pub open spec fn is_due(self, now: u64) -> bool {
        self.first_poll || num::int_max(now - self.last_poll, 0) / 1_000_000 >= self.interval
    }

    /// The detector after a poll.
    pub open spec fn polled(self, now: u64, cursor: (i32, i32), pad: PadState) -> Input {
        if self.is_due(now) {
            Input {
                first_poll: false,
                last_poll: if pad == PadState::NotConnected { (now + BACK_OFF) as u64 } else { now },
                last_cursor: cursor,
                current: decided(
                    self.current,
                    pad,
                    self.track_mouse && has_moved(self.last_cursor, cursor),
                ),
                ..self
            }
        } else {
            self
        }
    }

    /// A detector with the interval brought into `1..=10000` milliseconds.
    pub fn new(interval_ms: u64, track_mouse: bool, now: u64, cursor: (i32, i32)) -> (r: Input)
        ensures
            r == (Input {
                interval: num::int_clamp(interval_ms as int, 1, 10_000) as u64,
                track_mouse,
                last_poll: now,
                last_cursor: cursor,
                current: InputMode::Keyboard,
                first_poll: true,
            }),
    {
        let interval: u64 = if interval_ms < 1 {
            1
        } else if interval_ms > 10_000 {
            10_000
        } else {
            interval_ms
        };
        Input {
            interval,
            track_mouse,
            last_poll: now,
            last_cursor: cursor,
            current: InputMode::Keyboard,
            first_poll: true,
        }
    }

    pub fn mode(&self) -> (r: InputMode)
        ensures
            r == self.current,
    {
        self.current
    }

    /// Whether a poll at the time `now` is due.
    pub fn due(&self, now: u64) -> (r: bool)
        ensures
            r == self.is_due(now),
    {
        if self.first_poll {
            return true;
        }
        let elapsed: u64 = if now >= self.last_poll { now - self.last_poll } else { 0 };
        elapsed / NANOS_PER_MILLI >= self.interval
    }

    /// Polls if a poll is due; returns whether the mode has changed. While no
    /// pad is connected the next poll comes later.
    pub fn poll(&mut self, now: u64, cursor: (i32, i32), pad: PadState) -> (r: bool)
        requires
            now + BACK_OFF <= u64::MAX,
        ensures
            *final(self) == old(self).polled(now, cursor, pad),
            r == (final(self).current != old(self).current),
    {
        if !self.due(now) {
            return false;
        }
        self.first_poll = false;
        self.last_poll = now;
        let dx: i64 = cursor.0 as i64 - self.last_cursor.0 as i64;
        let dy: i64 = cursor.1 as i64 - self.last_cursor.1 as i64;
        let mouse_active: bool = self.track_mouse && (dx > MOUSE_MOVE_THRESHOLD || dx
            < -MOUSE_MOVE_THRESHOLD || dy > MOUSE_MOVE_THRESHOLD || dy < -MOUSE_MOVE_THRESHOLD);
        self.last_cursor = cursor;
        let new_mode: InputMode = match pad {
            PadState::Active => InputMode::Controller,
            PadState::Idle => if mouse_active { InputMode::Keyboard } else { self.current },
            PadState::NotConnected => {
                self.last_poll = now + BACK_OFF;
                if mouse_active { InputMode::Keyboard } else { self.current }
            },
        };
        if new_mode != self.current {
            self.current = new_mode;
            true
        } else {
            false
        }
    }
}

/// The pad comes before the keyboard: with an active pad the mode is that of the
/// pad, whatever the mouse does; with an idle pad or none, a mouse that moves
/// makes it that of the keyboard, and else it stays.
pub proof fn law_pad_before_keyboard(i: Input, now: u64, cursor: (i32, i32), pad: PadState)
    requires
        i.is_due(now),
    ensures
        pad == PadState::Active ==> i.polled(now, cursor, pad).current == InputMode::Controller,
        pad != PadState::Active && i.track_mouse && has_moved(i.last_cursor, cursor) ==> i.polled(
            now,
            cursor,
            pad,
        ).current == InputMode::Keyboard,
        pad != PadState::Active && !(i.track_mouse && has_moved(i.last_cursor, cursor)) ==> i.polled(
            now,
            cursor,
            pad,
        ).current == i.current,
{
}

/// No poll comes earlier than the interval after the one before, and without a
/// pad none comes earlier than the interval and the back-off.
pub proof fn law_polls_keep_their_distance(
    i: Input,
    now: u64,
    cursor: (i32, i32),
    pad: PadState,
    later: u64,
)
    requires
        now + BACK_OFF <= u64::MAX,
        i.is_due(now),
        now <= later,
        i.polled(now, cursor, pad).is_due(later),
    ensures
        later - now >= i.interval * 1_000_000,
        pad == PadState::NotConnected && i.interval >= 1 ==> later - now >= i.interval * 1_000_000
            + BACK_OFF,
{
}

/// A pad is active exactly where a button is down, a trigger is pulled by more
/// than eight, or an axis of a stick is more than four thousand from the middle,
/// to either side.
pub proof fn law_pad_is_active_when_used(g: Gamepad)
    ensures
        (pad_state(Some(g)) == PadState::Active) == {
            ||| g.buttons != 0
            ||| g.left_trigger > 8
            ||| g.right_trigger > 8
            ||| g.thumb_lx > 4000
            ||| g.thumb_lx < -4000
            ||| g.thumb_ly > 4000
            ||| g.thumb_ly < -4000
            ||| g.thumb_rx > 4000
            ||| g.thumb_rx < -4000
            ||| g.thumb_ry > 4000
            ||| g.thumb_ry < -4000
        },
        pad_state(Some(g)) == PadState::Active || pad_state(Some(g)) == PadState::Idle,
        pad_state(None) == PadState::NotConnected,
{
}

/// A stick that is pushed the other way by as much says the same: the state is
/// that of the pad with every axis turned around.
pub proof fn law_sticks_count_both_ways(g: Gamepad, h: Gamepad)
    requires
        h.buttons == g.buttons,
        h.left_trigger == g.left_trigger,
        h.right_trigger == g.right_trigger,
        h.thumb_lx == g.thumb_lx || h.thumb_lx == -g.thumb_lx,
        h.thumb_ly == g.thumb_ly || h.thumb_ly == -g.thumb_ly,
        h.thumb_rx == g.thumb_rx || h.thumb_rx == -g.thumb_rx,
        h.thumb_ry == g.thumb_ry || h.thumb_ry == -g.thumb_ry,
    ensures
        pad_state(Some(h)) == pad_state(Some(g)),
{
}

/// With an idle pad, a mouse that is tracked takes the mode to the keyboard
/// exactly where it has moved by more than two pixels to any side since the poll
/// before; where it is not tracked the mode stays.
pub proof fn law_mouse_takes_over(i: Input, now: u64, cursor: (i32, i32), pad: PadState)
    requires
        i.is_due(now),
        pad != PadState::Active,
        i.current == InputMode::Controller,
    ensures
        (i.polled(now, cursor, pad).current == InputMode::Keyboard) == (i.track_mouse && {
            ||| cursor.0 > i.last_cursor.0 + 2
            ||| cursor.0 < i.last_cursor.0 - 2
            ||| cursor.1 > i.last_cursor.1 + 2
            ||| cursor.1 < i.last_cursor.1 - 2
        }),
{
}

/// The first poll is due at once, any other as soon as the interval has passed
/// since the last one. A poll that is not due changes nothing; one that is keeps
/// the settings, and remembers where the mouse is and when it came, or with no
/// pad nine tenths of a second later.
pub proof fn law_poll_remembers(i: Input, now: u64, cursor: (i32, i32), pad: PadState)
    requires
        now + 900_000_000 <= u64::MAX,
    ensures
        i.is_due(now) == (i.first_poll || i.interval == 0 || now >= i.last_poll + i.interval
            * 1_000_000),
        !i.is_due(now) ==> i.polled(now, cursor, pad) == i,
        i.is_due(now) ==> {
            let p = i.polled(now, cursor, pad);
            &&& p.interval == i.interval
            &&& p.track_mouse == i.track_mouse
            &&& !p.first_poll
            &&& p.last_cursor == cursor
            &&& pad != PadState::NotConnected ==> p.last_poll == now
            &&& pad == PadState::NotConnected ==> p.last_poll == now + 900_000_000
        },
{
}

} // verus!
