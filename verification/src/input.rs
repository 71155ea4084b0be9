//! The input side of a tick: the discrete events that the player sends, and
//! the requests that they add up to. A turn is asked for once and is used up
//! by the tick that serves it; a step sideways is asked for as long as the
//! key is held.

use vstd::prelude::*;

verus! {

/// A discrete event from the input source.
#[derive(Clone, Copy, Debug, PartialEq, Eq, Structural)]
pub enum Event {
    /// Stop the game.
    Quit,
    /// Turn the piece by one quarter turn backwards.
    RotateLeft,
    /// Turn the piece by one quarter turn forwards.
    RotateRight,
    /// The key for moving left went down.
    LeftPressed,
    /// The key for moving right went down.
    RightPressed,
    /// The key for moving left came up.
    LeftReleased,
    /// The key for moving right came up.
    RightReleased,
}

/// What the player asks for at present: a turn of `rvel` quarter turns, a
/// step of `xvel` columns, and whether to stop.
#[derive(Clone, Copy, Debug, PartialEq, Eq, Structural)]
pub struct Controls {
    pub rvel: i32,
    pub xvel: i32,
    pub quit: bool,
}

/// The requests after one more event. Once the player has asked to stop,
/// later events change nothing. Letting go of a key ends the step sideways
/// only if the step goes that key's way.
pub open spec fn absorbed(c: Controls, e: Event) -> Controls {
    if c.quit {
        c
    } else {
        match e {
            Event::Quit => Controls { quit: true, ..c },
            Event::RotateLeft => Controls { rvel: -1i32, ..c },
            Event::RotateRight => Controls { rvel: 1, ..c },
            Event::LeftPressed => Controls { xvel: -1i32, ..c },
            Event::RightPressed => Controls { xvel: 1, ..c },
            Event::LeftReleased => if c.xvel < 0 {
                Controls { xvel: 0, ..c }
            } else {
                c
            },
            Event::RightReleased => if c.xvel > 0 {
                Controls { xvel: 0, ..c }
            } else {
                c
            },
        }
    }
}

/// The requests after a sequence of events, taken in their order.
pub open spec fn drained(c: Controls, events: Seq<Event>) -> Controls
    decreases events.len(),
{
    if events.len() == 0 {
        c
    } else {
        absorbed(drained(c, events.drop_last()), events.last())
    }
}

/// Whether each request is for at most one step.
pub open spec fn single_step(c: Controls) -> bool {
    -1 <= c.rvel <= 1 && -1 <= c.xvel <= 1
}

impl Controls {
    /// No request at all.
    pub fn new() -> (c: Controls)
        ensures
            c == (Controls { rvel: 0, xvel: 0, quit: false }),
    {
        Controls { rvel: 0, xvel: 0, quit: false }
    }

    /// The requests after one more event.
    pub fn absorb(&self, e: Event) -> (c: Controls)
        ensures
            c == absorbed(*self, e),
            single_step(*self) ==> single_step(c),
    {
        let mut c = *self;
        if c.quit {
            return c;
        }
        match e {
            Event::Quit => {
                c.quit = true;
            },
            Event::RotateLeft => {
                c.rvel = -1;
            },
            Event::RotateRight => {
                c.rvel = 1;
            },
            Event::LeftPressed => {
                c.xvel = -1;
            },
            Event::RightPressed => {
                c.xvel = 1;
            },
            Event::LeftReleased => {
                if c.xvel < 0 {
                    c.xvel = 0;
                }
            },
            Event::RightReleased => {
                if c.xvel > 0 {
                    c.xvel = 0;
                }
            },
        }
        c
    }

    /// The requests after all the events that are pending, taken in their
    /// order.
    pub fn drain(&self, events: &Vec<Event>) -> (c: Controls)
        ensures
            c == drained(*self, events@),
            single_step(*self) ==> single_step(c),
    {
        let mut c = *self;
        let mut i: usize = 0;
        while i < events.len()
            invariant
                0 <= i <= events.len(),
                c == drained(*self, events@.take(i as int)),
                single_step(*self) ==> single_step(c),
            decreases events.len() - i,
        {
            assert(events@.take(i + 1).drop_last() =~= events@.take(i as int));
            c = c.absorb(events[i]);
            i += 1;
        }
        assert(events@.take(i as int) =~= events@);
        c
    }

    /// The requests that are carried into the next tick: the turn has been
    /// served and is dropped, the step sideways stays as long as the key is
    /// held.
    pub fn after_tick(&self) -> (c: Controls)
        ensures
            c == (Controls { rvel: 0, ..*self }),
    {
        let mut c = *self;
        c.rvel = 0;
        c
    }
}

} // verus!
