//! A stateless simulation.

use crate::interface::{ClientMsg, ServerMsg, ServerMsgBody, SimError, Simulation, Tick};
use vstd::prelude::*;

verus! {

/// A simulation without a world of its own: it acknowledges every message, a step changes
/// nothing, and its clock stands at zero.
#[derive(Debug, Default)]
pub struct MySim;

impl MySim {
    /// The length of a step: a sixtieth of a second, as the bits of an IEEE 754 single.
    pub fn dt(&self) -> (bits: u32)
        ensures
            bits == 0x3c888889,
    {
        0x3c888889
    }
}

impl Simulation for MySim {
    open spec fn handles(
        pre: Self,
        msg: ClientMsg,
        post: Self,
        reply: Result<Vec<ServerMsg>, SimError>,
    ) -> bool {
        reply matches Ok(messages) && messages@.len() == 1 && messages@[0].is_error("OK"@)
    }

    open spec fn steps(pre: Self, post: Self, outcome: Result<(), SimError>) -> bool {
        outcome is Ok
    }

    open spec fn shows(&self, tick: Tick) -> bool {
        tick == (Tick { seq: 0, time_bits: 0 })
    }

    fn handle_message(&mut self, msg: ClientMsg) -> (reply: Result<Vec<ServerMsg>, SimError>) {
        Ok(vec![ServerMsg::error("OK".to_string())])
    }

    fn step(&mut self) -> (outcome: Result<(), SimError>) {
        Ok(())
    }

    fn get_tick(&self) -> (tick: Tick) {
        Tick { seq: 0, time_bits: 0 }
    }
}

/// The stateless simulation acknowledges every message, whatever it says, with the one text `OK`;
/// a step succeeds, and the clock stands at zero.
pub proof fn law_the_stateless_simulation_says_ok(
    pre: MySim,
    msg: ClientMsg,
    post: MySim,
    reply: Result<Vec<ServerMsg>, SimError>,
    outcome: Result<(), SimError>,
    tick: Tick,
)
    requires
        MySim::handles(pre, msg, post, reply),
        MySim::steps(pre, post, outcome),
        post.shows(tick),
    ensures
        reply matches Ok(msgs) && msgs@.len() == 1 && (msgs@[0].body matches Some(
            ServerMsgBody::ErrorMsg(error),
        ) && error.message@ == "OK"@),
        outcome is Ok,
        tick.seq == 0,
        tick.time_bits == 0,
{
}

} // verus!
