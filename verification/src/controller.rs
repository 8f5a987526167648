//! A controller: a client that does its work between two steps, for a number of cycles.

use crate::channel::{event_receives, request_sends, Receipt};
use crate::client::{law_a_client_speaks_under_its_id, Client};
use crate::interface::{ClientMsg, ClientMsgBody, ServerMsg, ServerMsgBody, StepReady, Tick};
use crate::link::{law_a_step_is_one_report_and_one_wait, ClientError};
use crate::text::{decimal, to_decimal};
use vstd::prelude::*;

verus! {

/// A controller between two cycles.
pub struct Controller {
    /// The cycles that are left.
    pub cycles: usize,
    /// How long the work of a cycle takes, in milliseconds.
    pub work_ms: u64,
    pub sim: Client,
}

/// What a controller does next.
#[derive(Debug, Clone, Copy, PartialEq, Eq)]
pub enum Cycle {
    /// The work of this tick, which takes this many milliseconds.
    Work(Tick, u64),
    /// Nothing: no cycle is left.
    Done,
    /// Nothing: the server is gone.
    Failed(ClientError),
}

/// A controller that takes part in `cycles` steps, unless the server goes away first.
pub fn spawn_controller_thread(cycles: usize, work_ms: u64, sim: Client) -> (controller: Controller)
    ensures
        controller == (Controller { cycles, work_ms, sim }),
{
    Controller { cycles, work_ms, sim }
}

impl Controller {
    /// The client of `post` is that of this controller after it has reported that it is ready
    /// and waited for the tick.
    pub open spec fn reported(self, outcome: Result<Tick, ClientError>, post: Controller) -> bool {
        self.sim.ends.sent_and_waited(
            self.sim.message(ClientMsgBody::StepReady(StepReady {  })),
            outcome,
            post.sim.ends,
        )
    }

    /// `cycle` and `post` come from this controller by its next cycle.
    pub open spec fn cycled(self, cycle: Cycle, post: Controller) -> bool {
        &&& post.work_ms == self.work_ms
        &&& self.sim.same_client(post.sim)
        &&& cycle is Done == (self.cycles == 0)
        &&& match cycle {
            Cycle::Done => post == self,
            Cycle::Work(tick, work_ms) => {
                &&& self.reported(Ok(tick), post)
                &&& work_ms == self.work_ms
                &&& post.cycles == self.cycles - 1
            },
            Cycle::Failed(error) => {
                &&& self.reported(Err(error), post)
                &&& post.cycles == 0
            },
        }
    }

    /// Waits for the next step, if a cycle is left.
    pub fn next_cycle(&mut self) -> (cycle: Cycle)
        ensures
            old(self).cycled(cycle, *final(self)),
            cycle is Done == (old(self).cycles == 0),
    {
        if self.cycles == 0 {
            return Cycle::Done;
        }
        let outcome: Result<Tick, ClientError> = self.sim.step_ready();
        match outcome {
            Ok(tick) => {
                self.cycles = self.cycles - 1;
                Cycle::Work(tick, self.work_ms)
            },
            Err(error) => {
                self.cycles = 0;
                Cycle::Failed(error)
            },
        }
    }

    /// The line that tells of the work of a tick.
    pub fn work_line(&self, tick: Tick) -> (text: String)
        ensures
            text@ == "[client: "@ + decimal(self.sim.client_id as nat) + "] doing work: "@
                + decimal(tick.seq as nat),
    {
        let mut text: String = "[client: ".to_string();
        text.append(to_decimal(self.sim.client_id).as_str());
        text.append("] doing work: ");
        text.append(to_decimal(tick.seq).as_str());
        text
    }
}

/// One cycle of a controller.
pub struct CycleStep {
    pub pre: Controller,
    pub cycle: Cycle,
    pub post: Controller,
}

/// `steps` follow one another.
pub open spec fn is_controller_run(steps: Seq<CycleStep>) -> bool {
    &&& forall|i: int|
        0 <= i < steps.len() ==> (#[trigger] steps[i]).pre.cycled(steps[i].cycle, steps[i].post)
    &&& forall|i: int, j: int|
        0 <= i < steps.len() && j == i + 1 && j < steps.len() ==> (#[trigger] steps[j]).pre == (
        #[trigger] steps[i]).post
}

/// A controller works as many cycles as it was given, and then it is done: as long as the server
/// is there, each cycle is one report, and the work of the tick that the report gave. A controller
/// whose server has gone is done at once.
pub proof fn law_a_controller_works_its_cycles(steps: Seq<CycleStep>, n: int)
    requires
        is_controller_run(steps),
        0 <= n < steps.len(),
        forall|i: int| 0 <= i < n ==> (#[trigger] steps[i]).cycle is Work,
    ensures
        ({
            let start = steps[0].pre;
            let now = steps[n].pre;
            let made = request_sends(now.sim.ends.to_server).len();
            &&& n <= start.cycles
            &&& now.cycles == start.cycles - n
            &&& now.work_ms == start.work_ms
            &&& now.sim.client_id == start.sim.client_id
            &&& made == request_sends(start.sim.ends.to_server).len() + n
            &&& match steps[n].cycle {
                Cycle::Done => n == start.cycles && steps[n].post == now,
                Cycle::Work(tick, work_ms) => {
                    let after = steps[n].post.sim.ends;
                    let sent = request_sends(after.to_server);
                    let got = event_receives(after.from_server);
                    &&& n < start.cycles
                    &&& work_ms == start.work_ms
                    &&& sent.len() == made + 1
                    &&& sent[made as int] == (
                        ClientMsg {
                            client_id: start.sim.client_id,
                            body: Some(ClientMsgBody::StepReady(StepReady {  })),
                        },
                        true,
                    )
                    &&& got.len() > event_receives(now.sim.ends.from_server).len()
                    &&& got[got.len() - 1] == Receipt::Event(
                        ServerMsg { body: Some(ServerMsgBody::Tick(tick)) },
                    )
                },
                Cycle::Failed(_) => n < start.cycles && steps[n].post.cycles == 0,
            }
        }),
    decreases n,
{
    let pre = steps[n].pre;
    assert(pre.cycled(steps[n].cycle, steps[n].post));
    if n > 0 {
        let m = n - 1;
        law_a_controller_works_its_cycles(steps, m);
        assert(steps[m].cycle is Work);
        assert(pre == steps[m].post);
        assert(steps[m].pre.cycled(steps[m].cycle, steps[m].post));
    }
    if let Cycle::Work(tick, _) = steps[n].cycle {
        law_a_step_is_one_report_and_one_wait(
            pre.sim.ends,
            pre.sim.message(ClientMsgBody::StepReady(StepReady {  })),
            Ok(tick),
            steps[n].post.sim.ends,
        );
        law_a_client_speaks_under_its_id(pre.sim, ClientMsgBody::StepReady(StepReady {  }));
    }
}

} // verus!
