//! Messages exchanged between the server and its clients, and the contract of a simulation.

use std::sync::Arc;
use vstd::prelude::*;

verus! {

/// Asks the server for a client id.
#[derive(Debug, PartialEq, Eq)]
pub struct RegisterRequest {
    /// Label of the client. The server does not read it.
    pub client_name: String,
    /// True if the client takes part in the step barrier.
    pub step_participant: bool,
}

/// Tells the server that the client is done with the current step.
#[derive(Debug, PartialEq, Eq)]
pub struct StepReady {}

/// Asks the server to stop.
#[derive(Debug, PartialEq, Eq)]
pub struct Shutdown {}

/// Sets one simulation parameter.
#[derive(Debug, PartialEq, Eq)]
pub struct ParamUpdate {
    pub key: String,
    /// The new value, as the bits of an IEEE 754 single.
    pub f32_bits: u32,
}

/// A command for one actuator.
#[derive(Debug, PartialEq, Eq)]
pub struct ActuatorCmd {
    pub id: u32,
    /// The commanded value, as the bits of an IEEE 754 single.
    pub value_bits: u32,
}

/// The commands of one control cycle.
#[derive(Debug, PartialEq, Eq)]
pub struct ControlOutput {
    pub actuators: Vec<ActuatorCmd>,
}

#[derive(Debug, PartialEq, Eq)]
pub enum ClientMsgBody {
    Register(RegisterRequest),
    StepReady(StepReady),
    Shutdown(Shutdown),
    ParamUpdate(ParamUpdate),
    Control(ControlOutput),
}

/// A message from a client to the server.
#[derive(Debug, PartialEq, Eq)]
pub struct ClientMsg {
    pub client_id: u64,
    pub body: Option<ClientMsgBody>,
}

/// The id that the server gave to a client.
#[derive(Debug, Clone, Copy, PartialEq, Eq)]
pub struct RegisterResponse {
    pub client_id: u64,
}

/// Step counter and simulation time.
#[derive(Debug, Clone, Copy, PartialEq, Eq)]
pub struct Tick {
    pub seq: u64,
    /// Simulation time in seconds, as the bits of an IEEE 754 single.
    pub time_bits: u32,
}

/// A serialized observation of the simulation, shared by all the messages that carry it.
#[derive(Debug, PartialEq, Eq)]
pub struct Observation {
    pub encoded: Arc<Vec<u8>>,
}

#[derive(Debug, PartialEq, Eq)]
pub struct ErrorMsg {
    pub message: String,
}

#[derive(Debug, PartialEq, Eq)]
pub enum ServerMsgBody {
    Registered(RegisterResponse),
    Tick(Tick),
    State(Observation),
    ErrorMsg(ErrorMsg),
}

/// A message from the server to a client.
#[derive(Debug, PartialEq, Eq)]
pub struct ServerMsg {
    pub body: Option<ServerMsgBody>,
}

/// Calls `Clone::clone` of `std::sync::Arc`: the clone points to the same allocation, so it
/// stands for the same bytes.
#[verifier::external_body]
fn share(bytes: &Arc<Vec<u8>>) -> (shared: Arc<Vec<u8>>)
    ensures
        shared == *bytes,
{
    Arc::clone(bytes)
}

impl Clone for Observation {
    fn clone(&self) -> (copy: Self)
        ensures
            copy == *self,
    {
        Observation { encoded: share(&self.encoded) }
    }
}

impl Clone for ErrorMsg {
    fn clone(&self) -> (copy: Self)
        ensures
            copy == *self,
    {
        ErrorMsg { message: self.message.clone() }
    }
}

impl Clone for ServerMsgBody {
    fn clone(&self) -> (copy: Self)
        ensures
            copy == *self,
    {
        match self {
            ServerMsgBody::Registered(response) => ServerMsgBody::Registered(*response),
            ServerMsgBody::Tick(tick) => ServerMsgBody::Tick(*tick),
            ServerMsgBody::State(observation) => ServerMsgBody::State(observation.clone()),
            ServerMsgBody::ErrorMsg(error) => ServerMsgBody::ErrorMsg(error.clone()),
        }
    }
}

impl Clone for ServerMsg {
    fn clone(&self) -> (copy: Self)
        ensures
            copy == *self,
    {
        ServerMsg {
            body: match &self.body {
                Some(body) => Some(body.clone()),
                None => None,
            },
        }
    }
}

impl ServerMsg {
    /// The message that carries `tick`.
    pub open spec fn of_tick(tick: Tick) -> ServerMsg {
        ServerMsg { body: Some(ServerMsgBody::Tick(tick)) }
    }

    /// The message that tells a client its id.
    pub open spec fn of_registration(client_id: u64) -> ServerMsg {
        ServerMsg { body: Some(ServerMsgBody::Registered(RegisterResponse { client_id })) }
    }

    pub open spec fn is_tick(self) -> bool {
        self.body matches Some(ServerMsgBody::Tick(_))
    }

    pub open spec fn is_registration(self) -> bool {
        self.body matches Some(ServerMsgBody::Registered(_))
    }

    /// True if this is an error message with the text `text`.
    pub open spec fn is_error(self, text: Seq<char>) -> bool {
        self.body matches Some(ServerMsgBody::ErrorMsg(error)) && error.message@ == text
    }

    /// The message that carries `tick`.
    pub fn tick(tick: Tick) -> (msg: ServerMsg)
        ensures
            msg == ServerMsg::of_tick(tick),
    {
        ServerMsg { body: Some(ServerMsgBody::Tick(tick)) }
    }

    /// The message that tells a client its id.
    pub fn registered(client_id: u64) -> (msg: ServerMsg)
        ensures
            msg == ServerMsg::of_registration(client_id),
    {
        ServerMsg { body: Some(ServerMsgBody::Registered(RegisterResponse { client_id })) }
    }

    /// An error message with the text `message`.
    pub fn error(message: String) -> (msg: ServerMsg)
        ensures
            msg.is_error(message@),
    {
        ServerMsg { body: Some(ServerMsgBody::ErrorMsg(ErrorMsg { message })) }
    }
}

impl ClientMsg {
    pub open spec fn is_step_ready(self) -> bool {
        self.body matches Some(ClientMsgBody::StepReady(_))
    }

    pub open spec fn is_shutdown(self) -> bool {
        self.body matches Some(ClientMsgBody::Shutdown(_))
    }

    pub open spec fn is_registration(self) -> bool {
        self.body matches Some(ClientMsgBody::Register(_))
    }
}

/// Why a simulation refused a message or a step.
#[derive(Debug, PartialEq, Eq)]
pub struct SimError {
    pub message: String,
}

/// Custom simulation logic: it handles the messages that are neither registration nor barrier
/// traffic, and advances the simulated world.
///
/// Each method comes with a relation that says which outcomes are possible. An implementation
/// that does not define it promises nothing.
pub trait Simulation: Send + Sync + Sized + 'static {
    /// `post` and `reply` are a possible outcome of handling `msg` in the state `pre`.
    open spec fn handles(
        pre: Self,
        msg: ClientMsg,
        post: Self,
        reply: Result<Vec<ServerMsg>, SimError>,
    ) -> bool {
        true
    }

    /// `post` and `outcome` are a possible outcome of one step from the state `pre`.
    open spec fn steps(pre: Self, post: Self, outcome: Result<(), SimError>) -> bool {
        true
    }

    /// `tick` is a possible reading of the clock in this state.
    open spec fn shows(&self, tick: Tick) -> bool {
        true
    }

    /// Handle a message from a client. The returned messages are broadcast.
    fn handle_message(&mut self, msg: ClientMsg) -> (reply: Result<Vec<ServerMsg>, SimError>)
        ensures
            Self::handles(*old(self), msg, *final(self), reply),
    ;

    /// Advance the simulation by one step.
    fn step(&mut self) -> (outcome: Result<(), SimError>)
        ensures
            Self::steps(*old(self), *final(self), outcome),
    ;

    /// The latest tick: step counter and simulation time.
    fn get_tick(&self) -> (tick: Tick)
        ensures
            self.shows(tick),
    ;
}

/// The kind of a message is that of its body, whatever else it holds.
pub proof fn law_the_body_tells_the_kind(request: ClientMsg, event: ServerMsg)
    ensures
        request.is_step_ready() <==> (request.body matches Some(ClientMsgBody::StepReady(_))),
        request.is_shutdown() <==> (request.body matches Some(ClientMsgBody::Shutdown(_))),
        request.is_registration() <==> (request.body matches Some(ClientMsgBody::Register(_))),
        event.is_tick() <==> (event.body matches Some(ServerMsgBody::Tick(_))),
        event.is_registration() <==> (event.body matches Some(ServerMsgBody::Registered(_))),
{
}

/// A message that carries a tick, an id or an error carries exactly that.
pub proof fn law_messages_carry_what_they_say(
    tick: Tick,
    client_id: u64,
    error: ServerMsg,
    text: Seq<char>,
)
    ensures
        ServerMsg::of_tick(tick).body == Some(ServerMsgBody::Tick(tick)),
        ServerMsg::of_registration(client_id).body == Some(
            ServerMsgBody::Registered(RegisterResponse { client_id }),
        ),
        error.is_error(text) <==> (error.body matches Some(ServerMsgBody::ErrorMsg(told))
            && told.message@ == text),
{
}

} // verus!
