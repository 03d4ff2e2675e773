//! What a server connection does with each message of its client: the
//! first one starts or joins a game; later ones authenticate once, then
//! play. Anything else closes the connection as unexpected.
use crate::protocol::{ClientMessage, GameId, GameOptions, PasscodeHash};
use vstd::prelude::*;

verus! {

/// What a connection does next.
#[derive(Clone, Copy, Debug)]
pub enum Step {
    /// Start a new game with the options.
    Create(GameOptions),
    /// Join the game with the id.
    Find(GameId),
    /// Authenticate with the passcode hash.
    Authenticate(PasscodeHash),
    /// Play the game by the message.
    Play(ClientMessage),
}

/// The step for the first message of a client: starting or joining a
/// game, or `None` (an unexpected message) for any other.
pub fn first_step(msg: ClientMessage) -> (r: Option<Step>)
    ensures
        r == match msg {
            ClientMessage::Start(o) => Some(Step::Create(o)),
            ClientMessage::Join(id) => Some(Step::Find(id)),
            _ => None::<Step>,
        },
{
    match msg {
        ClientMessage::Start(o) => Some(Step::Create(o)),
        ClientMessage::Join(id) => Some(Step::Find(id)),
        _ => None,
    }
}

/// The step for a later message of a client, `authenticated` telling
/// whether it authenticated: authenticating once, then playing; `None`
/// (an unexpected message) for starting or joining again, for
/// authenticating twice, and for playing before authenticating.
pub fn next_step(authenticated: bool, msg: ClientMessage) -> (r: Option<Step>)
    ensures
        r == match msg {
            ClientMessage::Authenticate(h) => if authenticated {
                None
            } else {
                Some(Step::Authenticate(h))
            },
            ClientMessage::Start(_) | ClientMessage::Join(_) => None,
            _ => if authenticated {
                Some(Step::Play(msg))
            } else {
                None
            },
        },
{
    match msg {
        ClientMessage::Authenticate(h) => {
            if authenticated {
                None
            } else {
                Some(Step::Authenticate(h))
            }
        },
        ClientMessage::Start(_) | ClientMessage::Join(_) => None,
        _ => {
            if authenticated {
                Some(Step::Play(msg))
            } else {
                None
            }
        },
    }
}

} // verus!
