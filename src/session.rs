//! What a subscriber is sent: while the initial build runs, a `Building`
//! marker first; then one `Initialize` picture of the graph; then every
//! update broadcast after it.

use vstd::prelude::*;
use crate::notes::{Initialize, NoteData, NoteUpdate};

verus! {

pub enum WebsocketMessage {
    Building,
    Initialize(Initialize),
    Update(Vec<NoteData>),
    Remove(Vec<u128>),
}

/// The message a subscriber gets on connecting, before its picture of the
/// graph: the `Building` marker while the initial build has not finished,
/// nothing afterwards.
pub fn opening_message(build_finished: bool) -> (r: Option<WebsocketMessage>)
    ensures
        !build_finished <==> r is Some,
        r is Some ==> r->Some_0 is Building,
{
    if build_finished {
        None
    } else {
        Some(WebsocketMessage::Building)
    }
}

/// The picture of the graph, as a message.
pub fn initialize_message(snapshot: Initialize) -> (r: WebsocketMessage)
    ensures
        r == WebsocketMessage::Initialize(snapshot),
{
    WebsocketMessage::Initialize(snapshot)
}

/// A broadcast update, as a message.
pub fn forward(update: NoteUpdate) -> (r: WebsocketMessage)
    ensures
        match update {
            NoteUpdate::Update(v) => r == WebsocketMessage::Update(v),
            NoteUpdate::Remove(v) => r == WebsocketMessage::Remove(v),
        },
{
    match update {
        NoteUpdate::Update(v) => WebsocketMessage::Update(v),
        NoteUpdate::Remove(v) => WebsocketMessage::Remove(v),
    }
}

} // verus!
