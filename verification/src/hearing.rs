//! Hearing frame after frame: what either end of a connection, and whatever
//! is built on one, comes to when it reads what the other end wrote.

use vstd::prelude::*;

use crate::error::ErrorView;
use crate::method::{frame_of_method, method_bytes, MethodView};
use crate::wire::{
    frame_in, law_frame_round_trips, lemma_nothing, lemma_width, refused_left, FrameView, MAX_FRAME,
};

verus! {

/// What hearing a frame comes to, as contracts speak of it: bytes to write
/// first, then what is next.
pub struct Said<N> {
    pub write: Seq<u8>,
    pub next: N,
}

/// A state that hears a frame, or that the peer closed.
pub trait Hears: Sized {
    /// What comes next.
    type Next;

    /// What the state is after hearing, and what it says.
    spec fn hears(self, heard: Option<FrameView>) -> (Self, Said<Self::Next>);

    /// That the next frame is to be read.
    spec fn reads_on() -> Self::Next;

    /// That hearing failed.
    spec fn failed(error: ErrorView) -> Self::Next;
}

/// What the peer's frames in `bytes` come to, heard one after the other
/// until something comes of them: the state, what it says in all and what is
/// next, and the bytes left unread.
#[verifier::opaque]
pub open spec fn reads_all<S: Hears>(state: S, bytes: Seq<u8>) -> (S, Said<S::Next>, Seq<u8>)
    decreases bytes.len(),
{
    if bytes.len() == 0 {
        (state, Said { write: Seq::empty(), next: S::reads_on() }, bytes)
    } else {
        match frame_in(bytes) {
            Err(error) => (
                state,
                Said { write: Seq::empty(), next: S::failed(error) },
                refused_left(bytes),
            ),
            Ok((heard, rest)) => {
                let (after, said) = state.hears(heard);
                if said.next == S::reads_on() {
                    let (last, later, left) = reads_all(after, rest);
                    (last, Said { write: said.write + later.write, next: later.next }, left)
                } else {
                    (after, said, rest)
                }
            },
        }
    }
}

/// What a state comes to that heard one frame and has `rest` to read.
pub open spec fn follows<S: Hears>(heard: (S, Said<S::Next>), rest: Seq<u8>) -> (
    S,
    Said<S::Next>,
    Seq<u8>,
) {
    let (state, said) = heard;
    if said.next == S::reads_on() {
        let (last, later, left) = reads_all(state, rest);
        (last, Said { write: said.write + later.write, next: later.next }, left)
    } else {
        (state, said, rest)
    }
}

/// A method that fits a frame is read as its frame, and what follows it is
/// left.
pub(crate) proof fn lemma_method_is_framed(method: MethodView, channel: u16, rest: Seq<u8>)
    requires
        method.arguments.len() + 4 <= MAX_FRAME,
    ensures
        (method_bytes(method, channel) + rest).len() > 0,
        frame_in(method_bytes(method, channel) + rest) == Ok::<
            (Option<FrameView>, Seq<u8>),
            ErrorView,
        >((Some(frame_of_method(method, channel)), rest)),
{
    lemma_width(method.id.0 as nat, 2);
    lemma_width(method.id.1 as nat, 2);
    law_frame_round_trips(frame_of_method(method, channel), rest);
}

/// A method that was written is heard as its frame, and then what follows it
/// is read.
pub(crate) proof fn lemma_reads_method<S: Hears>(
    state: S,
    method: MethodView,
    channel: u16,
    rest: Seq<u8>,
)
    requires
        method.arguments.len() + 4 <= MAX_FRAME,
    ensures
        reads_all(state, method_bytes(method, channel) + rest) == follows(
            state.hears(Some(frame_of_method(method, channel))),
            rest,
        ),
{
    reveal(reads_all);
    lemma_method_is_framed(method, channel, rest);
}

/// Where there is nothing to read, nothing is said, and reading goes on.
pub(crate) proof fn lemma_reads_nothing<S: Hears>(state: S)
    ensures
        reads_all(state, Seq::empty()) == (
            state,
            Said { write: Seq::empty(), next: S::reads_on() },
            Seq::<u8>::empty(),
        ),
{
    reveal(reads_all);
}

/// One method that was written, and nothing after it, is heard as its frame.
pub(crate) proof fn lemma_reads_one<S: Hears>(state: S, method: MethodView, channel: u16)
    requires
        method.arguments.len() + 4 <= MAX_FRAME,
    ensures
        reads_all(state, method_bytes(method, channel)) == {
            let (after, said) = state.hears(Some(frame_of_method(method, channel)));
            (after, said, Seq::<u8>::empty())
        },
{
    let (after, said) = state.hears(Some(frame_of_method(method, channel)));
    lemma_reads_method(state, method, channel, Seq::empty());
    lemma_reads_nothing(after);
    lemma_nothing(method_bytes(method, channel));
    lemma_nothing(said.write);
}

} // verus!
