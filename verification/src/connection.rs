//! The connection rules that bind the codec and the masking transform to a
//! role: what a send places on the wire, which inbound frames a role
//! accepts, and how the closing handshake decides on each receive outcome.

use vstd::prelude::*;

use crate::frame::{spec_encode, Frame, OpCode};
use crate::mask::{mask_frame, xor_cyclic};
use crate::Error;

verus! {

/// The bytes one send places on the wire for a frame: the encoded frame,
/// and for a client additionally the raw-bytes masking of the whole
/// serialization under a fresh random mask, whatever the frame's own mask
/// field held.
pub fn prepare_send(frame: &Frame, is_client: bool) -> (r: Vec<u8>)
    ensures
        !is_client ==> r@ == spec_encode(frame@),
        is_client ==> (exists|m: Seq<u8>|
            m.len() == 4 && r@ == m + xor_cyclic(spec_encode(frame@), m)),
{
    let mut data = frame.to_bytes();
    if is_client {
        mask_frame(&mut data);
    }
    data
}

/// Enforces the role-based masking policy on an inbound frame: a server
/// accepts only masked frames, a client accepts only unmasked frames; an
/// accepted frame is handed back unchanged.
pub fn check_received(frame: Frame, is_client: bool) -> (r: Result<Frame, Error>)
    ensures
        !is_client && frame@.mask is None ==> (r matches Err(Error::Protocol(m)) && m@
            == "Client frames must be masked"@),
        is_client && frame@.mask is Some ==> (r matches Err(Error::Protocol(m)) && m@
            == "Server frames must not be masked"@),
        (is_client <==> frame@.mask is None) ==> r == Ok::<Frame, Error>(frame),
{
    if !is_client && !frame.is_masked() {
        return Err(Error::Protocol("Client frames must be masked".to_owned()));
    }
    if is_client && frame.is_masked() {
        return Err(Error::Protocol("Server frames must not be masked".to_owned()));
    }
    Ok(frame)
}

/// The decision the close sequence takes on one receive outcome.
#[derive(Debug, PartialEq, Eq)]
pub enum CloseStep {
    /// The peer's close frame, or its closing of the connection, arrived:
    /// the sequence ends successfully.
    Done,
    /// An unrelated frame arrived: it is discarded and the sequence goes on.
    Continue,
    /// Another failure: the sequence aborts with this error.
    Fail(Error),
}

/// The decision for one receive outcome: a close frame or the
/// connection-closed signal ends the sequence successfully, any other frame
/// is discarded, any other error aborts.
pub open spec fn spec_close_step(event: Result<Frame, Error>) -> CloseStep {
    match event {
        Ok(f) => if f@.opcode == OpCode::Close {
            CloseStep::Done
        } else {
            CloseStep::Continue
        },
        Err(e) => match e {
            Error::ConnectionClosed => CloseStep::Done,
            _ => CloseStep::Fail(e),
        },
    }
}

/// Decides one step of the close sequence from a receive outcome.
pub fn close_step(event: Result<Frame, Error>) -> (r: CloseStep)
    ensures
        r == spec_close_step(event),
{
    match event {
        Ok(f) => {
            if f.is_close() {
                CloseStep::Done
            } else {
                CloseStep::Continue
            }
        },
        Err(Error::ConnectionClosed) => CloseStep::Done,
        Err(e) => CloseStep::Fail(e),
    }
}

/// The outcome of running the close sequence against the receive outcomes
/// from position `i` on: the number of outcomes consumed on success, the
/// aborting error on failure, nothing when no outcome ends the sequence.
pub open spec fn spec_close_run(events: Seq<Result<Frame, Error>>, i: int) -> Option<
    Result<int, Error>,
>
    recommends
        0 <= i <= events.len(),
    decreases events.len() - i,
    when 0 <= i <= events.len()
{
    if i >= events.len() {
        None
    } else {
        match spec_close_step(events[i]) {
            CloseStep::Done => Some(Ok(i + 1)),
            CloseStep::Continue => spec_close_run(events, i + 1),
            CloseStep::Fail(e) => Some(Err(e)),
        }
    }
}

proof fn lemma_close_drains_from(events: Seq<Result<Frame, Error>>, k: int, i: int)
    requires
        0 <= i <= k < events.len(),
        forall|j: int| 0 <= j < k ==> #[trigger] spec_close_step(events[j]) == CloseStep::Continue,
        spec_close_step(events[k]) == CloseStep::Done,
    ensures
        spec_close_run(events, i) == Some(Ok::<int, Error>(k + 1)),
    decreases k - i,
{
    if i < k {
        lemma_close_drains_from(events, k, i + 1);
    }
}

/// The close sequence ends successfully exactly on the peer's close frame:
/// when the first `k` receive outcomes are unrelated frames (each is
/// discarded) and outcome `k` is a close frame or the connection-closed
/// signal, the run consumes exactly `k + 1` outcomes and succeeds. With
/// `k == 0` the peer echoed the close frame immediately and exactly that
/// frame is consumed.
pub proof fn lemma_close_drains(events: Seq<Result<Frame, Error>>, k: int)
    requires
        0 <= k < events.len(),
        forall|j: int| 0 <= j < k ==> #[trigger] spec_close_step(events[j]) == CloseStep::Continue,
        spec_close_step(events[k]) == CloseStep::Done,
    ensures
        spec_close_run(events, 0) == Some(Ok::<int, Error>(k + 1)),
{
    lemma_close_drains_from(events, k, 0);
}

} // verus!
