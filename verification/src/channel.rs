//! Control-channel dispatch and descriptor adoption.
//!
//! A completed frame payload is decoded and dispatched: only a
//! `NewPrivilegedClient` request asks for work, everything else — the
//! unexpected inbound `SetEnv` as well as every malformed payload — is
//! logged by the caller and ignored, and the channel stays registered.
//! Descriptor reception then checks the delivered count against the
//! requested one, and each delivered raw descriptor goes through the
//! adoption steps before anything else may use it.

use vstd::prelude::*;

use crate::codec::parse_msg;
use crate::codec::json_of;
use crate::codec::decode;
use crate::messages::Message;
use crate::messages::MsgModel;
use crate::messages::model_fits;

verus! {

/// What a completed frame asks the channel to do.
#[derive(Debug)]
pub enum Dispatch {
    /// Nothing: the frame was malformed, or carried a message this side
    /// only sends. The channel stays registered either way.
    Ignored,
    /// Receive `count` privileged client descriptors and relay each.
    AcceptClients { count: usize },
}

/// What a frame payload asks for, at the specification level.
pub open spec fn dispatch_of(payload: Seq<u8>) -> Dispatch {
    match parse_msg(payload) {
        Some(MsgModel::NewPrivilegedClient { count }) => Dispatch::AcceptClients {
            count: count as usize,
        },
        _ => Dispatch::Ignored,
    }
}

/// Decodes a completed frame payload and says what to do with it. No
/// payload, however malformed, makes this fatal: only read failures on the
/// socket itself tear the channel down, and the caller decides that.
pub fn dispatch_payload(payload: &Vec<u8>) -> (r: Dispatch)
    ensures
        r == dispatch_of(payload@),
{
    match decode(payload) {
        Ok(Message::NewPrivilegedClient { count }) => Dispatch::AcceptClients { count },
        Ok(Message::SetEnv { .. }) => Dispatch::Ignored,
        Err(_) => Dispatch::Ignored,
    }
}

/// Recoverability: a malformed frame is ignored without tearing the channel
/// down, and because handing out a completed payload always resets the frame
/// state, the very next well-formed frame decodes to its message.
pub proof fn lemma_recoverability(bad: Seq<u8>, m: MsgModel)
    requires
        parse_msg(bad) is None,
        model_fits(m),
    ensures
        dispatch_of(bad) == Dispatch::Ignored,
        dispatch_of(json_of(m)) == match m {
            MsgModel::NewPrivilegedClient { count } => Dispatch::AcceptClients {
                count: count as usize,
            },
            MsgModel::SetEnv { .. } => Dispatch::Ignored,
        },
{
    crate::codec::lemma_parse_msg_of_json(m);
}

/// The descriptor hand-off went out of step: the peer delivered a different
/// number of descriptors than the request announced. Continuing would
/// attribute descriptors to the wrong requests, so the caller must treat
/// this as a programming-level fatal condition, not a soft error.
#[derive(Debug)]
pub enum CountMismatch {
    Mismatch { requested: usize, received: usize },
}

/// Checks the delivered descriptor count against the requested one: accepts
/// exactly when they are equal.
pub fn check_received_count(requested: usize, received: usize) -> (r: Result<(), CountMismatch>)
    ensures
        r is Ok <==> requested == received,
        r matches Err(e) ==> e == (CountMismatch::Mismatch { requested, received }),
{
    if requested == received {
        Ok(())
    } else {
        Err(CountMismatch::Mismatch { requested, received })
    }
}

/// The sentinel value a descriptor slot holds when no descriptor was
/// delivered in it.
pub open spec fn no_descriptor() -> int {
    -1
}

/// Whether a raw descriptor value can be adopted at all.
pub open spec fn is_usable_raw(raw: i32) -> bool {
    raw != -1
}

/// First adoption step: refuse the sentinel before any system call touches
/// the value.
#[derive(Debug)]
pub enum AdoptBegin {
    /// The slot holds no descriptor; there is nothing to configure and
    /// nothing to close.
    RejectSentinel,
    /// The value may be a live descriptor: configure close-on-exec on
    /// exactly this value, then finish adoption with the outcome.
    Configure { fd: i32 },
}

/// Starts adopting a raw descriptor.
pub fn adopt_begin(raw: i32) -> (r: AdoptBegin)
    ensures
        raw == no_descriptor() <==> r is RejectSentinel,
        r matches AdoptBegin::Configure { fd } ==> fd == raw && is_usable_raw(raw),
{
    if raw == -1 {
        AdoptBegin::RejectSentinel
    } else {
        AdoptBegin::Configure { fd: raw }
    }
}

/// Second adoption step: every path either hands the descriptor over as
/// owned or orders it closed — no outcome leaves the raw value open and
/// unowned.
#[derive(Debug)]
pub enum AdoptFinish {
    /// Close-on-exec is set; the caller owns `fd` from here on.
    Adopted { fd: i32 },
    /// Configuring the flags failed; the caller must close exactly `fd`
    /// before reporting the failure.
    CloseAndFail { fd: i32 },
}

/// Finishes adoption, given whether the close-on-exec flag operation
/// succeeded on `raw`.
pub fn adopt_finish(raw: i32, cloexec_ok: bool) -> (r: AdoptFinish)
    requires
        is_usable_raw(raw),
    ensures
        cloexec_ok ==> r == (AdoptFinish::Adopted { fd: raw }),
        !cloexec_ok ==> r == (AdoptFinish::CloseAndFail { fd: raw }),
{
    if cloexec_ok {
        AdoptFinish::Adopted { fd: raw }
    } else {
        AdoptFinish::CloseAndFail { fd: raw }
    }
}

/// Complete adoption outcome for one raw descriptor slot, both steps taken
/// together.
#[derive(Debug)]
pub enum AdoptOutcome {
    /// The slot held the sentinel: nothing was open, nothing is owed.
    NothingDelivered,
    /// The caller owns `fd`.
    Owned { fd: i32 },
    /// The caller must close exactly `fd` and report a setup failure.
    MustClose { fd: i32 },
}

/// Runs both adoption steps, given the flag outcome an actual flag call on
/// `raw` would have (asked only when `raw` is usable).
pub fn adopt(raw: i32, cloexec_ok: bool) -> (r: AdoptOutcome)
    ensures
        raw == no_descriptor() <==> r is NothingDelivered,
        r matches AdoptOutcome::Owned { fd } ==> fd == raw && cloexec_ok,
        r matches AdoptOutcome::MustClose { fd } ==> fd == raw && !cloexec_ok,
        is_usable_raw(raw) && cloexec_ok ==> r == (AdoptOutcome::Owned { fd: raw }),
        is_usable_raw(raw) && !cloexec_ok ==> r == (AdoptOutcome::MustClose { fd: raw }),
{
    match adopt_begin(raw) {
        AdoptBegin::RejectSentinel => AdoptOutcome::NothingDelivered,
        AdoptBegin::Configure { fd } => match adopt_finish(fd, cloexec_ok) {
            AdoptFinish::Adopted { fd } => AdoptOutcome::Owned { fd },
            AdoptFinish::CloseAndFail { fd } => AdoptOutcome::MustClose { fd },
        },
    }
}

/// Descriptor safety: whatever raw value a slot held and however the flag
/// call went, adoption ends in exactly one of three states — the slot was
/// empty, the descriptor is owned, or that same descriptor is ordered
/// closed. There is no outcome in which a live descriptor is neither owned
/// nor closed, and no outcome ever names a different descriptor than the
/// one delivered.
pub proof fn lemma_descriptor_safety(raw: i32, cloexec_ok: bool)
    ensures
        is_usable_raw(raw) ==> (cloexec_ok ==> adopt_model(raw, cloexec_ok)
            == (AdoptOutcome::Owned { fd: raw })) && (!cloexec_ok ==> adopt_model(raw, cloexec_ok)
            == (AdoptOutcome::MustClose { fd: raw })),
        !is_usable_raw(raw) ==> adopt_model(raw, cloexec_ok) == AdoptOutcome::NothingDelivered,
{
}

/// The outcome `adopt` is specified to return.
pub open spec fn adopt_model(raw: i32, cloexec_ok: bool) -> AdoptOutcome {
    if raw == no_descriptor() {
        AdoptOutcome::NothingDelivered
    } else if cloexec_ok {
        AdoptOutcome::Owned { fd: raw }
    } else {
        AdoptOutcome::MustClose { fd: raw }
    }
}

} // verus!
