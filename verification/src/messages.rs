//! Control-channel messages and their mathematical model.
//!
//! A control message is either the outbound environment handshake (`SetEnv`)
//! or an inbound request to take over `count` privileged client connections
//! (`NewPrivilegedClient`). Environment variables are kept as byte strings in
//! wire order; the well-formedness of a snapshot (unique keys) is stated
//! separately where it matters.

use vstd::prelude::*;

verus! {

/// Spec-level value of a control message: variables as pairs of byte
/// sequences in wire order, the client count as an unbounded natural.
pub enum MsgModel {
    SetEnv { vars: Seq<(Seq<u8>, Seq<u8>)> },
    NewPrivilegedClient { count: nat },
}

/// A decoded control message. `variables` holds `(key, value)` pairs in the
/// order they appear on the wire.
#[derive(Debug)]
pub enum Message {
    SetEnv { variables: Vec<(Vec<u8>, Vec<u8>)> },
    NewPrivilegedClient { count: usize },
}

/// View of a sequence of executable variable pairs as their byte-sequence model.
pub open spec fn vars_view(vars: Seq<(Vec<u8>, Vec<u8>)>) -> Seq<(Seq<u8>, Seq<u8>)> {
    vars.map_values(|p: (Vec<u8>, Vec<u8>)| (p.0@, p.1@))
}

impl Message {
    /// The mathematical value this message denotes.
    pub open spec fn model(&self) -> MsgModel {
        match self {
            Message::SetEnv { variables } => MsgModel::SetEnv { vars: vars_view(variables@) },
            Message::NewPrivilegedClient { count } => MsgModel::NewPrivilegedClient {
                count: *count as nat,
            },
        }
    }
}

/// Every count a `Message` can hold fits in `usize`; a model parsed off the
/// wire satisfies the same bound before it is turned back into a `Message`.
pub open spec fn model_fits(m: MsgModel) -> bool {
    match m {
        MsgModel::SetEnv { .. } => true,
        MsgModel::NewPrivilegedClient { count } => count <= usize::MAX as nat,
    }
}

/// Decoding failure: the payload is not a well-formed frame of a recognized
/// shape (covers invalid text, malformed structure and unknown tags alike).
#[derive(Debug)]
pub enum DecodeError {
    Protocol,
}

/// Byte-wise equality of two byte vectors.
pub fn bytes_eq(a: &Vec<u8>, b: &Vec<u8>) -> (r: bool)
    ensures
        r == (a@ == b@),
{
    if a.len() != b.len() {
        assert(a@ != b@);
        return false;
    }
    let n = a.len();
    let mut i: usize = 0;
    while i < n
        invariant
            n == a@.len() == b@.len(),
            i <= n,
            forall|j: int| 0 <= j < i ==> a@[j] == b@[j],
        decreases n - i,
    {
        if a[i] != b[i] {
            return false;
        }
        i += 1;
    }
    proof {
        assert(a@ =~= b@);
    }
    true
}

/// Structural equality of two messages, compared by their models.
pub fn message_eq(a: &Message, b: &Message) -> (r: bool)
    ensures
        r == (a.model() == b.model()),
{
    match a {
        Message::SetEnv { variables: va } => match b {
            Message::SetEnv { variables: vb } => {
            if va.len() != vb.len() {
                assert(vars_view(va@).len() != vars_view(vb@).len());
                return false;
            }
            let n = va.len();
            let mut i: usize = 0;
            while i < n
                invariant
                    n == va@.len() == vb@.len(),
                    i <= n,
                    a.model() == (MsgModel::SetEnv { vars: vars_view(va@) }),
                    b.model() == (MsgModel::SetEnv { vars: vars_view(vb@) }),
                    forall|j: int| 0 <= j < i ==> vars_view(va@)[j] == vars_view(vb@)[j],
                decreases n - i,
            {
                let (ka, la) = &va[i];
                let (kb, lb) = &vb[i];
                if !bytes_eq(ka, kb) || !bytes_eq(la, lb) {
                    proof {
                        assert(vars_view(va@)[i as int] != vars_view(vb@)[i as int]);
                    }
                    return false;
                }
                i += 1;
            }
            proof {
                assert(vars_view(va@) =~= vars_view(vb@));
            }
            true
            },
            Message::NewPrivilegedClient { .. } => false,
        },
        Message::NewPrivilegedClient { count: ca } => match b {
            Message::NewPrivilegedClient { count: cb } => ca == cb,
            Message::SetEnv { .. } => false,
        },
    }
}

} // verus!
