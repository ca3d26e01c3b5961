//! The environment snapshot sent in the handshake.
//!
//! The snapshot always carries the display-socket identity — its absence is
//! fatal at startup — and forwards up to three optional legacy values
//! verbatim when they are present. The caller reads the process environment
//! and hands the raw values in; this module decides what the snapshot holds.

use vstd::prelude::*;

use crate::messages::Message;
use crate::messages::vars_view;

verus! {

/// The bytes of `WAYLAND_DISPLAY`.
pub open spec fn key_wayland_display() -> Seq<u8> {
    seq![0x57, 0x41, 0x59, 0x4c, 0x41, 0x4e, 0x44, 0x5f, 0x44, 0x49, 0x53, 0x50, 0x4c, 0x41, 0x59]
}

/// The bytes of `DISPLAY`.
pub open spec fn key_display() -> Seq<u8> {
    seq![0x44, 0x49, 0x53, 0x50, 0x4c, 0x41, 0x59]
}

/// The bytes of `SWAYSOCK`.
pub open spec fn key_swaysock() -> Seq<u8> {
    seq![0x53, 0x57, 0x41, 0x59, 0x53, 0x4f, 0x43, 0x4b]
}

/// The bytes of `NIRI_SOCKET`.
pub open spec fn key_niri_socket() -> Seq<u8> {
    seq![0x4e, 0x49, 0x52, 0x49, 0x5f, 0x53, 0x4f, 0x43, 0x4b, 0x45, 0x54]
}

/// An optional member of the snapshot: present exactly when the value is.
pub open spec fn opt_entry(key: Seq<u8>, value: Option<Seq<u8>>) -> Seq<(Seq<u8>, Seq<u8>)> {
    match value {
        Some(v) => seq![(key, v)],
        None => Seq::empty(),
    }
}

/// The snapshot's contents, in a fixed order: the display identity first,
/// then whichever legacy values are present.
pub open spec fn snapshot_model(
    wayland: Seq<u8>,
    display: Option<Seq<u8>>,
    swaysock: Option<Seq<u8>>,
    niri: Option<Seq<u8>>,
) -> Seq<(Seq<u8>, Seq<u8>)> {
    seq![(key_wayland_display(), wayland)] + opt_entry(key_display(), display) + opt_entry(
        key_swaysock(),
        swaysock,
    ) + opt_entry(key_niri_socket(), niri)
}

/// The display-socket identity is missing from the environment: a fatal
/// startup condition.
#[derive(Debug)]
pub enum SnapshotError {
    MissingDisplayIdentity,
}

/// View of an optional owned byte string.
pub open spec fn opt_val(x: &Option<Vec<u8>>) -> Option<Seq<u8>> {
    match x {
        Some(v) => Some(v@),
        None => None,
    }
}

/// Builds the handshake message from the raw environment values: fails
/// exactly when the display identity is absent, and otherwise yields
/// `SetEnv` over precisely the snapshot contents.
pub fn get_env(
    wayland: Option<Vec<u8>>,
    display: Option<Vec<u8>>,
    swaysock: Option<Vec<u8>>,
    niri: Option<Vec<u8>>,
) -> (r: Result<Message, SnapshotError>)
    ensures
        wayland is None <==> r == Err::<Message, SnapshotError>(
            SnapshotError::MissingDisplayIdentity,
        ),
        r matches Ok(m) ==> m is SetEnv && vars_view(m->SetEnv_variables@) == snapshot_model(
            wayland->0@,
            opt_val(&display),
            opt_val(&swaysock),
            opt_val(&niri),
        ),
{
    let w = match wayland {
        Some(w) => w,
        None => {
            return Err(SnapshotError::MissingDisplayIdentity);
        },
    };
    let ghost w_view = w@;
    let ghost d_view = opt_val(&display);
    let ghost s_view = opt_val(&swaysock);
    let ghost n_view = opt_val(&niri);
    let mut variables: Vec<(Vec<u8>, Vec<u8>)> = Vec::new();
    let kw: Vec<u8> = vec![
        0x57, 0x41, 0x59, 0x4c, 0x41, 0x4e, 0x44, 0x5f, 0x44, 0x49, 0x53, 0x50, 0x4c, 0x41,
        0x59,
    ];
    proof {
        assert(kw@ =~= key_wayland_display());
    }
    variables.push((kw, w));
    if let Some(d) = display {
        let kd: Vec<u8> = vec![0x44, 0x49, 0x53, 0x50, 0x4c, 0x41, 0x59];
        proof {
            assert(kd@ =~= key_display());
        }
        variables.push((kd, d));
    }
    if let Some(s) = swaysock {
        let ks: Vec<u8> = vec![0x53, 0x57, 0x41, 0x59, 0x53, 0x4f, 0x43, 0x4b];
        proof {
            assert(ks@ =~= key_swaysock());
        }
        variables.push((ks, s));
    }
    if let Some(n) = niri {
        let kn: Vec<u8> = vec![0x4e, 0x49, 0x52, 0x49, 0x5f, 0x53, 0x4f, 0x43, 0x4b, 0x45, 0x54];
        proof {
            assert(kn@ =~= key_niri_socket());
        }
        variables.push((kn, n));
    }
    proof {
        assert(vars_view(variables@) =~= snapshot_model(w_view, d_view, s_view, n_view));
    }
    Ok(Message::SetEnv { variables })
}

} // verus!
