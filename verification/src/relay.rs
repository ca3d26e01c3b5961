//! The relay: path resolution, the per-direction forwarding rules, and the
//! teardown of a relay pair.
//!
//! A relay pair tunnels bytes and descriptors between a privileged client
//! and the display socket, one registered source per direction. Each
//! readiness notification yields one receive outcome; `classify_recv` turns
//! it into the action the direction must take. A forward then runs as a
//! `ForwardPass`: repeated writes until the received bytes are consumed,
//! with the ancillary descriptors attached only to the first segment.

use vstd::prelude::*;

verus! {

// --- Target path resolution ---------------------------------------------------

/// Whether a path is absolute.
pub open spec fn is_absolute(p: Seq<u8>) -> bool {
    p.len() > 0 && p[0] == 0x2f
}

/// The runtime directory joined with a relative socket name, with exactly
/// one separator between them.
pub open spec fn join_path(dir: Seq<u8>, name: Seq<u8>) -> Seq<u8> {
    if dir[dir.len() - 1] == 0x2f {
        dir + name
    } else {
        dir + seq![0x2fu8] + name
    }
}

/// Where the display socket is: the display identity itself when absolute,
/// otherwise under an absolute runtime directory, and nowhere when either
/// required value is missing or the runtime directory is not absolute.
pub open spec fn resolved_path(display: Option<Seq<u8>>, runtime_dir: Option<Seq<u8>>) -> Option<
    Seq<u8>,
> {
    match display {
        None => None,
        Some(d) => if is_absolute(d) {
            Some(d)
        } else {
            match runtime_dir {
                None => None,
                Some(rd) => if is_absolute(rd) {
                    Some(join_path(rd, d))
                } else {
                    None
                },
            }
        },
    }
}

/// View of an optional borrowed byte string.
pub open spec fn opt_view(x: Option<&Vec<u8>>) -> Option<Seq<u8>> {
    match x {
        Some(v) => Some(v@),
        None => None,
    }
}

/// A fresh copy of a byte string.
fn copy_bytes(s: &Vec<u8>) -> (r: Vec<u8>)
    ensures
        r@ == s@,
{
    let mut out: Vec<u8> = Vec::new();
    let n = s.len();
    let mut i: usize = 0;
    while i < n
        invariant
            n == s@.len(),
            i <= n,
            out@ == s@.take(i as int),
        decreases n - i,
    {
        out.push(s[i]);
        proof {
            assert(s@.take(i + 1) =~= s@.take(i as int).push(s@[i as int]));
        }
        i += 1;
    }
    proof {
        assert(s@.take(n as int) =~= s@);
    }
    out
}

/// Resolves the display-socket path from the two environment values, as
/// `resolved_path` says; a relay attempt is abandoned when this returns
/// nothing.
pub fn resolve_socket_path(display: Option<&Vec<u8>>, runtime_dir: Option<&Vec<u8>>) -> (r: Option<
    Vec<u8>,
>)
    ensures
        match r {
            Some(p) => resolved_path(opt_view(display), opt_view(runtime_dir)) == Some(p@),
            None => resolved_path(opt_view(display), opt_view(runtime_dir)) is None,
        },
{
    let d = match display {
        Some(d) => d,
        None => {
            return None;
        },
    };
    if d.len() > 0 && d[0] == 0x2f {
        return Some(copy_bytes(d));
    }
    let rd = match runtime_dir {
        Some(rd) => rd,
        None => {
            return None;
        },
    };
    if !(rd.len() > 0 && rd[0] == 0x2f) {
        return None;
    }
    let mut out = copy_bytes(rd);
    if rd[rd.len() - 1] != 0x2f {
        out.push(0x2f);
        proof {
            assert(out@ =~= rd@ + seq![0x2fu8]);
        }
    }
    let ghost base = out@;
    let n = d.len();
    let mut i: usize = 0;
    while i < n
        invariant
            n == d@.len(),
            i <= n,
            out@ == base + d@.take(i as int),
        decreases n - i,
    {
        out.push(d[i]);
        proof {
            assert(base + d@.take(i + 1) =~= (base + d@.take(i as int)).push(d@[i as int]));
        }
        i += 1;
    }
    proof {
        assert(base + d@.take(n as int) =~= base + d@);
        assert(out@ =~= join_path(rd@, d@));
    }
    Some(out)
}

// --- One direction's reaction to a receive outcome ----------------------------

/// What one receive call on the read endpoint came back with, as the caller
/// saw it: data and descriptors, a transient interruption, or any other
/// failure.
#[derive(Debug)]
pub enum RecvEvent {
    Data { bytes: Vec<u8>, fds: Vec<i32> },
    Interrupted,
    Failed,
}

/// What a direction must do after a receive.
#[derive(Debug)]
pub enum RelayAction {
    /// Forward these bytes and descriptors to the partner write handle.
    Forward { bytes: Vec<u8>, fds: Vec<i32> },
    /// Transient interruption: do nothing, stay registered, retry on the
    /// next readiness notification.
    Yield,
    /// Peer disconnect: shut down both endpoints of the pair, then remove
    /// this direction's source from the loop.
    Teardown,
}

/// The kind of action an outcome demands.
#[derive(Debug)]
pub enum ActionKind {
    ForwardKind,
    YieldKind,
    TeardownKind,
}

/// Classification at the specification level: data or descriptors mean
/// forwarding, an interruption means waiting, and an empty read — zero
/// bytes, zero descriptors — or any other failure means the peer is gone.
pub open spec fn kind_of(ev: &RecvEvent) -> ActionKind {
    match ev {
        RecvEvent::Data { bytes, fds } => if bytes@.len() > 0 || fds@.len() > 0 {
            ActionKind::ForwardKind
        } else {
            ActionKind::TeardownKind
        },
        RecvEvent::Interrupted => ActionKind::YieldKind,
        RecvEvent::Failed => ActionKind::TeardownKind,
    }
}

/// Turns one receive outcome into the direction's action, forwarding the
/// received bytes and descriptors untouched.
pub fn classify_recv(ev: RecvEvent) -> (r: RelayAction)
    ensures
        kind_of(&ev) is ForwardKind ==> (r matches RelayAction::Forward { bytes, fds } && bytes@
            == ev->Data_bytes@ && fds@ == ev->Data_fds@),
        kind_of(&ev) is YieldKind ==> r is Yield,
        kind_of(&ev) is TeardownKind ==> r is Teardown,
{
    match ev {
        RecvEvent::Data { bytes, fds } => {
            if bytes.len() > 0 || fds.len() > 0 {
                RelayAction::Forward { bytes, fds }
            } else {
                RelayAction::Teardown
            }
        },
        RecvEvent::Interrupted => RelayAction::Yield,
        RecvEvent::Failed => RelayAction::Teardown,
    }
}

// --- Teardown of a pair --------------------------------------------------------

/// Which sources of a relay pair are still registered, and whether the
/// pair's endpoints have been shut down.
pub struct PairState {
    pub client_registered: bool,
    pub server_registered: bool,
    pub endpoints_shut: bool,
}

/// The effect of one direction acting on the pair: only `Teardown` changes
/// anything — it shuts both endpoints and removes that direction's source.
pub open spec fn apply_kind(p: PairState, from_client: bool, k: ActionKind) -> PairState {
    match k {
        ActionKind::TeardownKind => PairState {
            client_registered: p.client_registered && !from_client,
            server_registered: p.server_registered && from_client,
            endpoints_shut: true,
        },
        _ => p,
    }
}

/// Teardown completeness: once one direction of a live pair observes a
/// terminal receive — an empty read or a hard failure — the pair's
/// endpoints are shut and that source leaves the loop; the opposite
/// direction's next receive on the shut endpoints is itself terminal (an
/// empty read or an error, never data), so its source leaves the loop too.
/// After those two steps no source of the pair is registered and the
/// endpoints are shut.
pub proof fn lemma_teardown_completeness(
    p: PairState,
    from_client: bool,
    ev1: &RecvEvent,
    ev2: &RecvEvent,
)
    requires
        p.client_registered && p.server_registered,
        kind_of(ev1) is TeardownKind,
        kind_of(ev2) is TeardownKind,
    ensures
        ({
            let p1 = apply_kind(p, from_client, kind_of(ev1));
            let p2 = apply_kind(p1, !from_client, kind_of(ev2));
            p1.endpoints_shut && !p2.client_registered && !p2.server_registered
                && p2.endpoints_shut
        }),
{
}

// --- Write segmentation ---------------------------------------------------------

/// What one write call on the partner handle came back with.
#[derive(Debug)]
pub enum WriteOutcome {
    /// The call accepted `n` bytes; zero means the pipe is broken.
    Wrote { n: usize },
    /// Transient interruption: nothing was consumed.
    Interrupted,
    /// Any other failure: the pipe is broken.
    Failed,
}

/// Neither bytes nor cursor nor descriptors moved.
pub open spec fn unchanged_pass(before: &ForwardPass, after: &ForwardPass) -> bool {
    after.cursor_at() == before.cursor_at() && after.fds_view() == before.fds_view()
        && after.bytes_view() == before.bytes_view()
}

/// Where a forward pass stands after a write outcome.
#[derive(Debug)]
pub enum PassStatus {
    /// Bytes remain; write the tail from `cursor` on, with no descriptors.
    InProgress,
    /// Everything was consumed.
    Done,
    /// Broken pipe: abandon the pass and remove this direction's source.
    Broken,
}

/// One logical forward operation: the received bytes, how many of them the
/// partner has accepted so far, and the descriptors still to attach — which
/// ride only on the first segment.
pub struct ForwardPass {
    bytes: Vec<u8>,
    cursor: usize,
    fds: Vec<i32>,
}

impl ForwardPass {
    /// The cursor stays within the bytes, and descriptors are only ever
    /// attached while nothing has been written.
    pub closed spec fn wf(&self) -> bool {
        self.cursor <= self.bytes@.len() && (self.fds@.len() > 0 ==> self.cursor == 0)
    }

    pub closed spec fn bytes_view(&self) -> Seq<u8> {
        self.bytes@
    }

    pub closed spec fn cursor_at(&self) -> nat {
        self.cursor as nat
    }

    pub closed spec fn fds_view(&self) -> Seq<i32> {
        self.fds@
    }

    /// Starts a pass over one receive's bytes and descriptors.
    pub fn new(bytes: Vec<u8>, fds: Vec<i32>) -> (r: ForwardPass)
        ensures
            r.wf(),
            r.bytes_view() == bytes@,
            r.cursor_at() == 0,
            r.fds_view() == fds@,
    {
        ForwardPass { bytes, cursor: 0, fds }
    }

    /// Whether all bytes have been accepted.
    pub fn is_done(&self) -> (r: bool)
        ensures
            r == (self.cursor_at() == self.bytes_view().len()),
    {
        self.cursor == self.bytes.len()
    }

    /// The received bytes, to write from `cursor()` on.
    pub fn data(&self) -> (r: &Vec<u8>)
        ensures
            r@ == self.bytes_view(),
    {
        &self.bytes
    }

    /// How many bytes the partner has accepted so far.
    pub fn cursor(&self) -> (r: usize)
        ensures
            r == self.cursor_at(),
    {
        self.cursor
    }

    /// The descriptors to attach to the next write: all of them on the
    /// first segment, none afterwards.
    pub fn fds(&self) -> (r: &Vec<i32>)
        ensures
            r@ == self.fds_view(),
    {
        &self.fds
    }

    /// Accounts for one write call on the remaining tail. A partial write
    /// advances the cursor by exactly what was accepted, so the next
    /// attempt covers exactly the remaining tail, and clears the
    /// descriptors — they were attached to the segment just written. An
    /// interruption consumes nothing, neither bytes nor descriptors. A
    /// zero-byte write or a hard failure breaks the pass off with nothing
    /// consumed.
    pub fn apply_write(&mut self, outcome: WriteOutcome) -> (r: PassStatus)
        requires
            old(self).wf(),
            old(self).cursor_at() < old(self).bytes_view().len(),
            outcome matches WriteOutcome::Wrote { n } ==> n <= old(self).bytes_view().len() - old(
                self,
            ).cursor_at(),
        ensures
            final(self).wf(),
            final(self).bytes_view() == old(self).bytes_view(),
            (final(self).cursor_at(), final(self).fds_view()) == write_step(
                old(self).cursor_at(),
                old(self).fds_view(),
                outcome,
            ),
            match outcome {
                WriteOutcome::Wrote { n } => if n == 0 {
                    r is Broken && unchanged_pass(old(self), final(self))
                } else {
                    final(self).cursor_at() == old(self).cursor_at() + n
                        && final(self).fds_view().len() == 0
                        && (if old(self).cursor_at() + n == old(self).bytes_view().len() {
                        r is Done
                    } else {
                        r is InProgress
                    })
                },
                WriteOutcome::Interrupted => r is InProgress && unchanged_pass(
                    old(self),
                    final(self),
                ),
                WriteOutcome::Failed => r is Broken && unchanged_pass(old(self), final(self)),
            },
    {
        match outcome {
            WriteOutcome::Wrote { n } => {
                if n == 0 {
                    PassStatus::Broken
                } else {
                    let total = self.bytes.len();
                    self.cursor = self.cursor + n;
                    self.fds = Vec::new();
                    if self.cursor == total {
                        PassStatus::Done
                    } else {
                        PassStatus::InProgress
                    }
                }
            },
            WriteOutcome::Interrupted => PassStatus::InProgress,
            WriteOutcome::Failed => PassStatus::Broken,
        }
    }
}

} // verus!

verus! {

/// The transition `apply_write` makes on (cursor, pending descriptors):
/// an accepted write advances the cursor by exactly what was accepted and
/// drops the descriptors; everything else moves nothing.
pub open spec fn write_step(cursor: nat, fds: Seq<i32>, oc: WriteOutcome) -> (nat, Seq<i32>) {
    match oc {
        WriteOutcome::Wrote { n } => if n == 0 {
            (cursor, fds)
        } else {
            ((cursor + n) as nat, Seq::empty())
        },
        WriteOutcome::Interrupted => (cursor, fds),
        WriteOutcome::Failed => (cursor, fds),
    }
}

/// Runs the write transition over a whole sequence of outcomes.
pub open spec fn run_writes(cursor: nat, fds: Seq<i32>, ocs: Seq<WriteOutcome>) -> (nat, Seq<i32>)
    decreases ocs.len(),
{
    if ocs.len() == 0 {
        (cursor, fds)
    } else {
        let step = write_step(cursor, fds, ocs[0]);
        run_writes(step.0, step.1, ocs.skip(1))
    }
}

/// The bytes the outcomes accepted, in total.
pub open spec fn accepted_sum(ocs: Seq<WriteOutcome>) -> nat
    decreases ocs.len(),
{
    if ocs.len() == 0 {
        0
    } else {
        (match ocs[0] {
            WriteOutcome::Wrote { n } => n as nat,
            _ => 0,
        }) + accepted_sum(ocs.skip(1))
    }
}

/// Whether any outcome accepted at least one byte.
pub open spec fn any_accepted(ocs: Seq<WriteOutcome>) -> bool
    decreases ocs.len(),
{
    if ocs.len() == 0 {
        false
    } else {
        (ocs[0] matches WriteOutcome::Wrote { n } && n > 0) || any_accepted(ocs.skip(1))
    }
}

/// Write segmentation: over any sequence of write outcomes, the cursor
/// advances by exactly the bytes the partner accepted — so each retry
/// starts exactly where the previous write stopped, covering the remaining
/// tail and nothing else — and the ancillary descriptors survive only
/// until the first accepted write: the first segment carries them all,
/// every later segment carries none.
pub proof fn lemma_write_segmentation(cursor: nat, fds: Seq<i32>, ocs: Seq<WriteOutcome>)
    ensures
        run_writes(cursor, fds, ocs).0 == cursor + accepted_sum(ocs),
        run_writes(cursor, fds, ocs).1 == if any_accepted(ocs) {
            Seq::<i32>::empty()
        } else {
            fds
        },
    decreases ocs.len(),
{
    if ocs.len() > 0 {
        let step = write_step(cursor, fds, ocs[0]);
        lemma_write_segmentation(step.0, step.1, ocs.skip(1));
    }
}

} // verus!
