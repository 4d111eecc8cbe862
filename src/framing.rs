//! The per-connection framing state machine: it accumulates what the socket
//! delivers and decides after every read whether the request is complete.
use vstd::prelude::*;
use crate::header::{
    boundary_of, declared_length, declared_length_of, find_boundary, key_line_at,
    lemma_boundary_of_extension, lowered,
};

verus! {

/// Where the framing of one connection stands.
#[derive(Clone, Copy, Debug, PartialEq, Eq, Structural)]
pub enum Phase {
    /// No header terminator seen yet.
    Scanning,
    /// The terminator was found; the request is this many bytes long in all.
    LengthKnown(u128),
    /// The buffer holds the request to decode.
    Complete,
    /// The buffer grew past the size cap.
    Rejected,
    /// The peer closed the connection before the declared body arrived.
    ClosedIncomplete,
}

/// What the connection handler does after a read.
#[derive(Clone, Copy, Debug, PartialEq, Eq, Structural)]
pub enum Action {
    ReadMore,
    Decode,
    RejectTooLarge,
    FailClosed,
}

/// Total request length for a buffer whose header terminator starts at `b`:
/// the header block, the four terminator bytes and the declared body.
pub open spec fn expected_total(d: Seq<u8>, b: int) -> int {
    b + 4 + declared_length_of(d.subrange(0, b))
}

/// The phase once `d` has been scanned for the terminator.
pub open spec fn resolved_phase(d: Seq<u8>, phase: Phase) -> Phase {
    match phase {
        Phase::Scanning => match boundary_of(d) {
            Some(b) => Phase::LengthKnown(expected_total(d, b) as u128),
            None => Phase::Scanning,
        },
        _ => phase,
    }
}

/// One transition: the buffer, the phase and the action after a read of
/// `chunk` (an empty chunk: the peer closed the connection).
pub open spec fn step(cap: nat, read_size: nat, data: Seq<u8>, phase: Phase, chunk: Seq<u8>) -> (
    Seq<u8>,
    Phase,
    Action,
) {
    match phase {
        Phase::Complete => (data, phase, Action::Decode),
        Phase::Rejected => (data, phase, Action::RejectTooLarge),
        Phase::ClosedIncomplete => (data, phase, Action::FailClosed),
        _ => if chunk.len() == 0 {
            match phase {
                Phase::LengthKnown(t) => if data.len() < t {
                    (data, Phase::ClosedIncomplete, Action::FailClosed)
                } else {
                    (data, Phase::Complete, Action::Decode)
                },
                _ => (data, Phase::Complete, Action::Decode),
            }
        } else {
            let d = data + chunk;
            if d.len() > cap {
                (d, Phase::Rejected, Action::RejectTooLarge)
            } else {
                match resolved_phase(d, phase) {
                    Phase::LengthKnown(t) => if d.len() >= t {
                        (d.subrange(0, t as int), Phase::Complete, Action::Decode)
                    } else {
                        (d, Phase::LengthKnown(t), Action::ReadMore)
                    },
                    _ => if chunk.len() < read_size {
                        (d, Phase::Complete, Action::Decode)
                    } else {
                        (d, Phase::Scanning, Action::ReadMore)
                    },
                }
            }
        },
    }
}

/// The framing state of one connection.
pub struct Framer {
    /// The size cap: a buffer longer than this is rejected.
    pub max_request_size: usize,
    /// How many bytes each read asks for.
    pub read_size: usize,
    /// What has been received so far.
    pub data: Vec<u8>,
    pub phase: Phase,
}

impl Framer {
    /// While the total length is known and the request not complete, the
    /// buffer is still shorter than that total.
    pub open spec fn wf(&self) -> bool {
        self.phase matches Phase::LengthKnown(t) ==> self.data@.len() < t
    }

    pub fn new(max_request_size: usize, read_size: usize) -> (r: Framer)
        ensures
            r.wf(),
            r.max_request_size == max_request_size,
            r.read_size == read_size,
            r.data@.len() == 0,
            r.phase == Phase::Scanning,
    {
        Framer { max_request_size, read_size, data: Vec::new(), phase: Phase::Scanning }
    }

    /// Takes the bytes of one read (none: the peer closed) and says what to do next.
    pub fn on_read(&mut self, chunk: &[u8]) -> (r: Action)
        requires
            old(self).wf(),
        ensures
            final(self).wf(),
            final(self).max_request_size == old(self).max_request_size,
            final(self).read_size == old(self).read_size,
            (final(self).data@, final(self).phase, r) == step(
                old(self).max_request_size as nat,
                old(self).read_size as nat,
                old(self).data@,
                old(self).phase,
                chunk@,
            ),
    {
        match self.phase {
            Phase::Complete => return Action::Decode,
            Phase::Rejected => return Action::RejectTooLarge,
            Phase::ClosedIncomplete => return Action::FailClosed,
            _ => {},
        }
        if chunk.len() == 0 {
            if let Phase::LengthKnown(t) = self.phase {
                if (self.data.len() as u128) < t {
                    self.phase = Phase::ClosedIncomplete;
                    return Action::FailClosed;
                }
            }
            self.phase = Phase::Complete;
            return Action::Decode;
        }
        let ghost d = old(self).data@ + chunk@;
        let mut i: usize = 0;
        while i < chunk.len()
            invariant
                i <= chunk@.len(),
                self.data@ =~= old(self).data@ + chunk@.subrange(0, i as int),
                self.max_request_size == old(self).max_request_size,
                self.read_size == old(self).read_size,
                self.phase == old(self).phase,
            decreases chunk.len() - i,
        {
            self.data.push(chunk[i]);
            i = i + 1;
        }
        assert(self.data@ =~= d);
        if self.data.len() > self.max_request_size {
            self.phase = Phase::Rejected;
            return Action::RejectTooLarge;
        }
        if let Phase::Scanning = self.phase {
            if let Some(b) = find_boundary(self.data.as_slice()) {
                let header = vstd::slice::slice_subrange(self.data.as_slice(), 0, b);
                let declared = declared_length(header);
                let total: u128 = b as u128 + 4 + declared as u128;
                self.phase = Phase::LengthKnown(total);
            }
        }
        assert(self.phase == resolved_phase(d, old(self).phase));
        if let Phase::LengthKnown(t) = self.phase {
            if (self.data.len() as u128) >= t {
                self.data.truncate(t as usize);
                self.phase = Phase::Complete;
                return Action::Decode;
            }
            return Action::ReadMore;
        }
        if chunk.len() < self.read_size {
            self.phase = Phase::Complete;
            return Action::Decode;
        }
        Action::ReadMore
    }
}

/// The buffer and phase after a series of reads.
pub open spec fn feed(cap: nat, read_size: nat, data: Seq<u8>, phase: Phase, chunks: Seq<Seq<u8>>) -> (
    Seq<u8>,
    Phase,
)
    decreases chunks.len(),
{
    if chunks.len() == 0 {
        (data, phase)
    } else {
        let (d, p, a) = step(cap, read_size, data, phase, chunks[0]);
        feed(cap, read_size, d, p, chunks.drop_first())
    }
}

/// Once complete, a framer stays as it is, whatever else the peer sends.
pub proof fn lemma_complete_is_final(cap: nat, read_size: nat, data: Seq<u8>, chunk: Seq<u8>)
    ensures
        step(cap, read_size, data, Phase::Complete, chunk) == (data, Phase::Complete, Action::Decode),
{
}

proof fn lemma_feed_complete(cap: nat, read_size: nat, data: Seq<u8>, chunks: Seq<Seq<u8>>)
    ensures
        feed(cap, read_size, data, Phase::Complete, chunks) == (data, Phase::Complete),
    decreases chunks.len(),
{
    if chunks.len() > 0 {
        lemma_feed_complete(cap, read_size, data, chunks.drop_first());
    }
}

/// A read that takes the buffer past the size cap rejects the request, whether
/// or not the header terminator was found; nothing is decoded.
pub proof fn lemma_oversize_rejected(
    cap: nat,
    read_size: nat,
    data: Seq<u8>,
    phase: Phase,
    chunk: Seq<u8>,
)
    requires
        phase == Phase::Scanning || phase is LengthKnown,
        chunk.len() > 0,
        data.len() + chunk.len() > cap,
    ensures
        step(cap, read_size, data, phase, chunk).1 == Phase::Rejected,
        step(cap, read_size, data, phase, chunk).2 == Action::RejectTooLarge,
{
}

/// A request without a length line is complete as soon as its header
/// terminator has arrived: it declares no body, and the buffer is cut just
/// after the terminator.
pub proof fn lemma_no_length_line_completes_at_boundary(
    cap: usize,
    read_size: nat,
    data: Seq<u8>,
    chunk: Seq<u8>,
    b: int,
)
    requires
        chunk.len() > 0,
        data.len() + chunk.len() <= cap,
        boundary_of(data + chunk) == Some(b),
        forall|s: int| !key_line_at(lowered((data + chunk).subrange(0, b)), s),
    ensures
        declared_length_of((data + chunk).subrange(0, b)) == 0,
        step(cap as nat, read_size, data, Phase::Scanning, chunk) == (
            (data + chunk).subrange(0, b + 4),
            Phase::Complete,
            Action::Decode,
        ),
{
    let d = data + chunk;
    let c = choose|i: int| crate::header::is_boundary(d, i);
    assert(crate::header::is_boundary(d, b));
    let l = lowered(d.subrange(0, b));
    assert(!exists|s: int| crate::header::is_first_key_line(l, s));
    assert(declared_length_of(d.subrange(0, b)) == 0);
    assert(expected_total(d, b) == b + 4);
}

proof fn lemma_feed_request(
    cap: usize,
    read_size: nat,
    r: Seq<u8>,
    b: int,
    data: Seq<u8>,
    phase: Phase,
    chunks: Seq<Seq<u8>>,
)
    requires
        boundary_of(r) == Some(b),
        r.len() == expected_total(r, b),
        r.len() <= cap,
        data.len() < r.len(),
        r.subrange(0, data.len() as int) == data,
        boundary_of(data) is None ==> phase == Phase::Scanning,
        boundary_of(data) is Some ==> phase == Phase::LengthKnown(r.len() as u128),
        data + chunks.flatten() == r,
        forall|j: int| 0 <= j < chunks.len() ==> (#[trigger] chunks[j]).len() > 0,
        forall|j: int|
            0 <= j < chunks.len() && boundary_of(data + chunks.take(j + 1).flatten()) is None
                ==> (#[trigger] chunks[j]).len() >= read_size,
    ensures
        feed(cap as nat, read_size, data, phase, chunks) == (r, Phase::Complete),
    decreases chunks.len(),
{
    if chunks.len() == 0 {
        assert(data + chunks.flatten() =~= data);
        return;
    }
    let c = chunks[0];
    let rest = chunks.drop_first();
    let d = data + c;
    assert(chunks.take(1).flatten() =~= c) by {
        assert(chunks.take(1).drop_first() =~= Seq::<Seq<u8>>::empty());
        assert(chunks.take(1).drop_first().flatten() =~= Seq::<u8>::empty());
        assert(chunks.take(1).first() == c);
    }
    assert(data + chunks.take(1).flatten() =~= d);
    assert(r =~= d + rest.flatten());
    assert(r.subrange(0, d.len() as int) =~= d);
    assert(d.subrange(0, data.len() as int) =~= data);
    if let Some(bd) = boundary_of(data) {
        lemma_boundary_of_extension(data, r, bd);
        lemma_boundary_of_extension(data, d, bd);
    }
    match boundary_of(d) {
        Some(bd) => {
            lemma_boundary_of_extension(d, r, bd);
            assert(bd == b);
            assert(d.subrange(0, b) =~= r.subrange(0, b));
        },
        None => {},
    }
    let (next_data, next_phase, _action) = step(cap as nat, read_size, data, phase, c);
    if d.len() >= r.len() {
        assert(d =~= r);
        assert(boundary_of(d) == Some(b));
        assert(d.subrange(0, r.len() as int) =~= r);
        assert(next_data == r && next_phase == Phase::Complete);
        lemma_feed_complete(cap as nat, read_size, r, rest);
    } else {
        assert forall|j: int|
            0 <= j < rest.len() && boundary_of(d + rest.take(j + 1).flatten()) is None
                implies (#[trigger] rest[j]).len() >= read_size by {
            assert(chunks.take(j + 2).drop_first() =~= rest.take(j + 1));
            assert(chunks.take(j + 2)[0] == c);
            assert(data + chunks.take(j + 2).flatten() =~= d + rest.take(j + 1).flatten());
            assert(chunks[j + 1] == rest[j]);
        }
        assert(next_data == d);
        lemma_feed_request(cap, read_size, r, b, d, next_phase, rest);
    }
}

/// A request whose declared length is the true length of its body is framed
/// exactly, however its bytes are split over reads: the framer ends complete
/// with the whole request and nothing more. Reads that leave the header
/// terminator still unseen must fill the read size, since a short read there
/// ends the read loop early.
pub proof fn lemma_request_framed_exactly(
    cap: usize,
    read_size: nat,
    r: Seq<u8>,
    b: int,
    chunks: Seq<Seq<u8>>,
)
    requires
        boundary_of(r) == Some(b),
        r.len() == b + 4 + declared_length_of(r.subrange(0, b)),
        r.len() <= cap,
        chunks.flatten() == r,
        forall|j: int| 0 <= j < chunks.len() ==> (#[trigger] chunks[j]).len() > 0,
        forall|j: int|
            0 <= j < chunks.len() && boundary_of(chunks.take(j + 1).flatten()) is None
                ==> (#[trigger] chunks[j]).len() >= read_size,
    ensures
        feed(cap as nat, read_size, seq![], Phase::Scanning, chunks) == (r, Phase::Complete),
{
    let e = Seq::<u8>::empty();
    assert(boundary_of(e) is None) by {
        if boundary_of(e) is Some {
            let c = choose|i: int| crate::header::is_boundary(e, i);
        }
    }
    assert(e + chunks.flatten() =~= r);
    assert(r.subrange(0, 0) =~= e);
    assert forall|j: int|
        0 <= j < chunks.len() && boundary_of(e + chunks.take(j + 1).flatten()) is None
            implies (#[trigger] chunks[j]).len() >= read_size by {
        assert(e + chunks.take(j + 1).flatten() =~= chunks.take(j + 1).flatten());
    }
    lemma_feed_request(cap, read_size, r, b, e, Phase::Scanning, chunks);
}

/// Once the total length is known it stays fixed: a read either leaves it as
/// it was or ends the framing.
pub proof fn lemma_total_is_fixed(
    cap: nat,
    read_size: nat,
    data: Seq<u8>,
    t: u128,
    chunk: Seq<u8>,
)
    ensures
        step(cap, read_size, data, Phase::LengthKnown(t), chunk).1 == Phase::LengthKnown(t)
            || step(cap, read_size, data, Phase::LengthKnown(t), chunk).1 == Phase::Complete
            || step(cap, read_size, data, Phase::LengthKnown(t), chunk).1 == Phase::Rejected
            || step(cap, read_size, data, Phase::LengthKnown(t), chunk).1
            == Phase::ClosedIncomplete,
{
}

proof fn lemma_feed_rejected(cap: nat, read_size: nat, data: Seq<u8>, chunks: Seq<Seq<u8>>)
    ensures
        feed(cap, read_size, data, Phase::Rejected, chunks) == (data, Phase::Rejected),
    decreases chunks.len(),
{
    if chunks.len() > 0 {
        lemma_feed_rejected(cap, read_size, data, chunks.drop_first());
    }
}

proof fn lemma_feed_oversize(
    cap: nat,
    read_size: nat,
    data: Seq<u8>,
    chunks: Seq<Seq<u8>>,
)
    requires
        data.len() <= cap,
        (data + chunks.flatten()).len() > cap,
        boundary_of(data + chunks.flatten()) is None,
        forall|j: int|
            0 <= j < chunks.len() ==> (#[trigger] chunks[j]).len() > 0 && chunks[j].len()
                >= read_size,
    ensures
        feed(cap, read_size, data, Phase::Scanning, chunks).1 == Phase::Rejected,
    decreases chunks.len(),
{
    if chunks.len() == 0 {
        assert(data + chunks.flatten() =~= data);
        return;
    }
    let c = chunks[0];
    let rest = chunks.drop_first();
    let d = data + c;
    let all = data + chunks.flatten();
    assert(all =~= d + rest.flatten());
    assert(all.subrange(0, d.len() as int) =~= d);
    if let Some(bd) = boundary_of(d) {
        lemma_boundary_of_extension(d, all, bd);
    }
    if d.len() > cap {
        lemma_feed_rejected(cap, read_size, d, rest);
    } else {
        assert forall|j: int| 0 <= j < rest.len() implies (#[trigger] rest[j]).len() > 0
            && rest[j].len() >= read_size by {
            assert(rest[j] == chunks[j + 1]);
        }
        lemma_feed_oversize(cap, read_size, d, rest);
    }
}

/// A peer that keeps sending full reads without ever completing the header
/// block is rejected once the buffer passes the size cap, with no decoding:
/// the series of reads ends in the rejected phase.
pub proof fn lemma_unbounded_header_rejected(cap: nat, read_size: nat, chunks: Seq<Seq<u8>>)
    requires
        chunks.flatten().len() > cap,
        boundary_of(chunks.flatten()) is None,
        forall|j: int|
            0 <= j < chunks.len() ==> (#[trigger] chunks[j]).len() > 0 && chunks[j].len()
                >= read_size,
    ensures
        feed(cap, read_size, seq![], Phase::Scanning, chunks).1 == Phase::Rejected,
{
    let e = Seq::<u8>::empty();
    assert(e + chunks.flatten() =~= chunks.flatten());
    lemma_feed_oversize(cap, read_size, e, chunks);
}

} // verus!
