//! The data plane: newline framing of the mesh byte streams and the central
//! router's forward-or-drop decision.
use crate::partition::PartitionSet;
use vstd::prelude::*;

verus! {

/// The byte that ends a frame.
pub const NEWLINE: u8 = 10;

/// The frames joined back into one byte stream.
pub open spec fn concat(frames: Seq<Seq<u8>>) -> Seq<u8>
    decreases frames.len(),
{
    if frames.len() == 0 {
        Seq::empty()
    } else {
        concat(frames.drop_last()) + frames.last()
    }
}

/// A frame: bytes up to and including the one newline, which ends it.
pub open spec fn is_frame(f: Seq<u8>) -> bool {
    &&& f.len() > 0
    &&& f.last() == NEWLINE
    &&& forall|i: int| 0 <= i < f.len() - 1 ==> f[i] != NEWLINE
}

pub open spec fn frames_view(v: Seq<Vec<u8>>) -> Seq<Seq<u8>> {
    v.map_values(|x: Vec<u8>| x@)
}

/// Cuts a byte stream into frames; holds the bytes of an unfinished frame until its
/// newline arrives.
pub struct LineFramer {
    pending: Vec<u8>,
}

impl LineFramer {
    /// The bytes received since the last newline.
    pub closed spec fn pending(&self) -> Seq<u8> {
        self.pending@
    }

    pub open spec fn wf(&self) -> bool {
        !self.pending().contains(NEWLINE)
    }

    pub fn new() -> (r: LineFramer)
        ensures
            r.pending() == Seq::<u8>::empty(),
            r.wf(),
    {
        LineFramer { pending: Vec::new() }
    }

    /// Feeds the bytes of one read; returns the frames that they complete, in stream
    /// order. The frames and the bytes left pending are exactly what was pending
    /// before followed by `data`.
    pub fn push(&mut self, data: &[u8]) -> (r: Vec<Vec<u8>>)
        requires
            old(self).wf(),
        ensures
            final(self).wf(),
            concat(frames_view(r@)) + final(self).pending() == old(self).pending() + data@,
            forall|i: int| 0 <= i < r@.len() ==> is_frame(#[trigger] frames_view(r@)[i]),
    {
        let ghost start = self.pending@;
        let mut r: Vec<Vec<u8>> = Vec::new();
        let mut i: usize = 0;
        while i < data.len()
            invariant
                0 <= i <= data@.len(),
                !self.pending@.contains(NEWLINE),
                concat(frames_view(r@)) + self.pending@ == start + data@.subrange(0, i as int),
                forall|k: int| 0 <= k < r@.len() ==> is_frame(#[trigger] frames_view(r@)[k]),
            decreases data@.len() - i,
        {
            let byte = data[i];
            let ghost before = self.pending@;
            self.pending.push(byte);
            assert(data@.subrange(0, i + 1) == data@.subrange(0, i as int).push(byte));
            if byte == NEWLINE {
                let mut frame: Vec<u8> = Vec::new();
                std::mem::swap(&mut frame, &mut self.pending);
                let ghost old_r = r@;
                r.push(frame);
                proof {
                    assert(frames_view(r@) =~= frames_view(old_r).push(frame@));
                    assert(frames_view(old_r).push(frame@).drop_last() == frames_view(old_r));
                    assert(is_frame(frame@)) by {
                        assert forall|j: int| 0 <= j < frame@.len() - 1 implies frame@[j]
                            != NEWLINE by {
                            assert(frame@[j] == before[j]);
                        }
                    }
                    assert forall|k: int| 0 <= k < r@.len() implies is_frame(
                        #[trigger] frames_view(r@)[k],
                    ) by {
                        if k < old_r.len() {
                            assert(frames_view(r@)[k] == frames_view(old_r)[k]);
                        }
                    }
                    assert(self.pending@ =~= Seq::<u8>::empty());
                    assert(concat(frames_view(r@)) == concat(frames_view(old_r)) + frame@);
                    assert(frame@ == before.push(byte));
                    assert(concat(frames_view(r@)) + self.pending@ =~= (concat(frames_view(old_r))
                        + before).push(byte));
                }
            } else {
                proof {
                    assert(concat(frames_view(r@)) + self.pending@ =~= (concat(frames_view(r@))
                        + before).push(byte));
                    assert forall|j: int| 0 <= j < self.pending@.len() implies self.pending@[j]
                        != NEWLINE by {
                        if j < before.len() {
                            assert(self.pending@[j] == before[j]);
                        }
                    }
                }
            }
            i += 1;
        }
        assert(data@.subrange(0, data@.len() as int) == data@);
        r
    }
}

/// A frame received on the mesh port `src_port`, bound for the paired port `dst_port`.
#[derive(Clone, Debug, PartialEq, Eq)]
pub struct IngressFrame {
    pub src_port: u64,
    pub dst_port: u64,
    pub bytes: Vec<u8>,
}

/// The frames that the router forwards, in the order it received them.
pub open spec fn forwarded(partitions: Set<u64>, frames: Seq<IngressFrame>) -> Seq<IngressFrame>
    decreases frames.len(),
{
    if frames.len() == 0 {
        Seq::empty()
    } else {
        let rest = forwarded(partitions, frames.drop_last());
        if partitions.contains(frames.last().src_port) {
            rest
        } else {
            rest.push(frames.last())
        }
    }
}

/// The frames received on `port`, in order.
pub open spec fn from_source(port: u64, frames: Seq<IngressFrame>) -> Seq<IngressFrame>
    decreases frames.len(),
{
    if frames.len() == 0 {
        Seq::empty()
    } else {
        let rest = from_source(port, frames.drop_last());
        if frames.last().src_port == port {
            rest.push(frames.last())
        } else {
            rest
        }
    }
}

/// Forwards `frame` to its destination unless its source port is partitioned, in
/// which case it is dropped.
pub fn route(partitions: &PartitionSet, frame: IngressFrame) -> (r: Option<IngressFrame>)
    ensures
        r == (if partitions@.contains(frame.src_port) {
            None
        } else {
            Some(frame)
        }),
{
    if partitions.contains(frame.src_port) {
        None
    } else {
        Some(frame)
    }
}

/// Routes a run of frames in arrival order; returns those forwarded, in that order.
pub fn route_all(partitions: &PartitionSet, frames: Vec<IngressFrame>) -> (r: Vec<IngressFrame>)
    ensures
        r@ == forwarded(partitions@, frames@),
{
    let mut rest = frames;
    let mut r: Vec<IngressFrame> = Vec::new();
    let ghost all = rest@;
    let ghost mut done: int = 0;
    while rest.len() > 0
        invariant
            0 <= done <= all.len(),
            rest@ == all.subrange(done, all.len() as int),
            r@ == forwarded(partitions@, all.subrange(0, done)),
        decreases rest@.len(),
    {
        let f = rest.remove(0);
        proof {
            assert(all.subrange(0, done + 1).drop_last() == all.subrange(0, done));
            assert(all.subrange(0, done + 1).last() == f);
            done = done + 1;
            assert(rest@ =~= all.subrange(done, all.len() as int));
        }
        if let Some(g) = route(partitions, f) {
            r.push(g);
        }
    }
    assert(all.subrange(0, all.len() as int) == all);
    r
}

/// Per-source order is kept: when a source port is not partitioned, the frames it
/// sent come out of the router all, and in the order they were read.
pub proof fn lemma_source_order_kept(partitions: Set<u64>, port: u64, frames: Seq<IngressFrame>)
    requires
        !partitions.contains(port),
    ensures
        from_source(port, forwarded(partitions, frames)) == from_source(port, frames),
    decreases frames.len(),
{
    if frames.len() > 0 {
        lemma_source_order_kept(partitions, port, frames.drop_last());
        let rest = forwarded(partitions, frames.drop_last());
        if !partitions.contains(frames.last().src_port) {
            assert(rest.push(frames.last()).drop_last() == rest);
        }
    }
}

/// Every frame that comes out of the router was received on a port that is not
/// partitioned, and a frame received on a partitioned port never comes out.
pub proof fn lemma_forwarded_only_unpartitioned(partitions: Set<u64>, frames: Seq<IngressFrame>)
    ensures
        forall|i: int|
            0 <= i < forwarded(partitions, frames).len() ==> !partitions.contains(
                #[trigger] forwarded(partitions, frames)[i].src_port,
            ),
        forall|p: u64| partitions.contains(p) ==> #[trigger] from_source(p, forwarded(partitions, frames)).len() == 0,
    decreases frames.len(),
{
    if frames.len() > 0 {
        lemma_forwarded_only_unpartitioned(partitions, frames.drop_last());
        let rest = forwarded(partitions, frames.drop_last());
        assert forall|p: u64| partitions.contains(p) implies #[trigger] from_source(p, forwarded(partitions, frames)).len() == 0 by {
            assert(from_source(p, rest).len() == 0);
            if !partitions.contains(frames.last().src_port) {
                assert(rest.push(frames.last()).drop_last() == rest);
            }
        }
    }
}

} // verus!
