//! The reading side of a connection: decode what has arrived and route each frame.
use vstd::prelude::*;
use crate::codec::{EslCodec, spec_decode};
use crate::correlator::{
    Correlator, CorrelatorView, Delivery, DeliveryView, dispatch_all, spec_dispatch,
};
use crate::parser::{ReplyView, spec_any_frame, lemma_frame_takes_bytes};

verus! {

/// `frames` are the frames at the front of `b`, in order, and `rest` is what follows them.
pub open spec fn decodes_to(b: Seq<u8>, frames: Seq<ReplyView>, rest: Seq<u8>) -> bool
    decreases frames.len(),
{
    if frames.len() == 0 {
        rest == b
    } else {
        match spec_any_frame(b) {
            Some((f, n)) => f == frames[0] && 0 < n <= b.len() && decodes_to(
                b.subrange(n, b.len() as int),
                frames.drop_first(),
                rest,
            ),
            None => false,
        }
    }
}

pub proof fn lemma_decodes_to_push(b: Seq<u8>, frames: Seq<ReplyView>, mid: Seq<u8>)
    requires
        decodes_to(b, frames, mid),
        spec_any_frame(mid) is Some,
    ensures
        decodes_to(
            b,
            frames.push(spec_any_frame(mid)->Some_0.0),
            mid.subrange(spec_any_frame(mid)->Some_0.1, mid.len() as int),
        ),
    decreases frames.len(),
{
    lemma_frame_takes_bytes(mid);
    let f = spec_any_frame(mid)->Some_0.0;
    let n = spec_any_frame(mid)->Some_0.1;
    let rest = mid.subrange(n, mid.len() as int);
    if frames.len() == 0 {
        assert(mid == b);
        assert(frames.push(f).drop_first() =~= Seq::<ReplyView>::empty());
        assert(decodes_to(rest, Seq::<ReplyView>::empty(), rest));
        assert(frames.push(f)[0] == f);
    } else {
        lemma_frame_takes_bytes(b);
        let m = spec_any_frame(b)->Some_0.1;
        lemma_decodes_to_push(b.subrange(m, b.len() as int), frames.drop_first(), mid);
        assert(frames.push(f).drop_first() =~= frames.drop_first().push(f));
        assert(frames.push(f)[0] == frames[0]);
    }
}

pub proof fn lemma_dispatch_all_push(c: CorrelatorView, frames: Seq<ReplyView>, f: ReplyView)
    ensures
        dispatch_all(c, frames.push(f)) == ({
            let (c1, ds) = dispatch_all(c, frames);
            let (c2, d) = spec_dispatch(c1, f);
            (c2, ds.push(d))
        }),
    decreases frames.len(),
{
    if frames.len() == 0 {
        assert(frames.push(f).drop_first() =~= Seq::<ReplyView>::empty());
        assert(frames.push(f)[0] == f);
        let (c1, d) = spec_dispatch(c, f);
        assert(dispatch_all(c1, Seq::<ReplyView>::empty()) == (c1, Seq::<DeliveryView>::empty()));
        assert(seq![d] + Seq::<DeliveryView>::empty() =~= Seq::<DeliveryView>::empty().push(d));
    } else {
        assert(frames.push(f)[0] == frames[0]);
        let (c1, d) = spec_dispatch(c, frames[0]);
        lemma_dispatch_all_push(c1, frames.drop_first(), f);
        assert(frames.push(f).drop_first() =~= frames.drop_first().push(f));
        let (c3, ds3) = dispatch_all(c1, frames.drop_first());
        assert(seq![d] + ds3.push(spec_dispatch(c3, f).1) =~= (seq![d] + ds3).push(
            spec_dispatch(c3, f).1,
        ));
    }
}

/// Decodes every complete frame that has arrived and routes each in turn, stopping after a
/// disconnect notice or at bytes that are no frame. Returns what is owed to the waiters, in
/// order, and whether the session ended.
pub fn route_available(codec: &mut EslCodec, correlator: &mut Correlator) -> (r: (
    Vec<Delivery>,
    bool,
))
    requires
        old(correlator).wf(),
    ensures
        final(correlator).wf(),
        exists|frames: Seq<ReplyView>|
            {
                &&& decodes_to(old(codec)@, frames, final(codec)@)
                &&& dispatch_all(old(correlator)@, frames) == (
                    final(correlator)@,
                    r.0@.map_values(|d: Delivery| d@),
                )
            },
        forall|i: int| 0 <= i < r.0@.len() - 1 ==> r.0@[i]@ != DeliveryView::Stop,
        r.1 ==> (r.0@.len() > 0 && r.0@.last()@ == DeliveryView::Stop) || spec_decode(
            final(codec)@,
        ).0 is Unrecognized,
        !r.1 ==> spec_decode(final(codec)@).0 is Incomplete,
{
    let mut out: Vec<Delivery> = Vec::new();
    let ghost mut frames: Seq<ReplyView> = Seq::empty();
    loop
        invariant
            correlator.wf(),
            decodes_to(old(codec)@, frames, codec@),
            dispatch_all(old(correlator)@, frames) == (
                correlator@,
                out@.map_values(|d: Delivery| d@),
            ),
            forall|i: int| 0 <= i < out@.len() ==> out@[i]@ != DeliveryView::Stop,
        decreases codec@.len(),
    {
        let ghost before = codec@;
        proof {
            lemma_frame_takes_bytes(before);
        }
        match codec.decode() {
            Ok(None) => {
                return (out, false);
            },
            Err(_) => {
                return (out, true);
            },
            Ok(Some(frame)) => {
                proof {
                    lemma_decodes_to_push(old(codec)@, frames, before);
                    lemma_dispatch_all_push(old(correlator)@, frames, frame@);
                    frames = frames.push(frame@);
                }
                let d = correlator.dispatch(frame);
                let stop = match d {
                    Delivery::Stop => true,
                    _ => false,
                };
                let ghost prev = out@;
                out.push(d);
                assert(out@.map_values(|d: Delivery| d@) =~= prev.map_values(|d: Delivery| d@).push(
                    d@,
                ));
                if stop {
                    return (out, true);
                }
            },
        }
    }
}

} // verus!
