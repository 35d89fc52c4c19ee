//! Matching decoded frames to the callers that wait for them.
use vstd::prelude::*;
use vstd::string::StringSliceAdditionalSpecFns;
use crate::headers::{HeaderMap, lookup};
use crate::jobs::{
    job_table, new_table, insert_entry, has_entry, remove_entry, entry_count, entry_values, clear_entries,
};
use dashmap::DashMap;
use crate::parser::{
    Code, CommandAndApiReplyBody, FreeswitchReply, ReplyBodyView, ReplyView, EventView,
    command_reply_type, content_type_name,
};

verus! {

/// A waiter: the caller that the application set up to receive one reply.
pub type Ticket = u64;

/// What the connection owes a waiter after one frame.
#[derive(Debug)]
pub enum Delivery {
    /// Fulfil the oldest pending waiter with this reply.
    Reply(Ticket, CommandAndApiReplyBody),
    /// Fulfil the waiter of a background job or an application with this frame.
    Job(Ticket, FreeswitchReply),
    /// An informational event that no waiter asked for: handed on, for an event sink.
    Unmatched(FreeswitchReply),
    /// The frame resolves no waiter.
    Nothing,
    /// The switch closed the session: the reading loop ends.
    Stop,
}

pub enum DeliveryView {
    Reply(Ticket, ReplyBodyView),
    Job(Ticket, ReplyView),
    Unmatched(ReplyView),
    Nothing,
    Stop,
}

impl View for Delivery {
    type V = DeliveryView;

    open spec fn view(&self) -> DeliveryView {
        match self {
            Delivery::Reply(t, b) => DeliveryView::Reply(*t, b@),
            Delivery::Job(t, f) => DeliveryView::Job(*t, f@),
            Delivery::Unmatched(f) => DeliveryView::Unmatched(f@),
            Delivery::Nothing => DeliveryView::Nothing,
            Delivery::Stop => DeliveryView::Stop,
        }
    }
}

pub struct CorrelatorView {
    /// Waiters for uncorrelated replies, oldest first.
    pub pending: Seq<Ticket>,
    /// Waiters keyed by correlation id.
    pub jobs: Map<Seq<u8>, Ticket>,
}

pub open spec fn event_name() -> Seq<u8> {
    "Event-Name".spec_bytes()
}

pub open spec fn job_uuid_name() -> Seq<u8> {
    "Job-UUID".spec_bytes()
}

pub open spec fn application_uuid_name() -> Seq<u8> {
    "Application-UUID".spec_bytes()
}

pub open spec fn background_job() -> Seq<u8> {
    "BACKGROUND_JOB".spec_bytes()
}

pub open spec fn execute_complete() -> Seq<u8> {
    "CHANNEL_EXECUTE_COMPLETE".spec_bytes()
}

pub open spec fn channel_data() -> Seq<u8> {
    "CHANNEL_DATA".spec_bytes()
}

/// A reply that carries only these headers.
pub open spec fn headers_reply(h: Seq<(Seq<u8>, Seq<u8>)>) -> ReplyBodyView {
    ReplyBodyView {
        headers: h,
        code: Code::Success,
        marked: false,
        reply_text: Seq::empty(),
        job_uuid: None,
    }
}

/// Hands `b` to the oldest pending waiter, if there is one.
pub open spec fn to_oldest(c: CorrelatorView, b: ReplyBodyView) -> (CorrelatorView, DeliveryView) {
    if c.pending.len() > 0 {
        (
            CorrelatorView { pending: c.pending.drop_first(), jobs: c.jobs },
            DeliveryView::Reply(c.pending[0], b),
        )
    } else {
        (c, DeliveryView::Nothing)
    }
}

/// Hands `f` to the waiter registered under `id`, if there is one.
pub open spec fn to_job(c: CorrelatorView, id: Seq<u8>, f: ReplyView) -> (
    CorrelatorView,
    DeliveryView,
) {
    if c.jobs.contains_key(id) {
        (
            CorrelatorView { pending: c.pending, jobs: c.jobs.remove(id) },
            DeliveryView::Job(c.jobs[id], f),
        )
    } else {
        (c, DeliveryView::Nothing)
    }
}

/// The routing rule: which waiter, if any, a frame resolves, and the state after it.
pub open spec fn spec_dispatch(c: CorrelatorView, f: ReplyView) -> (CorrelatorView, DeliveryView) {
    match f {
        ReplyView::AuthRequest => to_oldest(c, headers_reply(Seq::empty())),
        ReplyView::CommandAndApiReply(b) => to_oldest(c, b),
        ReplyView::DisconnectNotice(_) => (c, DeliveryView::Stop),
        ReplyView::Event(e) => {
            let name = lookup(e.headers, event_name());
            if name == Some(background_job()) && lookup(e.headers, job_uuid_name()) is Some {
                to_job(c, lookup(e.headers, job_uuid_name())->Some_0, f)
            } else if name == Some(execute_complete()) && lookup(
                e.headers,
                application_uuid_name(),
            ) is Some {
                to_job(
                    c,
                    lookup(e.headers, application_uuid_name())->Some_0,
                    ReplyView::CommandAndApiReply(
                        ReplyBodyView {
                            headers: e.headers,
                            code: e.code,
                            marked: false,
                            reply_text: e.body,
                            job_uuid: None,
                        },
                    ),
                )
            } else if name == Some(channel_data()) && lookup(e.headers, content_type_name())
                == Some(command_reply_type()) {
                to_oldest(c, headers_reply(e.headers))
            } else if name == Some(background_job()) || name == Some(execute_complete()) || name
                == Some(channel_data()) {
                (c, DeliveryView::Nothing)
            } else {
                (c, DeliveryView::Unmatched(f))
            }
        },
    }
}

/// `after` is `before` with `t` newly registered under an id that had no waiter.
pub open spec fn registered_fresh(
    before: CorrelatorView,
    after: CorrelatorView,
    id: Seq<u8>,
    t: Ticket,
) -> bool {
    &&& !before.jobs.contains_key(id)
    &&& after.jobs == before.jobs.insert(id, t)
    &&& after.pending == before.pending
}

/// The state shared by the reading loop and the callers: pending replies and registered jobs.
pub struct Correlator {
    pending: Vec<Ticket>,
    jobs: DashMap<Vec<u8>, Ticket>,
}

impl View for Correlator {
    type V = CorrelatorView;

    closed spec fn view(&self) -> CorrelatorView {
        CorrelatorView {
            pending: self.pending@,
            jobs: job_table(self.jobs),
        }
    }
}

impl Correlator {
    /// The job table is finite.
    pub open spec fn wf(&self) -> bool {
        self@.jobs.dom().finite()
    }

    pub fn new() -> (r: Correlator)
        ensures
            r.wf(),
            r@.pending == Seq::<Ticket>::empty(),
            r@.jobs == Map::<Seq<u8>, Ticket>::empty(),
    {
        let r = Correlator { pending: Vec::new(), jobs: new_table() };
        assert(r@.jobs =~= Map::<Seq<u8>, Ticket>::empty());
        r
    }

    /// Queues a waiter for the next uncorrelated reply.
    pub fn enqueue(&mut self, t: Ticket)
        requires
            old(self).wf(),
        ensures
            final(self).wf(),
            final(self)@.pending == old(self)@.pending.push(t),
            final(self)@.jobs == old(self)@.jobs,
    {
        self.pending.push(t);
    }

    /// Registers a waiter under a correlation id, before the command that carries the id is sent.
    /// Refuses, changing nothing, an id that already has a waiter.
    pub fn register(&mut self, id: Vec<u8>, t: Ticket) -> (r: bool)
        requires
            old(self).wf(),
        ensures
            final(self).wf(),
            r == !old(self)@.jobs.contains_key(id@),
            r ==> registered_fresh(old(self)@, final(self)@, id@, t),
            !r ==> final(self)@ == old(self)@,
    {
        if has_entry(&self.jobs, id.as_slice()) {
            return false;
        }
        insert_entry(&mut self.jobs, id, t);
        true
    }

    pub fn pending_len(&self) -> (r: usize)
        ensures
            r == self@.pending.len(),
    {
        self.pending.len()
    }

    pub fn jobs_len(&self) -> (r: usize)
        ensures
            r == self@.jobs.len(),
    {
        entry_count(&self.jobs)
    }

    /// Takes the oldest pending waiter and pairs it with `b`.
    fn deliver_oldest(&mut self, b: CommandAndApiReplyBody) -> (d: Delivery)
        requires
            old(self).wf(),
        ensures
            final(self).wf(),
            (final(self)@, d@) == to_oldest(old(self)@, b@),
    {
        if self.pending.len() > 0 {
            let t = self.pending.remove(0);
            assert(self@.pending =~= old(self)@.pending.drop_first());
            Delivery::Reply(t, b)
        } else {
            Delivery::Nothing
        }
    }

    /// Takes the waiter registered under `id` and pairs it with `f`.
    fn deliver_job(&mut self, id: &[u8], f: FreeswitchReply) -> (d: Delivery)
        requires
            old(self).wf(),
        ensures
            final(self).wf(),
            (final(self)@, d@) == to_job(old(self)@, id@, f@),
    {
        match remove_entry(&mut self.jobs, id) {
            Some(t) => Delivery::Job(t, f),
            None => {
                assert(self@.jobs =~= old(self)@.jobs);
                Delivery::Nothing
            },
        }
    }

    /// Routes one decoded frame.
    pub fn dispatch(&mut self, frame: FreeswitchReply) -> (d: Delivery)
        requires
            old(self).wf(),
            frame.wf(),
        ensures
            final(self).wf(),
            (final(self)@, d@) == spec_dispatch(old(self)@, frame@),
    {
        match frame {
            FreeswitchReply::AuthRequest => {
                let b = CommandAndApiReplyBody {
                    headers: HeaderMap::new(),
                    code: Code::Success,
                    marked: false,
                    reply_text: Vec::new(),
                    job_uuid: None,
                };
                self.deliver_oldest(b)
            },
            FreeswitchReply::CommandAndApiReply(b) => self.deliver_oldest(b),
            FreeswitchReply::DisconnectNotice(_) => Delivery::Stop,
            FreeswitchReply::Event(e) => {
                let ghost f = FreeswitchReply::Event(e)@;
                let job = "BACKGROUND_JOB".as_bytes();
                let complete = "CHANNEL_EXECUTE_COMPLETE".as_bytes();
                let data = "CHANNEL_DATA".as_bytes();
                let is_job = e.headers.has_value("Event-Name".as_bytes(), job);
                let is_complete = e.headers.has_value("Event-Name".as_bytes(), complete);
                let is_data = e.headers.has_value("Event-Name".as_bytes(), data);
                let job_id = match e.headers.get("Job-UUID".as_bytes()) {
                    Some(v) => Some(v.clone()),
                    None => None,
                };
                let app_id = match e.headers.get("Application-UUID".as_bytes()) {
                    Some(v) => Some(v.clone()),
                    None => None,
                };
                let is_reply = e.headers.has_value(
                    "Content-Type".as_bytes(),
                    "command/reply".as_bytes(),
                );
                if is_job && job_id.is_some() {
                    let id = job_id.unwrap();
                    self.deliver_job(id.as_slice(), FreeswitchReply::Event(e))
                } else if is_complete && app_id.is_some() {
                    let id = app_id.unwrap();
                    let b = CommandAndApiReplyBody {
                        headers: e.headers,
                        code: e.code,
                        marked: false,
                        reply_text: e.body,
                        job_uuid: None,
                    };
                    self.deliver_job(id.as_slice(), FreeswitchReply::CommandAndApiReply(b))
                } else if is_data && is_reply {
                    let b = CommandAndApiReplyBody {
                        headers: e.headers,
                        code: Code::Success,
                        marked: false,
                        reply_text: Vec::new(),
                        job_uuid: None,
                    };
                    self.deliver_oldest(b)
                } else if is_job || is_complete || is_data {
                    Delivery::Nothing
                } else {
                    Delivery::Unmatched(FreeswitchReply::Event(e))
                }
            },
        }
    }

    /// Ends every outstanding wait: hands back all waiters, the pending ones first and in order,
    /// then those of the job table, and forgets them.
    pub fn teardown(&mut self) -> (r: Vec<Ticket>)
        requires
            old(self).wf(),
        ensures
            final(self).wf(),
            r@.len() == old(self)@.pending.len() + old(self)@.jobs.dom().len(),
            r@.subrange(0, old(self)@.pending.len() as int) == old(self)@.pending,
            r@.subrange(old(self)@.pending.len() as int, r@.len() as int).to_set() == old(
                self,
            )@.jobs.values(),
            final(self)@.pending.len() == 0,
            final(self)@.jobs.dom().len() == 0,
    {
        let mut r: Vec<Ticket> = Vec::new();
        let mut i: usize = 0;
        while i < self.pending.len()
            invariant
                i <= self@.pending.len(),
                self@ == old(self)@,
                r@ == self@.pending.subrange(0, i as int),
            decreases self@.pending.len() - i,
        {
            r.push(self.pending[i]);
            i += 1;
            assert(r@ =~= self@.pending.subrange(0, i as int));
        }
        assert(self@.pending.subrange(0, i as int) =~= self@.pending);
        let waiting = entry_values(&self.jobs);
        let mut j: usize = 0;
        while j < waiting.len()
            invariant
                j <= waiting@.len(),
                r@ == old(self)@.pending + waiting@.subrange(0, j as int),
            decreases waiting@.len() - j,
        {
            r.push(waiting[j]);
            j += 1;
            assert(r@ =~= old(self)@.pending + waiting@.subrange(0, j as int));
        }
        assert(waiting@.subrange(0, j as int) =~= waiting@);
        assert(r@.subrange(0, old(self)@.pending.len() as int) =~= old(self)@.pending);
        assert(r@.subrange(old(self)@.pending.len() as int, r@.len() as int) =~= waiting@);
        self.pending = Vec::new();
        clear_entries(&mut self.jobs);
        assert(self@.jobs.dom() =~= Set::<Seq<u8>>::empty());
        r
    }
}

} // verus!

verus! {

/// Routes a run of frames, one after another.
pub open spec fn dispatch_all(c: CorrelatorView, frames: Seq<ReplyView>) -> (
    CorrelatorView,
    Seq<DeliveryView>,
)
    decreases frames.len(),
{
    if frames.len() == 0 {
        (c, Seq::empty())
    } else {
        let (c1, d) = spec_dispatch(c, frames[0]);
        let (c2, ds) = dispatch_all(c1, frames.drop_first());
        (c2, seq![d] + ds)
    }
}

/// Uncorrelated replies go to the waiters in the order the waiters were queued: the k-th reply
/// to arrive resolves the k-th pending waiter, and job registrations are untouched.
pub proof fn lemma_fifo(c: CorrelatorView, replies: Seq<ReplyBodyView>)
    requires
        replies.len() <= c.pending.len(),
    ensures
        ({
            let (c2, ds) = dispatch_all(
                c,
                replies.map_values(|b: ReplyBodyView| ReplyView::CommandAndApiReply(b)),
            );
            &&& ds.len() == replies.len()
            &&& forall|k: int|
                0 <= k < replies.len() ==> ds[k] == DeliveryView::Reply(c.pending[k], replies[k])
            &&& c2.pending == c.pending.subrange(replies.len() as int, c.pending.len() as int)
            &&& c2.jobs == c.jobs
        }),
    decreases replies.len(),
{
    let fs = replies.map_values(|b: ReplyBodyView| ReplyView::CommandAndApiReply(b));
    if replies.len() == 0 {
        assert(c.pending.subrange(0, c.pending.len() as int) =~= c.pending);
    } else {
        let c1 = CorrelatorView { pending: c.pending.drop_first(), jobs: c.jobs };
        assert(spec_dispatch(c, fs[0]) == (c1, DeliveryView::Reply(c.pending[0], replies[0])));
        let rest = replies.drop_first();
        lemma_fifo(c1, rest);
        assert(fs.drop_first() =~= rest.map_values(
            |b: ReplyBodyView| ReplyView::CommandAndApiReply(b),
        ));
        let (c2, ds) = dispatch_all(c, fs);
        let (c3, ds1) = dispatch_all(c1, fs.drop_first());
        assert(ds == seq![DeliveryView::Reply(c.pending[0], replies[0])] + ds1);
        assert forall|k: int| 0 <= k < replies.len() implies ds[k] == DeliveryView::Reply(
            c.pending[k],
            replies[k],
        ) by {
            if k > 0 {
                assert(ds[k] == ds1[k - 1]);
                assert(c1.pending[k - 1] == c.pending[k]);
                assert(rest[k - 1] == replies[k]);
            }
        }
        assert(c1.pending.subrange(rest.len() as int, c1.pending.len() as int) =~= c.pending.subrange(
            replies.len() as int,
            c.pending.len() as int,
        ));
    }
}

pub proof fn lemma_event_names_differ()
    ensures
        background_job() != execute_complete(),
        background_job() != channel_data(),
        execute_complete() != channel_data(),
{
    reveal_strlit("BACKGROUND_JOB");
    reveal_strlit("CHANNEL_EXECUTE_COMPLETE");
    reveal_strlit("CHANNEL_DATA");
    vstd::string::is_ascii_spec_bytes("BACKGROUND_JOB");
    vstd::string::is_ascii_spec_bytes("CHANNEL_EXECUTE_COMPLETE");
    vstd::string::is_ascii_spec_bytes("CHANNEL_DATA");
    assert(background_job().len() == 14);
    assert(execute_complete().len() == 24);
    assert(channel_data().len() == 12);
}

/// A background job's completion event resolves the waiter registered under its `Job-UUID`, and
/// no other: the pending replies and every other registration stay as they were.
pub proof fn lemma_job_correlation(c: CorrelatorView, id: Seq<u8>, t: Ticket, e: EventView)
    requires
        lookup(e.headers, event_name()) == Some(background_job()),
        lookup(e.headers, job_uuid_name()) == Some(id),
    ensures
        ({
            let registered = CorrelatorView { pending: c.pending, jobs: c.jobs.insert(id, t) };
            let (after, d) = spec_dispatch(registered, ReplyView::Event(e));
            &&& d == DeliveryView::Job(t, ReplyView::Event(e))
            &&& after.pending == c.pending
            &&& !after.jobs.contains_key(id)
            &&& forall|k: Seq<u8>|
                k != id ==> (#[trigger] after.jobs.contains_key(k) == c.jobs.contains_key(k) && (
                c.jobs.contains_key(k) ==> after.jobs[k] == c.jobs[k]))
        }),
{
}

} // verus!

verus! {

/// The waiters that a run of deliveries resolves as uncorrelated replies, in order.
pub open spec fn reply_tickets(ds: Seq<DeliveryView>) -> Seq<Ticket>
    decreases ds.len(),
{
    if ds.len() == 0 {
        Seq::empty()
    } else {
        let rest = reply_tickets(ds.drop_first());
        match ds[0] {
            DeliveryView::Reply(t, _) => seq![t] + rest,
            _ => rest,
        }
    }
}

/// One frame either leaves the pending waiters alone, or resolves the oldest and removes it.
pub proof fn lemma_dispatch_keeps_order(c: CorrelatorView, f: ReplyView)
    ensures
        ({
            let (c1, d) = spec_dispatch(c, f);
            ||| (c1.pending == c.pending && !(d is Reply))
            ||| (c.pending.len() > 0 && c1.pending == c.pending.drop_first() && d is Reply
                && d->Reply_0 == c.pending[0])
        }),
{
}

/// Whatever frames arrive, interleaved in any way with events and job results, the uncorrelated
/// replies among them resolve the pending waiters strictly in the order they were queued, and
/// exactly those waiters leave the queue.
pub proof fn lemma_fifo_any_frames(c: CorrelatorView, frames: Seq<ReplyView>)
    ensures
        ({
            let (c2, ds) = dispatch_all(c, frames);
            let k = reply_tickets(ds).len() as int;
            &&& k <= c.pending.len()
            &&& reply_tickets(ds) == c.pending.subrange(0, k)
            &&& c2.pending == c.pending.subrange(k, c.pending.len() as int)
        }),
    decreases frames.len(),
{
    if frames.len() == 0 {
        let (c2, ds) = dispatch_all(c, frames);
        assert(ds.len() == 0);
        assert(c.pending.subrange(0, 0) =~= Seq::<Ticket>::empty());
        assert(c.pending.subrange(0, c.pending.len() as int) =~= c.pending);
    } else {
        let (c1, d) = spec_dispatch(c, frames[0]);
        lemma_dispatch_keeps_order(c, frames[0]);
        lemma_fifo_any_frames(c1, frames.drop_first());
        let (c2, ds1) = dispatch_all(c1, frames.drop_first());
        let ds = seq![d] + ds1;
        assert(dispatch_all(c, frames) == (c2, ds));
        assert(ds.drop_first() =~= ds1);
        assert(ds[0] == d);
        let k1 = reply_tickets(ds1).len() as int;
        if d is Reply {
            assert(reply_tickets(ds) == seq![c.pending[0]] + reply_tickets(ds1));
            assert(seq![c.pending[0]] + c1.pending.subrange(0, k1) =~= c.pending.subrange(
                0,
                k1 + 1,
            ));
            assert(c1.pending.subrange(k1, c1.pending.len() as int) =~= c.pending.subrange(
                k1 + 1,
                c.pending.len() as int,
            ));
        } else {
            assert(reply_tickets(ds) == reply_tickets(ds1));
        }
    }
}

} // verus!

verus! {

/// The reply that a frame carries for the oldest pending waiter, if it is an uncorrelated reply.
pub open spec fn uncorrelated_body(f: ReplyView) -> Option<ReplyBodyView> {
    match f {
        ReplyView::AuthRequest => Some(headers_reply(Seq::empty())),
        ReplyView::CommandAndApiReply(b) => Some(b),
        ReplyView::Event(e) => if lookup(e.headers, event_name()) == Some(channel_data())
            && lookup(e.headers, content_type_name()) == Some(command_reply_type()) {
            Some(headers_reply(e.headers))
        } else {
            None
        },
        ReplyView::DisconnectNotice(_) => None,
    }
}

/// The uncorrelated replies among a run of frames, in arrival order.
pub open spec fn uncorrelated_bodies(frames: Seq<ReplyView>) -> Seq<ReplyBodyView>
    decreases frames.len(),
{
    if frames.len() == 0 {
        Seq::empty()
    } else {
        let rest = uncorrelated_bodies(frames.drop_first());
        match uncorrelated_body(frames[0]) {
            Some(b) => seq![b] + rest,
            None => rest,
        }
    }
}

/// The waiters and replies that a run of deliveries pairs up, in order.
pub open spec fn replies_of(ds: Seq<DeliveryView>) -> Seq<(Ticket, ReplyBodyView)>
    decreases ds.len(),
{
    if ds.len() == 0 {
        Seq::empty()
    } else {
        let rest = replies_of(ds.drop_first());
        match ds[0] {
            DeliveryView::Reply(t, b) => seq![(t, b)] + rest,
            _ => rest,
        }
    }
}

/// The k-th waiter with the k-th reply.
pub open spec fn paired(ts: Seq<Ticket>, bs: Seq<ReplyBodyView>) -> Seq<(Ticket, ReplyBodyView)> {
    Seq::new(bs.len(), |i: int| (ts[i], bs[i]))
}

/// One frame: an uncorrelated reply goes to the oldest waiter, any other frame leaves the
/// pending waiters alone and resolves none of them.
pub proof fn lemma_dispatch_step(c: CorrelatorView, f: ReplyView)
    ensures
        ({
            let (c1, d) = spec_dispatch(c, f);
            match uncorrelated_body(f) {
                Some(b) => c.pending.len() > 0 ==> c1.pending == c.pending.drop_first() && d
                    == DeliveryView::Reply(c.pending[0], b),
                None => c1.pending == c.pending && !(d is Reply),
            }
        }),
{
    lemma_event_names_differ();
}

/// While there are waiters for them, the uncorrelated replies among any frames, interleaved in
/// any way with events and job results, go one for one to the pending waiters: the k-th such
/// reply to arrive resolves the k-th waiter queued.
pub proof fn lemma_fifo_pairs(c: CorrelatorView, frames: Seq<ReplyView>)
    requires
        uncorrelated_bodies(frames).len() <= c.pending.len(),
    ensures
        ({
            let (c2, ds) = dispatch_all(c, frames);
            let k = uncorrelated_bodies(frames).len() as int;
            &&& replies_of(ds) == paired(c.pending, uncorrelated_bodies(frames))
            &&& c2.pending == c.pending.subrange(k, c.pending.len() as int)
        }),
    decreases frames.len(),
{
    let bs = uncorrelated_bodies(frames);
    if frames.len() == 0 {
        let (c2, ds) = dispatch_all(c, frames);
        assert(ds.len() == 0);
        assert(paired(c.pending, bs) =~= Seq::<(Ticket, ReplyBodyView)>::empty());
        assert(c.pending.subrange(0, c.pending.len() as int) =~= c.pending);
    } else {
        let (c1, d) = spec_dispatch(c, frames[0]);
        lemma_dispatch_step(c, frames[0]);
        let bs1 = uncorrelated_bodies(frames.drop_first());
        let (c2, ds1) = dispatch_all(c1, frames.drop_first());
        let ds = seq![d] + ds1;
        assert(dispatch_all(c, frames) == (c2, ds));
        assert(ds.drop_first() =~= ds1);
        assert(ds[0] == d);
        match uncorrelated_body(frames[0]) {
            Some(b) => {
                assert(bs == seq![b] + bs1);
                lemma_fifo_pairs(c1, frames.drop_first());
                assert(replies_of(ds) == seq![(c.pending[0], b)] + replies_of(ds1));
                assert(seq![(c.pending[0], b)] + paired(c1.pending, bs1) =~= paired(
                    c.pending,
                    bs,
                ));
                assert(c1.pending.subrange(bs1.len() as int, c1.pending.len() as int)
                    =~= c.pending.subrange(bs.len() as int, c.pending.len() as int));
            },
            None => {
                assert(bs == bs1);
                lemma_fifo_pairs(c1, frames.drop_first());
                assert(replies_of(ds) == replies_of(ds1));
            },
        }
    }
}

} // verus!
