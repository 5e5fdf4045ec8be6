//! The server: a tuple space, and the requests that wait for a tuple.
//!
//! A request that finds no tuple and has to wait is kept. After every
//! answer upon which the space holds more tuples than before, the requests
//! that wait are handed in again, the one that has waited longest first.

use crate::server::{
    debug_text, decode_error_kind, error_packet, greeted_name, handle_datagram, handle_request,
    request_error, response_of, response_to, Outcome, OutcomeView,
};
use crate::tuple::tuple::TupleView;
use crate::tuple_packet::consts::{TS_REQ_IN, TS_REQ_OUT, TS_REQ_RD};
use crate::tuple_packet::tuple_packet::{decode_packet, PacketView, TuplePacket};
use crate::tuple_space::tuple_space::{
    is_least_match, least_match, lemma_least_match, valid_contents, TupleSpace,
};
use vstd::prelude::*;

verus! {

/// A request that waits for a tuple, and who waits for the answer.
#[derive(Debug)]
pub struct Waiting<C> {
    pub client: C,
    pub request: TuplePacket,
}

/// A packet that is to be sent, and to whom.
#[derive(Debug)]
pub struct Sent<C> {
    pub to: C,
    pub packet: TuplePacket,
}

/// What a waiting request is, mathematically.
pub struct WaitingView<C> {
    pub client: C,
    pub request: PacketView,
}

/// What a packet to be sent is, mathematically.
pub struct SentView<C> {
    pub to: C,
    pub packet: PacketView,
}

impl<C> View for Waiting<C> {
    type V = WaitingView<C>;

    open spec fn view(&self) -> WaitingView<C> {
        WaitingView { client: self.client, request: self.request@ }
    }
}

impl<C> View for Sent<C> {
    type V = SentView<C>;

    open spec fn view(&self) -> SentView<C> {
        SentView { to: self.to, packet: self.packet@ }
    }
}

/// The views of waiting requests.
pub open spec fn waiting_views<C>(ws: Seq<Waiting<C>>) -> Seq<WaitingView<C>> {
    Seq::new(ws.len(), |i: int| ws[i]@)
}

/// The views of packets to be sent.
pub open spec fn sent_views<C>(ps: Seq<Sent<C>>) -> Seq<SentView<C>> {
    Seq::new(ps.len(), |i: int| ps[i]@)
}

/// What a server is, mathematically: the tuples held, and the requests
/// that wait, the one that has waited longest first.
pub struct ServerView<C> {
    pub contents: Set<TupleView>,
    pub waiting: Seq<WaitingView<C>>,
}

/// What a server does: the state it goes to, and the packets it sends.
pub struct Step<C> {
    pub next: ServerView<C>,
    pub sent: Seq<SentView<C>>,
}

/// Whether `p` is a request that waits where nothing matches: an `IN` or
/// an `RD` that is not refused.
pub open spec fn is_blocking(p: PacketView) -> bool {
    request_error(p) is None && (p.req_type == TS_REQ_IN || p.req_type == TS_REQ_RD)
}

impl<C> ServerView<C> {
    /// Whether nobody waits in vain: every request that waits is one that
    /// may wait, and no tuple held matches its template.
    pub open spec fn quiet(self) -> bool {
        forall|i: int|
            0 <= i < self.waiting.len() ==> is_blocking((#[trigger] self.waiting[i]).request)
                && least_match(self.contents, self.waiting[i].request.tuple->0) is None
    }
}

/// What becomes of the requests `waiting` when they are handed in again,
/// one after the other, to a space that holds `s`: those that find a tuple
/// are answered, the others go on waiting, in their order.
pub open spec fn wake<C>(s: Set<TupleView>, waiting: Seq<WaitingView<C>>) -> Step<C>
    decreases waiting.len(),
{
    if waiting.len() == 0 {
        Step { next: ServerView { contents: s, waiting: Seq::empty() }, sent: Seq::empty() }
    } else {
        let first = waiting[0];
        let h = response_of(s, first.request, Seq::empty());
        let rest = wake(h.after, waiting.drop_first());
        match h.outcome {
            OutcomeView::Reply(r) => Step {
                next: rest.next,
                sent: seq![SentView { to: first.client, packet: r }] + rest.sent,
            },
            OutcomeView::Wait => Step {
                next: ServerView {
                    contents: rest.next.contents,
                    waiting: seq![first] + rest.next.waiting,
                },
                sent: rest.sent,
            },
        }
    }
}

/// What a server in the state `v` does with the datagram `bytes` from `from`.
///
/// Bytes that are no packet are answered with the error, under the number
/// `error_num`. A request that has to wait joins those that wait. Any other
/// is answered, and then the requests that wait are handed in again.
pub open spec fn received<C>(v: ServerView<C>, from: C, bytes: Seq<u8>, error_num: u32) -> Step<C> {
    match decode_packet(bytes) {
        Err(e) => Step {
            next: v,
            sent: seq![
                SentView { to: from, packet: error_packet(decode_error_kind(e), error_num) },
            ],
        },
        Ok(p) => match response_to(v.contents, bytes).outcome {
            OutcomeView::Wait => Step {
                next: ServerView {
                    contents: v.contents,
                    waiting: v.waiting.push(WaitingView { client: from, request: p }),
                },
                sent: Seq::empty(),
            },
            OutcomeView::Reply(r) => {
                let woken = wake(response_to(v.contents, bytes).after, v.waiting);
                Step { next: woken.next, sent: seq![SentView { to: from, packet: r }] + woken.sent }
            },
        },
    }
}

/// A request that may wait takes at most one tuple from the space, and
/// waits exactly where nothing matches.
pub proof fn lemma_blocking_response(s: Set<TupleView>, p: PacketView, greeting: Seq<char>)
    requires
        valid_contents(s),
        is_blocking(p),
    ensures
        response_of(s, p, greeting).after.subset_of(s),
        valid_contents(response_of(s, p, greeting).after),
        response_of(s, p, greeting).outcome is Wait <==> least_match(s, p.tuple->0) is None,
{
}

/// Where nothing matches, nothing matches among fewer tuples.
pub proof fn lemma_no_match_among_fewer(
    s: Set<TupleView>,
    fewer: Set<TupleView>,
    template: TupleView,
)
    requires
        valid_contents(s),
        fewer.subset_of(s),
        least_match(s, template) is None,
    ensures
        least_match(fewer, template) is None,
{
    lemma_least_match(s, template);
    if least_match(fewer, template) is Some {
        let m = least_match(fewer, template)->0;
        assert(is_least_match(fewer, template, m));
        assert(s.contains(m) && m.matches(template));
    }
}

/// After the requests that wait were handed in again, nobody waits in
/// vain: no tuple held matches the template of a request that still waits.
pub proof fn lemma_wake_leaves_quiet<C>(s: Set<TupleView>, waiting: Seq<WaitingView<C>>)
    requires
        valid_contents(s),
        forall|i: int| 0 <= i < waiting.len() ==> is_blocking((#[trigger] waiting[i]).request),
    ensures
        wake(s, waiting).next.contents.subset_of(s),
        valid_contents(wake(s, waiting).next.contents),
        wake(s, waiting).next.quiet(),
    decreases waiting.len(),
{
    if waiting.len() > 0 {
        let first = waiting[0];
        let h = response_of(s, first.request, Seq::empty());
        let tail = waiting.drop_first();
        assert(is_blocking(first.request));
        lemma_blocking_response(s, first.request, Seq::empty());
        assert forall|i: int| 0 <= i < tail.len() implies is_blocking(
            (#[trigger] tail[i]).request,
        ) by {
            assert(tail[i] == waiting[i + 1]);
        }
        lemma_wake_leaves_quiet(h.after, tail);
        let rest = wake(h.after, tail);
        let end = wake(s, waiting).next;
        if h.outcome is Wait {
            lemma_no_match_among_fewer(s, end.contents, first.request.tuple->0);
            assert forall|i: int| 0 <= i < end.waiting.len() implies is_blocking(
                (#[trigger] end.waiting[i]).request,
            ) && least_match(end.contents, end.waiting[i].request.tuple->0) is None by {
                if i > 0 {
                    assert(end.waiting[i] == rest.next.waiting[i - 1]);
                }
            }
        }
    }
}

/// Where nobody waits in vain, handing the waiting requests in again
/// changes nothing and sends nothing.
pub proof fn lemma_wake_of_quiet<C>(v: ServerView<C>)
    requires
        valid_contents(v.contents),
        v.quiet(),
    ensures
        wake(v.contents, v.waiting) == (Step { next: v, sent: Seq::empty() }),
    decreases v.waiting.len(),
{
    if v.waiting.len() == 0 {
        assert(v.waiting =~= Seq::empty());
    } else {
        let first = v.waiting[0];
        let tail = ServerView { contents: v.contents, waiting: v.waiting.drop_first() };
        assert(is_blocking(first.request));
        lemma_blocking_response(v.contents, first.request, Seq::empty());
        assert forall|i: int| 0 <= i < tail.waiting.len() implies is_blocking(
            (#[trigger] tail.waiting[i]).request,
        ) && least_match(tail.contents, tail.waiting[i].request.tuple->0) is None by {
            assert(tail.waiting[i] == v.waiting[i + 1]);
        }
        lemma_wake_of_quiet(tail);
        assert(seq![first] + tail.waiting =~= v.waiting);
    }
}

/// The items of `items`, the last first.
fn reversed<T>(items: Vec<T>) -> (r: Vec<T>)
    ensures
        r@.len() == items@.len(),
        forall|i: int| 0 <= i < r@.len() ==> r@[i] == items@[items@.len() - 1 - i],
{
    let mut rest = items;
    let mut r: Vec<T> = Vec::new();
    while rest.len() > 0
        invariant
            rest@.len() + r@.len() == items@.len(),
            rest@ == items@.take(rest@.len() as int),
            forall|i: int| 0 <= i < r@.len() ==> r@[i] == items@[items@.len() - 1 - i],
        decreases rest@.len(),
    {
        let item = rest.pop();
        match item {
            Some(x) => {
                r.push(x);
            },
            None => {},
        }
        assert(rest@ =~= items@.take(rest@.len() as int));
    }
    r
}

/// What was kept and sent so far, followed by what the rest comes to.
pub open spec fn step_after<C>(
    kept: Seq<WaitingView<C>>,
    sent: Seq<SentView<C>>,
    rest: Step<C>,
) -> Step<C> {
    Step {
        next: ServerView { contents: rest.next.contents, waiting: kept + rest.next.waiting },
        sent: sent + rest.sent,
    }
}

/// Handing the next request in moves it to the requests kept or answers
/// it, and leaves the rest to be handed in.
proof fn lemma_wake_step<C>(
    s: Set<TupleView>,
    all: Seq<WaitingView<C>>,
    at: int,
    kept: Seq<WaitingView<C>>,
    sent: Seq<SentView<C>>,
)
    requires
        0 <= at < all.len(),
    ensures
        ({
            let h = response_of(s, all[at].request, Seq::empty());
            let rest = wake(h.after, all.skip(at + 1));
            step_after(kept, sent, wake(s, all.skip(at))) == (match h.outcome {
                OutcomeView::Reply(r) => step_after(
                    kept,
                    sent.push(SentView { to: all[at].client, packet: r }),
                    rest,
                ),
                OutcomeView::Wait => step_after(kept.push(all[at]), sent, rest),
            })
        }),
{
    let here = all.skip(at);
    assert(here[0] == all[at]);
    assert(here.drop_first() =~= all.skip(at + 1));
    let h = response_of(s, all[at].request, Seq::empty());
    let rest = wake(h.after, all.skip(at + 1));
    match h.outcome {
        OutcomeView::Reply(r) => {
            let one = SentView { to: all[at].client, packet: r };
            assert(sent.push(one) + rest.sent =~= sent + (seq![one] + rest.sent));
        },
        OutcomeView::Wait => {
            assert(kept.push(all[at]) + rest.next.waiting =~= kept + (seq![all[at]]
                + rest.next.waiting));
        },
    }
}

/// Hands the requests `waiting` in again, one after the other: the
/// requests that still wait, and the answers to the others.
fn wake_all<C>(space: &mut TupleSpace, waiting: Vec<Waiting<C>>) -> (r: (
    Vec<Waiting<C>>,
    Vec<Sent<C>>,
))
    ensures
        final(space).contents() == wake(
            old(space).contents(),
            waiting_views(waiting@),
        ).next.contents,
        waiting_views(r.0@) == wake(old(space).contents(), waiting_views(waiting@)).next.waiting,
        sent_views(r.1@) == wake(old(space).contents(), waiting_views(waiting@)).sent,
{
    let ghost all = waiting_views(waiting@);
    let ghost whole = wake(space.contents(), all);
    let ghost n = waiting@.len() as int;
    let mut todo = reversed(waiting);
    let mut kept: Vec<Waiting<C>> = Vec::new();
    let mut sent: Vec<Sent<C>> = Vec::new();
    proof {
        assert(all.skip(0) =~= all);
        assert(waiting_views(kept@) =~= Seq::empty());
        assert(sent_views(sent@) =~= Seq::empty());
        assert(waiting_views(kept@) + whole.next.waiting =~= whole.next.waiting);
        assert(sent_views(sent@) + whole.sent =~= whole.sent);
        reveal_strlit("");
        assert(""@ =~= Seq::<char>::empty());
    }
    while todo.len() > 0
        invariant
            all.len() == n,
            todo@.len() <= n,
            ""@ == Seq::<char>::empty(),
            forall|j: int| 0 <= j < todo@.len() ==> (#[trigger] todo@[j])@ == all[n - 1 - j],
            whole == step_after(
                waiting_views(kept@),
                sent_views(sent@),
                wake(space.contents(), all.skip(n - todo@.len())),
            ),
        decreases todo@.len(),
    {
        let ghost at = n - todo@.len();
        let ghost kept_before = waiting_views(kept@);
        let ghost sent_before = sent_views(sent@);
        proof {
            lemma_wake_step(space.contents(), all, at, kept_before, sent_before);
        }
        let item = todo.pop();
        match item {
            Some(w) => {
                assert(w@ == all[at]);
                let client = w.client;
                match handle_request(space, w.request, "") {
                    Outcome::Reply(packet) => {
                        sent.push(Sent { to: client, packet });
                        assert(sent_views(sent@) =~= sent_before.push(
                            SentView { to: client, packet: packet@ },
                        ));
                    },
                    Outcome::Wait(request) => {
                        kept.push(Waiting { client, request });
                        assert(waiting_views(kept@) =~= kept_before.push(all[at]));
                    },
                }
            },
            None => {},
        }
    }
    proof {
        assert(all.skip(n) =~= Seq::empty());
        assert(waiting_views(kept@) + Seq::<WaitingView<C>>::empty() =~= waiting_views(kept@));
        assert(sent_views(sent@) + Seq::<SentView<C>>::empty() =~= sent_views(sent@));
    }
    (kept, sent)
}

/// The server: the tuple space, and the requests that wait for a tuple.
#[derive(Debug)]
pub struct Server<C> {
    space: TupleSpace,
    waiting: Vec<Waiting<C>>,
}

impl<C> View for Server<C> {
    type V = ServerView<C>;

    closed spec fn view(&self) -> ServerView<C> {
        ServerView { contents: self.space.contents(), waiting: waiting_views(self.waiting@) }
    }
}

impl<C> Server<C> {
    #[verifier::type_invariant]
    spec fn inv(&self) -> bool {
        self@.quiet()
    }

    /// A server that holds no tuple, and for which nobody waits.
    pub fn new() -> (server: Server<C>)
        ensures
            server@ == (ServerView::<C> { contents: Set::empty(), waiting: Seq::empty() }),
    {
        let server = Server { space: TupleSpace::new(), waiting: Vec::new() };
        assert(waiting_views(server.waiting@) =~= Seq::empty());
        server
    }

    /// The number of tuples held.
    pub fn size(&self) -> (n: usize)
        ensures
            n == self@.contents.len(),
            valid_contents(self@.contents),
            self@.quiet(),
    {
        proof {
            use_type_invariant(self);
        }
        self.space.size()
    }

    /// The number of requests that wait.
    pub fn waiting(&self) -> (n: usize)
        ensures
            n == self@.waiting.len(),
    {
        self.waiting.len()
    }

    /// Takes the datagram `bytes` that came from `from`, does to the space
    /// what it asks for, and says what is to be sent, and to whom, in the
    /// order in which it is to be sent.
    ///
    /// Afterwards nobody waits in vain: no tuple held matches the template
    /// of a request that waits.
    pub fn receive(&mut self, from: C, bytes: &[u8]) -> (sent: Vec<Sent<C>>)
        ensures
            exists|error_num: u32|
                error_num < 0x100_0000 && #[trigger] received(
                    old(self)@,
                    from,
                    bytes@,
                    error_num,
                ) == (Step { next: final(self)@, sent: sent_views(sent@) }),
            final(self)@.quiet(),
            valid_contents(final(self)@.contents),
    {
        proof {
            use_type_invariant(&*self);
        }
        let ghost v = self@;
        let mut waiting: Vec<Waiting<C>> = Vec::new();
        std::mem::swap(&mut waiting, &mut self.waiting);
        assert(waiting_views(self.waiting@) =~= Seq::empty());
        let mut space = TupleSpace::new();
        std::mem::swap(&mut space, &mut self.space);
        let held = space.size();
        let (still, sent, Ghost(error_num)) = receive_on(&mut space, waiting, from, bytes, held);
        proof {
            lemma_received_quiet(v, from, bytes@, error_num);
        }
        self.space = space;
        self.waiting = still;
        sent
    }
}

/// Whether what was done is what [`received`] says.
spec fn is_received<C>(
    v: ServerView<C>,
    from: C,
    bytes: Seq<u8>,
    error_num: u32,
    contents: Set<TupleView>,
    still: Seq<Waiting<C>>,
    sent: Seq<Sent<C>>,
) -> bool {
    &&& error_num < 0x100_0000
    &&& received(v, from, bytes, error_num) == (Step {
        next: ServerView { contents, waiting: waiting_views(still) },
        sent: sent_views(sent),
    })
}

/// Does what [`Server::receive`] does, on the parts of a server.
fn receive_on<C>(
    space: &mut TupleSpace,
    waiting: Vec<Waiting<C>>,
    from: C,
    bytes: &[u8],
    held: usize,
) -> (r: (Vec<Waiting<C>>, Vec<Sent<C>>, Ghost<u32>))
    requires
        valid_contents(old(space).contents()),
        held == old(space).contents().len(),
        (ServerView { contents: old(space).contents(), waiting: waiting_views(waiting@) }).quiet(),
    ensures
        is_received(
            ServerView { contents: old(space).contents(), waiting: waiting_views(waiting@) },
            from,
            bytes@,
            r.2@,
            final(space).contents(),
            r.0@,
            r.1@,
        ),
{
    let ghost v = ServerView { contents: space.contents(), waiting: waiting_views(waiting@) };
    let mut waiting = waiting;
    let mut sent: Vec<Sent<C>> = Vec::new();
    let outcome = handle_datagram(space, bytes);
    match outcome {
        Outcome::Wait(request) => {
            waiting.push(Waiting { client: from, request });
            assert(waiting_views(waiting@) =~= v.waiting.push(
                WaitingView { client: from, request: request@ },
            ));
            assert(sent_views(sent@) =~= Seq::empty());
            (waiting, sent, Ghost(0))
        },
        Outcome::Reply(packet) => {
            let ghost error_num = reply_error_num(bytes@, packet@);
            sent.push(Sent { to: from, packet });
            let ghost first = sent_views(sent@);
            assert(first =~= seq![SentView { to: from, packet: packet@ }]);
            let now = space.size();
            if now > held {
                let (still, mut more) = wake_all(space, waiting);
                let ghost woken = sent_views(more@);
                sent.append(&mut more);
                assert(sent_views(sent@) =~= first + woken);
                (still, sent, Ghost(error_num))
            } else {
                proof {
                    lemma_received_without_growth(v, from, bytes@, error_num, space.contents());
                }
                (waiting, sent, Ghost(error_num))
            }
        },
    }
}

/// The number of an answer to bytes that are no packet; zero where the
/// bytes are one.
spec fn reply_error_num(bytes: Seq<u8>, reply: PacketView) -> u32 {
    match decode_packet(bytes) {
        Ok(_) => 0,
        Err(e) => choose|num: u32|
            num < 0x100_0000 && reply == #[trigger] error_packet(decode_error_kind(e), num),
    }
}

/// What is done with a request leaves a space that holds finitely many
/// tuples, each well formed, as such a space.
pub proof fn lemma_response_valid(s: Set<TupleView>, p: PacketView, greeting: Seq<char>)
    requires
        valid_contents(s),
    ensures
        valid_contents(response_of(s, p, greeting).after),
{
}

/// Whatever a server receives, afterwards nobody waits in vain.
pub proof fn lemma_received_quiet<C>(v: ServerView<C>, from: C, bytes: Seq<u8>, error_num: u32)
    requires
        valid_contents(v.contents),
        v.quiet(),
    ensures
        received(v, from, bytes, error_num).next.quiet(),
        valid_contents(received(v, from, bytes, error_num).next.contents),
{
    match decode_packet(bytes) {
        Err(_) => {},
        Ok(p) => {
            let greeting = debug_text(greeted_name(p));
            let h = response_of(v.contents, p, greeting);
            lemma_response_valid(v.contents, p, greeting);
            match h.outcome {
                OutcomeView::Wait => {
                    let next = received(v, from, bytes, error_num).next;
                    assert(is_blocking(p));
                    lemma_blocking_response(v.contents, p, greeting);
                    assert forall|i: int| 0 <= i < next.waiting.len() implies is_blocking(
                        (#[trigger] next.waiting[i]).request,
                    ) && least_match(next.contents, next.waiting[i].request.tuple->0) is None by {
                        if i < v.waiting.len() {
                            assert(next.waiting[i] == v.waiting[i]);
                        }
                    }
                },
                OutcomeView::Reply(_) => {
                    assert forall|i: int| 0 <= i < v.waiting.len() implies is_blocking(
                        (#[trigger] v.waiting[i]).request,
                    ) by {}
                    lemma_wake_leaves_quiet(h.after, v.waiting);
                },
            }
        },
    }
}

/// An answer after which the space holds no more tuples than before wakes
/// nobody: the requests that wait go on waiting.
proof fn lemma_received_without_growth<C>(
    v: ServerView<C>,
    from: C,
    bytes: Seq<u8>,
    error_num: u32,
    after: Set<TupleView>,
)
    requires
        valid_contents(v.contents),
        v.quiet(),
        after.len() <= v.contents.len(),
        match decode_packet(bytes) {
            Ok(_) => response_to(v.contents, bytes).after == after && response_to(
                v.contents,
                bytes,
            ).outcome is Reply,
            Err(_) => after == v.contents,
        },
    ensures
        received(v, from, bytes, error_num).next == (ServerView {
            contents: after,
            waiting: v.waiting,
        }),
        received(v, from, bytes, error_num).sent.len() == 1,
{
    if decode_packet(bytes) is Ok {
        let p = decode_packet(bytes)->Ok_0;
        assert(after.subset_of(v.contents)) by {
            if request_error(p) is None && p.req_type == TS_REQ_OUT {
                assert(v.contents.contains(p.tuple->0));
                assert(v.contents.insert(p.tuple->0) =~= v.contents);
            }
        }
        lemma_response_valid(v.contents, p, debug_text(greeted_name(p)));
        let idle = ServerView { contents: after, waiting: v.waiting };
        assert forall|i: int| 0 <= i < idle.waiting.len() implies is_blocking(
            (#[trigger] idle.waiting[i]).request,
        ) && least_match(idle.contents, idle.waiting[i].request.tuple->0) is None by {
            lemma_no_match_among_fewer(v.contents, after, v.waiting[i].request.tuple->0);
        }
        lemma_wake_of_quiet(idle);
    }
}

impl<C> Default for Server<C> {
    fn default() -> (server: Server<C>)
        ensures
            server@ == (ServerView::<C> { contents: Set::empty(), waiting: Seq::empty() }),
    {
        Server::new()
    }
}

} // verus!
