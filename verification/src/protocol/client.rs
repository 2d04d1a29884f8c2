//! A client's side of a connection: request numbers and batches of answers.
//!
//! A client sends one request at a time and reads frames until the batch of
//! answers ends. Requests are numbered so that the engine can tell a
//! repetition; a fresh connection takes over the number that the engine
//! remembers for its key.

use vstd::prelude::*;
use vstd::string::StringExecFns;

use super::message::{ResponseKind, ServerFrame};
use crate::exchange::admission::Exchange;
use crate::exchange::server_app::repeats;
use crate::exchange::trading_event::TradingRequest;

verus! {

/// Why a request has no answer.
#[derive(Debug)]
pub enum ClientError {
    /// The connection failed.
    Io(String),
    /// A frame was not what the protocol allows.
    Protocol(String),
    /// The server closed the connection inside a batch.
    Disconnected,
    /// The server refused the key.
    AuthFailed,
    /// The server takes no more requests for now.
    ServerBusy,
    /// The engine failed on the request.
    EngineError,
}

/// What an error says. The errors of the node have fixed words.
pub open spec fn client_error_text(e: ClientError) -> Seq<char> {
    match e {
        ClientError::Io(text) => "I/O error: "@ + text@,
        ClientError::Protocol(text) => "protocol error: "@ + text@,
        ClientError::Disconnected => "disconnected from server"@,
        ClientError::AuthFailed => "authentication failed"@,
        ClientError::ServerBusy => "server busy"@,
        ClientError::EngineError => "engine error"@,
    }
}

impl ClientError {
    /// What the error says.
    pub fn message(&self) -> (s: String)
        ensures
            s@ == client_error_text(*self),
    {
        match self {
            ClientError::Io(text) => {
                let mut s: String = "I/O error: ".to_owned();
                s.append(text.as_str());
                s
            },
            ClientError::Protocol(text) => {
                let mut s: String = "protocol error: ".to_owned();
                s.append(text.as_str());
                s
            },
            ClientError::Disconnected => "disconnected from server".to_owned(),
            ClientError::AuthFailed => "authentication failed".to_owned(),
            ClientError::ServerBusy => "server busy".to_owned(),
            ClientError::EngineError => "engine error".to_owned(),
        }
    }
}

/// What the node's own client reports.
#[derive(Debug)]
pub enum NodeError {
    AuthFailed,
    Io(String),
    Disconnected,
    /// A frame out of place or with a reserved tag.
    Protocol,
    /// Anything else, with its words.
    Other(String),
}

/// What an error of the node is to a client. A protocol violation loses its
/// detail; what has no counterpart is an error of the connection.
pub fn transport_error(e: NodeError) -> (r: ClientError)
    ensures
        match e {
            NodeError::AuthFailed => r == ClientError::AuthFailed,
            NodeError::Io(text) => r == ClientError::Io(text),
            NodeError::Disconnected => r == ClientError::Disconnected,
            NodeError::Protocol => r is Protocol && r->Protocol_0@ == "frame from the node"@,
            NodeError::Other(text) => r == ClientError::Io(text),
        },
{
    match e {
        NodeError::AuthFailed => ClientError::AuthFailed,
        NodeError::Io(text) => ClientError::Io(text),
        NodeError::Disconnected => ClientError::Disconnected,
        NodeError::Protocol => ClientError::Protocol("frame from the node".to_owned()),
        NodeError::Other(text) => ClientError::Io(text),
    }
}

/// What one frame inside a batch is.
#[derive(Clone, Copy, Debug)]
pub enum Reply {
    Response(ResponseKind),
    Heartbeat,
    BatchEnd,
    ServerBusy,
    EngineError,
}

/// The answers to one request so far.
#[derive(Debug)]
pub struct Batch {
    responses: Vec<ResponseKind>,
    engine_error: bool,
}

/// How a batch goes on after a frame.
#[derive(Debug)]
pub enum BatchStep {
    /// Another frame is to be read.
    ReadOn,
    /// The request is answered, or has failed.
    Done(Result<Vec<ResponseKind>, ClientError>),
}

impl Batch {
    /// The answers so far.
    pub closed spec fn answers(&self) -> Seq<ResponseKind> {
        self.responses@
    }

    /// Whether the engine failed on the request.
    pub closed spec fn failed(&self) -> bool {
        self.engine_error
    }

    /// A batch without answers.
    pub fn new() -> (batch: Batch)
        ensures
            batch.answers() == Seq::<ResponseKind>::empty(),
            !batch.failed(),
    {
        Batch { responses: Vec::new(), engine_error: false }
    }

    /// Takes the next frame. An engine error waits for the end of the batch,
    /// so that the next request starts at a frame of its own.
    pub fn step(self, reply: Reply) -> (r: (Batch, BatchStep))
        ensures
            match reply {
                Reply::Response(response) => {
                    &&& r.1 == BatchStep::ReadOn
                    &&& r.0.answers() == self.answers().push(response)
                    &&& r.0.failed() == self.failed()
                },
                Reply::Heartbeat => {
                    &&& r.1 == BatchStep::ReadOn
                    &&& r.0.answers() == self.answers()
                    &&& r.0.failed() == self.failed()
                },
                Reply::EngineError => {
                    &&& r.1 == BatchStep::ReadOn
                    &&& r.0.answers() == self.answers()
                    &&& r.0.failed()
                },
                Reply::ServerBusy => r.1 == BatchStep::Done(Err(ClientError::ServerBusy)),
                Reply::BatchEnd => if self.failed() {
                    r.1 == BatchStep::Done(Err(ClientError::EngineError))
                } else {
                    &&& r.1 matches BatchStep::Done(Ok(responses))
                    &&& responses@ == self.answers()
                },
            },
    {
        let Batch { responses, engine_error } = self;
        let mut responses: Vec<ResponseKind> = responses;
        match reply {
            Reply::Response(response) => {
                responses.push(response);
                (Batch { responses, engine_error }, BatchStep::ReadOn)
            },
            Reply::Heartbeat => (Batch { responses, engine_error }, BatchStep::ReadOn),
            Reply::EngineError => (Batch { responses, engine_error: true }, BatchStep::ReadOn),
            Reply::ServerBusy => (Batch::new(), BatchStep::Done(Err(ClientError::ServerBusy))),
            Reply::BatchEnd => {
                if engine_error {
                    (Batch::new(), BatchStep::Done(Err(ClientError::EngineError)))
                } else {
                    (Batch::new(), BatchStep::Done(Ok(responses)))
                }
            },
        }
    }
}

/// The answers among some replies.
pub open spec fn answers_in(replies: Seq<Reply>) -> Seq<ResponseKind>
    decreases replies.len(),
{
    if replies.len() == 0 {
        Seq::empty()
    } else {
        match replies.last() {
            Reply::Response(response) => answers_in(replies.drop_last()).push(response),
            _ => answers_in(replies.drop_last()),
        }
    }
}

/// Whether a reply leaves its batch open.
pub open spec fn reads_on(reply: Reply) -> bool {
    reply is Response || reply is Heartbeat || reply is EngineError
}

/// What a request is answered after some replies and one that ends it.
pub open spec fn request_outcome(replies: Seq<Reply>, end: Reply) -> Result<
    Seq<ResponseKind>,
    ClientError,
> {
    if end is ServerBusy {
        Err(ClientError::ServerBusy)
    } else if exists|i: int| 0 <= i < replies.len() && replies[i] is EngineError {
        Err(ClientError::EngineError)
    } else {
        Ok(answers_in(replies))
    }
}

/// Reads a whole batch out of some replies: the answer to the request and
/// the number of replies that it took, or nothing where the batch does not
/// end among them.
pub fn read_batch(replies: &[Reply]) -> (r: Option<(Result<Vec<ResponseKind>, ClientError>, usize)>)
    ensures
        match r {
            None => forall|i: int| 0 <= i < replies@.len() ==> reads_on(#[trigger] replies@[i]),
            Some((answer, n)) => {
                &&& 0 < n <= replies@.len()
                &&& !reads_on(replies@[n - 1])
                &&& forall|i: int| 0 <= i < n - 1 ==> reads_on(#[trigger] replies@[i])
                &&& match request_outcome(replies@.take(n - 1), replies@[n - 1]) {
                    Ok(responses) => answer is Ok && answer->Ok_0@ == responses,
                    Err(e) => answer == Err::<Vec<ResponseKind>, ClientError>(e),
                }
            },
        },
{
    let mut batch = Batch::new();
    let mut i: usize = 0;
    while i < replies.len()
        invariant
            0 <= i <= replies@.len(),
            forall|j: int| 0 <= j < i ==> reads_on(#[trigger] replies@[j]),
            batch.answers() == answers_in(replies@.take(i as int)),
            batch.failed() == (exists|j: int| 0 <= j < i && replies@[j] is EngineError),
        decreases replies@.len() - i,
    {
        let ghost seen = replies@.take(i as int);
        proof {
            assert(replies@.take(i + 1).drop_last() =~= seen);
            if batch.failed() {
                let j = choose|j: int| 0 <= j < i && replies@[j] is EngineError;
                assert(seen[j] is EngineError);
            }
            assert forall|j: int| 0 <= j < seen.len() && seen[j] is EngineError implies batch.failed() by {
                assert(replies@[j] is EngineError);
            }
        }
        let reply = replies[i];
        let (next, step) = batch.step(reply);
        batch = next;
        match step {
            BatchStep::ReadOn => {},
            BatchStep::Done(answer) => return Some((answer, i + 1)),
        }
        i = i + 1;
    }
    None
}

/// Numbers the requests of a connection.
#[derive(Clone, Copy, Debug)]
pub struct RequestSequence {
    next_seq: u64,
}

/// The first response that tells a request sequence.
pub open spec fn first_hwm(responses: Seq<ResponseKind>) -> Option<u64>
    decreases responses.len(),
{
    if responses.len() == 0 {
        None
    } else {
        match responses[0] {
            ResponseKind::RequestSeqHwm { hwm } => Some(hwm),
            _ => first_hwm(responses.skip(1)),
        }
    }
}

/// Statistics of the server.
#[derive(Clone, Copy, Debug, PartialEq, Eq, Structural)]
pub struct StatsSnapshot {
    pub active_connections: u64,
    pub events_processed: u64,
    pub journal_sequence: u64,
}

/// The first response that tells statistics.
pub open spec fn first_stats(responses: Seq<ResponseKind>) -> Option<StatsSnapshot>
    decreases responses.len(),
{
    if responses.len() == 0 {
        None
    } else {
        match responses[0] {
            ResponseKind::StatsHeader { active_connections, events_processed, journal_sequence } => {
                Some(StatsSnapshot { active_connections, events_processed, journal_sequence })
            },
            _ => first_stats(responses.skip(1)),
        }
    }
}

impl RequestSequence {
    /// The number of the last request.
    pub closed spec fn last(&self) -> int {
        self.next_seq as int
    }

    /// The sequence of a fresh connection.
    pub fn new() -> (s: RequestSequence)
        ensures
            s.last() == 0,
    {
        RequestSequence { next_seq: 0 }
    }

    /// The number of the next request.
    pub fn advance(&mut self) -> (seq: u64)
        requires
            old(self).last() < u64::MAX,
        ensures
            seq == old(self).last() + 1,
            final(self).last() == seq,
    {
        self.next_seq = self.next_seq + 1;
        self.next_seq
    }

    /// Takes over the engine's number for this key from the answer to the
    /// query for it.
    pub fn synchronize_request_seq(&mut self, responses: &[ResponseKind]) -> (r: Result<
        u64,
        ClientError,
    >)
        ensures
            match first_hwm(responses@) {
                Some(hwm) => r == Ok::<u64, ClientError>(hwm) && final(self).last() == hwm,
                None => {
                    &&& r matches Err(ClientError::Protocol(text))
                    &&& text@ == "no RequestSeqHwm in response"@
                    &&& final(self).last() == old(self).last()
                },
            },
    {
        let mut i: usize = 0;
        assert(responses@.skip(0) =~= responses@);
        while i < responses.len()
            invariant
                0 <= i <= responses@.len(),
                *self == *old(self),
                first_hwm(responses@.skip(i as int)) == first_hwm(responses@),
            decreases responses@.len() - i,
        {
            assert(responses@.skip(i as int).skip(1) =~= responses@.skip(i + 1));
            if let ResponseKind::RequestSeqHwm { hwm } = responses[i] {
                self.next_seq = hwm;
                return Ok(hwm);
            }
            i = i + 1;
        }
        Err(ClientError::Protocol("no RequestSeqHwm in response".to_owned()))
    }
}

/// The statistics in the answer to the query for them.
pub fn query_stats(responses: &[ResponseKind]) -> (r: Result<StatsSnapshot, ClientError>)
    ensures
        match first_stats(responses@) {
            Some(stats) => r == Ok::<StatsSnapshot, ClientError>(stats),
            None => {
                &&& r matches Err(ClientError::Protocol(text))
                &&& text@ == "no StatsHeader in response"@
            },
        },
{
    let mut i: usize = 0;
    assert(responses@.skip(0) =~= responses@);
    while i < responses.len()
        invariant
            0 <= i <= responses@.len(),
            first_stats(responses@.skip(i as int)) == first_stats(responses@),
        decreases responses@.len() - i,
    {
        assert(responses@.skip(i as int).skip(1) =~= responses@.skip(i + 1));
        if let ResponseKind::StatsHeader { active_connections, events_processed, journal_sequence } =
            responses[i] {
            return Ok(StatsSnapshot { active_connections, events_processed, journal_sequence });
        }
        i = i + 1;
    }
    Err(ClientError::Protocol("no StatsHeader in response".to_owned()))
}

/// What a plain client does with a frame inside a batch.
#[derive(Clone, Copy, Debug, PartialEq, Eq, Structural)]
pub enum PlainStep {
    /// The batch is complete.
    Finish,
    /// The frame belongs to no batch.
    Skip,
    /// The frame is part of the answer.
    Keep,
}

/// What a plain client, which leaves errors to its caller, does with a frame
/// inside a batch.
pub fn plain_step(frame: &ServerFrame) -> (step: PlainStep)
    ensures
        step == (match *frame {
            ServerFrame::BatchEnd => PlainStep::Finish,
            ServerFrame::Heartbeat => PlainStep::Skip,
            ServerFrame::ServerReady => PlainStep::Skip,
            _ => PlainStep::Keep,
        }),
{
    match frame {
        ServerFrame::BatchEnd => PlainStep::Finish,
        ServerFrame::Heartbeat => PlainStep::Skip,
        ServerFrame::ServerReady => PlainStep::Skip,
        _ => PlainStep::Keep,
    }
}

/// What a plain client makes of the first frame of a connection.
pub fn expect_ready(frame: &ServerFrame) -> (r: Result<(), ClientError>)
    ensures
        if *frame is ServerReady {
            r == Ok::<(), ClientError>(())
        } else {
            &&& r matches Err(ClientError::Protocol(text))
            &&& text@ == "expected ServerReady"@
        },
{
    match frame {
        ServerFrame::ServerReady => Ok(()),
        _ => Err(ClientError::Protocol("expected ServerReady".to_owned())),
    }
}

/// A connection that took over the engine's number for its key sends next a
/// request that the engine does not take for a repetition.
pub proof fn law_synchronized_request_is_fresh(
    engine: &Exchange,
    key: u64,
    responses: Seq<ResponseKind>,
    synchronized: RequestSequence,
    request: TradingRequest,
)
    requires
        first_hwm(responses) is Some,
        first_hwm(responses)->0 == engine.mark(key),
        synchronized.last() == first_hwm(responses)->0,
        request.request_seq == synchronized.last() + 1,
    ensures
        !repeats(engine, key, request),
{
}

/// An engine error anywhere in a batch is reported once the batch ends, not
/// before, and takes the place of its answers.
pub proof fn law_engine_error_waits_for_batch_end(replies: Seq<Reply>, at: int)
    requires
        0 <= at < replies.len(),
        replies[at] is EngineError,
    ensures
        reads_on(replies[at]),
        request_outcome(replies, Reply::BatchEnd) == Err::<Seq<ResponseKind>, ClientError>(
            ClientError::EngineError,
        ),
{
}

/// A batch ends with its end or with a busy server, and with nothing else.
pub proof fn law_what_ends_a_batch(reply: Reply)
    ensures
        reads_on(reply) <==> reply !is BatchEnd && reply !is ServerBusy,
{
}

/// Answers are kept in the order in which they came, and nothing but answers.
pub proof fn law_answers_are_kept_in_order(before: Seq<Reply>, reply: Reply, after: Seq<Reply>)
    ensures
        answers_in(Seq::empty()) == Seq::<ResponseKind>::empty(),
        reply matches Reply::Response(response) ==> answers_in(before + seq![reply] + after)
            == answers_in(before) + seq![response] + answers_in(after),
        reply !is Response ==> answers_in(before + seq![reply] + after) == answers_in(before)
            + answers_in(after),
    decreases after.len(),
{
    let all = before + seq![reply] + after;
    if after.len() == 0 {
        assert(all.drop_last() =~= before);
        assert(all.last() == reply);
        assert(answers_in(before) + answers_in(after) =~= answers_in(before));
        if let Reply::Response(response) = reply {
            assert(answers_in(all) =~= answers_in(before) + seq![response] + answers_in(after));
        }
    } else {
        let rest = after.drop_last();
        law_answers_are_kept_in_order(before, reply, rest);
        assert(all.drop_last() =~= before + seq![reply] + rest);
        assert(all.last() == after.last());
        if let Reply::Response(response) = reply {
            assert(answers_in(all) =~= answers_in(before) + seq![response] + answers_in(after));
        } else {
            assert(answers_in(all) =~= answers_in(before) + answers_in(after));
        }
    }
}

/// A busy server refuses the request whatever came before; a batch that ends
/// without an engine error gives its answers.
pub proof fn law_outcome_by_how_a_batch_ends(replies: Seq<Reply>)
    ensures
        request_outcome(replies, Reply::ServerBusy) == Err::<Seq<ResponseKind>, ClientError>(
            ClientError::ServerBusy,
        ),
        (forall|i: int| 0 <= i < replies.len() ==> (#[trigger] replies[i]) !is EngineError)
            ==> request_outcome(replies, Reply::BatchEnd) == Ok::<Seq<ResponseKind>, ClientError>(
            answers_in(replies),
        ),
{
}

/// The request sequence and the statistics are taken from the first response
/// that tells them, wherever it stands; without one there is none.
pub proof fn law_first_telling_response_counts(
    before: Seq<ResponseKind>,
    telling: ResponseKind,
    after: Seq<ResponseKind>,
)
    ensures
        (forall|i: int| 0 <= i < before.len() ==> (#[trigger] before[i]) !is RequestSeqHwm) ==> (
        first_hwm(before) is None && (telling matches ResponseKind::RequestSeqHwm { hwm }
            ==> first_hwm(before + seq![telling] + after) == Some(hwm))),
        (forall|i: int| 0 <= i < before.len() ==> (#[trigger] before[i]) !is StatsHeader) ==> (
        first_stats(before) is None && (telling matches ResponseKind::StatsHeader {
            active_connections,
            events_processed,
            journal_sequence,
        } ==> first_stats(before + seq![telling] + after) == Some(
            StatsSnapshot { active_connections, events_processed, journal_sequence },
        ))),
    decreases before.len(),
{
    let all = before + seq![telling] + after;
    if before.len() == 0 {
        assert(all[0] == telling);
    } else {
        let rest = before.skip(1);
        law_first_telling_response_counts(rest, telling, after);
        assert(all.skip(1) =~= rest + seq![telling] + after);
        assert(all[0] == before[0]);
        assert(forall|i: int| 0 <= i < rest.len() ==> #[trigger] rest[i] == before[i + 1]);
    }
}

/// An error of the node comes to the client under its own name and in its own
/// words.
pub proof fn law_node_errors_keep_their_meaning(e: NodeError, r: ClientError)
    requires
        call_ensures(transport_error, (e,), r),
    ensures
        e is AuthFailed <==> r is AuthFailed,
        e is Disconnected <==> r is Disconnected,
        e is Protocol <==> r is Protocol,
        e is Io || e is Other <==> r is Io,
        e matches NodeError::Io(text) ==> r == ClientError::Io(text),
        e matches NodeError::Other(text) ==> r == ClientError::Io(text),
{
}

/// Requests are numbered by ones, and a connection that took over the
/// engine's number goes on right behind it.
pub proof fn law_requests_are_numbered_by_ones(s: &mut RequestSequence, seq: u64)
    requires
        call_ensures(RequestSequence::advance, (s,), seq),
    ensures
        seq - old(s).last() == 1,
        final(s).last() - old(s).last() == 1,
{
}

/// The number that was taken over is that of the first response which tells
/// one; without one nothing is taken over.
#[verifier::rlimit(40)]
pub proof fn law_told_number_is_taken_over(
    s: &mut RequestSequence,
    before: Seq<ResponseKind>,
    hwm: u64,
    responses: &[ResponseKind],
    r: Result<u64, ClientError>,
)
    requires
        call_ensures(RequestSequence::synchronize_request_seq, (s, responses), r),
    ensures
        before.push(ResponseKind::RequestSeqHwm { hwm }).is_prefix_of(responses@) && (forall|i: int|
            0 <= i < before.len() ==> !(#[trigger] before[i] is RequestSeqHwm)) ==> r == Ok::<
            u64,
            ClientError,
        >(hwm) && final(s).last() == hwm,
        r is Err ==> final(s).last() == old(s).last() && forall|i: int|
            0 <= i < responses@.len() ==> !(#[trigger] responses@[i] is RequestSeqHwm),
        r matches Ok(n) ==> final(s).last() == n && exists|i: int|
            0 <= i < responses@.len() && #[trigger] responses@[i] == (ResponseKind::RequestSeqHwm {
                hwm: n,
            }),
{
    lemma_first_hwm(responses@);
    if before.push(ResponseKind::RequestSeqHwm { hwm }).is_prefix_of(responses@) && (forall|i: int|
        0 <= i < before.len() ==> !(#[trigger] before[i] is RequestSeqHwm)) {
        let n = before.len() as int;
        assert(responses@[n] == before.push(ResponseKind::RequestSeqHwm { hwm })[n]);
        assert forall|i: int| 0 <= i < n implies !(#[trigger] responses@[i] is RequestSeqHwm) by {
            assert(responses@[i] == before.push(ResponseKind::RequestSeqHwm { hwm })[i]);
            assert(responses@[i] == before[i]);
        }
    }
}

/// The first response that tells a number is the one behind none that does.
proof fn lemma_first_hwm(responses: Seq<ResponseKind>)
    ensures
        first_hwm(responses) is None ==> forall|i: int|
            0 <= i < responses.len() ==> !(#[trigger] responses[i] is RequestSeqHwm),
        first_hwm(responses) matches Some(n) ==> exists|i: int|
            0 <= i < responses.len() && #[trigger] responses[i] == (ResponseKind::RequestSeqHwm {
                hwm: n,
            }) && forall|j: int| 0 <= j < i ==> !(#[trigger] responses[j] is RequestSeqHwm),
    decreases responses.len(),
{
    if responses.len() > 0 && !(responses[0] is RequestSeqHwm) {
        let rest = responses.skip(1);
        lemma_first_hwm(rest);
        if first_hwm(rest) is Some {
            let n = first_hwm(rest)->0;
            let k = choose|i: int|
                0 <= i < rest.len() && #[trigger] rest[i] == (ResponseKind::RequestSeqHwm {
                    hwm: n,
                }) && forall|j: int| 0 <= j < i ==> !(#[trigger] rest[j] is RequestSeqHwm);
            assert(responses[k + 1] == rest[k]);
            assert forall|j: int| 0 <= j < k + 1 implies !(#[trigger] responses[j] is RequestSeqHwm) by {
                if j > 0 {
                    assert(rest[j - 1] == responses[j]);
                }
            }
        } else {
            assert forall|i: int| 0 <= i < responses.len() implies !(
            #[trigger] responses[i] is RequestSeqHwm) by {
                if i > 0 {
                    assert(rest[i - 1] == responses[i]);
                }
            }
        }
    } else if responses.len() > 0 {
        assert(responses[0] == (ResponseKind::RequestSeqHwm { hwm: first_hwm(responses)->0 }));
    }
}

/// A plain client keeps every frame but the end of the batch, which finishes
/// it, and the two that belong to no batch; only the greeting opens a
/// connection.
pub proof fn law_plain_client_keeps_answers(
    frame: &ServerFrame,
    step: PlainStep,
    first: Result<(), ClientError>,
)
    requires
        call_ensures(plain_step, (frame,), step),
        call_ensures(expect_ready, (frame,), first),
    ensures
        step is Finish <==> *frame is BatchEnd,
        step is Skip <==> *frame is Heartbeat || *frame is ServerReady,
        first is Ok <==> *frame is ServerReady,
        first is Err ==> first->Err_0 is Protocol,
{
}

/// A batch ends at its first frame that ends one; it is answered with the
/// responses before it, in their order, where no error is among them.
#[verifier::rlimit(40)]
pub proof fn law_batch_is_answered_with_its_responses(
    replies: &[Reply],
    n: int,
    r: Option<(Result<Vec<ResponseKind>, ClientError>, usize)>,
)
    requires
        call_ensures(read_batch, (replies,), r),
        0 <= n < replies@.len(),
        forall|i: int| 0 <= i < n ==> (#[trigger] replies@[i]) is Response,
    ensures
        replies@[n] is BatchEnd ==> {
            &&& r matches Some((Ok(answers), taken))
            &&& taken == n + 1
            &&& answers@.len() == n
            &&& forall|i: int| 0 <= i < n ==> #[trigger] replies@[i] == Reply::Response(answers@[i])
        },
        replies@[n] is ServerBusy ==> r == Some(
            (Err::<Vec<ResponseKind>, ClientError>(ClientError::ServerBusy), (n + 1) as usize),
        ),
{
    if replies@[n] is BatchEnd || replies@[n] is ServerBusy {
        assert(r is Some) by {
            if r is None {
                assert(reads_on(replies@[n]));
            }
        }
        let taken = r.unwrap().1;
        if taken - 1 < n {
            assert(replies@[taken - 1] is Response);
        }
        if taken - 1 > n {
            assert(reads_on(replies@[n]));
        }
        let part = replies@.take(n);
        assert forall|i: int| 0 <= i < n implies (#[trigger] part[i]) is Response by {
            assert(part[i] == replies@[i]);
        }
        lemma_all_answers(part);
        assert forall|i: int| 0 <= i < n implies #[trigger] replies@[i] == Reply::Response(
            answers_in(part)[i],
        ) by {
            assert(part[i] == replies@[i]);
        }
    }
}

/// Replies that are all answers are answered in full.
proof fn lemma_all_answers(replies: Seq<Reply>)
    requires
        forall|i: int| 0 <= i < replies.len() ==> (#[trigger] replies[i]) is Response,
    ensures
        answers_in(replies).len() == replies.len(),
        forall|i: int|
            0 <= i < replies.len() ==> #[trigger] replies[i] == Reply::Response(
                answers_in(replies)[i],
            ),
    decreases replies.len(),
{
    if replies.len() > 0 {
        let rest = replies.drop_last();
        assert forall|i: int| 0 <= i < rest.len() implies (#[trigger] rest[i]) is Response by {
            assert(rest[i] == replies[i]);
        }
        lemma_all_answers(rest);
        assert forall|i: int| 0 <= i < replies.len() implies #[trigger] replies[i]
            == Reply::Response(answers_in(replies)[i]) by {
            if i < rest.len() {
                assert(rest[i] == replies[i]);
            }
        }
    }
}

/// An error with words passes them on behind its kind; the others have words
/// of their own each.
#[verifier::rlimit(40)]
pub proof fn law_errors_have_words_of_their_own(
    e: ClientError,
    other: ClientError,
    words: String,
    other_words: String,
)
    requires
        call_ensures(ClientError::message, (&e,), words),
        call_ensures(ClientError::message, (&other,), other_words),
    ensures
        e matches ClientError::Io(text) ==> words@.skip(words@.len() - text@.len()) == text@,
        e matches ClientError::Protocol(text) ==> words@.skip(words@.len() - text@.len()) == text@,
        e is Io && other is Protocol ==> words@ != other_words@,
        e !is Io && e !is Protocol && other !is Io && other !is Protocol && words@ == other_words@
            ==> e == other,
{
    reveal_strlit("I/O error: ");
    reveal_strlit("protocol error: ");
    reveal_strlit("disconnected from server");
    reveal_strlit("authentication failed");
    reveal_strlit("server busy");
    reveal_strlit("engine error");
    match e {
        ClientError::Io(text) => {
            assert(words@.skip(words@.len() - text@.len()) =~= text@);
            assert(words@[0] == 'I');
        },
        ClientError::Protocol(text) => {
            assert(words@.skip(words@.len() - text@.len()) =~= text@);
        },
        _ => {},
    }
    if other is Protocol {
        assert(other_words@[0] == 'p');
    }
}

/// Statistics are those of the first response that tells some; without one
/// there are none.
pub proof fn law_told_statistics_are_taken(
    responses: &[ResponseKind],
    before: Seq<ResponseKind>,
    after: Seq<ResponseKind>,
    connections: u64,
    events: u64,
    sequence: u64,
    r: Result<StatsSnapshot, ClientError>,
)
    requires
        call_ensures(query_stats, (responses,), r),
        forall|i: int| 0 <= i < before.len() ==> (#[trigger] before[i]) !is StatsHeader,
    ensures
        responses@ == before ==> r is Err,
        responses@ == before + seq![
            ResponseKind::StatsHeader {
                active_connections: connections,
                events_processed: events,
                journal_sequence: sequence,
            },
        ] + after ==> (r matches Ok(stats) && stats.active_connections == connections
            && stats.events_processed == events && stats.journal_sequence == sequence),
{
    law_first_telling_response_counts(
        before,
        ResponseKind::StatsHeader {
            active_connections: connections,
            events_processed: events,
            journal_sequence: sequence,
        },
        after,
    );
}

} // verus!
