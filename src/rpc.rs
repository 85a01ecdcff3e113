use vstd::prelude::*;
use crate::json::{JsonValue, lookup, distinct_keys, take_members};

verus! {

/// Why a request did not produce a result.
#[derive(Debug)]
pub enum RpcError {
    /// The transport closed before the response came.
    PeerClosed,
    /// The response named the call but carried neither a result nor an error.
    MalformedResponse,
    /// The core answered with an error value.
    Remote(JsonValue),
}

/// What an inbound line holds.
#[derive(Debug)]
pub enum Inbound {
    Response { id: u64, outcome: Result<JsonValue, RpcError> },
    Notification { method: String, params: JsonValue },
    Malformed,
}

/// The outcome of an inbound line for the engine's user.
#[derive(Debug)]
pub enum Delivery {
    /// The pending call with this id now holds its outcome.
    Resolved(u64),
    /// A response whose id names no call awaiting one; it was discarded.
    Unmatched(u64),
    /// A notification to hand to the handler.
    Notify { method: String, params: JsonValue },
    /// A line that was neither, or one that came after the transport closed.
    Dropped,
}

/// A request in flight, or resolved and not yet collected by its caller.
#[derive(Debug)]
pub struct PendingCall {
    pub id: u64,
    pub outcome: Option<Result<JsonValue, RpcError>>,
}

pub open spec fn response_outcome(result: Option<JsonValue>, error: Option<JsonValue>) -> Result<JsonValue, RpcError> {
    match result {
        Some(r) => Ok(r),
        None => match error {
            Some(e) => Err(RpcError::Remote(e)),
            None => Err(RpcError::MalformedResponse),
        },
    }
}

/// How the members of an inbound object are read: an `id` makes it a
/// response, else a string `method` makes it a notification.
pub open spec fn classify_members(entries: Seq<(String, JsonValue)>) -> Inbound {
    match lookup(entries, "id"@) {
        Some(JsonValue::Int(i)) => if i >= 0 {
            Inbound::Response {
                id: i as u64,
                outcome: response_outcome(lookup(entries, "result"@), lookup(entries, "error"@)),
            }
        } else {
            Inbound::Malformed
        },
        Some(_) => Inbound::Malformed,
        None => match lookup(entries, "method"@) {
            Some(JsonValue::Str(m)) => Inbound::Notification {
                method: m,
                params: match lookup(entries, "params"@) {
                    Some(p) => p,
                    None => JsonValue::Null,
                },
            },
            _ => Inbound::Malformed,
        },
    }
}

pub open spec fn classify(frame: JsonValue) -> Inbound {
    match frame {
        JsonValue::Object(entries) => classify_members(entries@),
        _ => Inbound::Malformed,
    }
}

/// The members of an object, in order.
pub open spec fn members(v: JsonValue) -> Option<Seq<(String, JsonValue)>> {
    match v {
        JsonValue::Object(entries) => Some(entries@),
        _ => None,
    }
}

/// The members of an outgoing request: `id`, `method`, `params`, in that order.
pub open spec fn is_request_members(entries: Seq<(String, JsonValue)>, id: u64, method: String, params: JsonValue) -> bool {
    &&& entries.len() == 3
    &&& entries[0].0@ == "id"@ && entries[0].1 == JsonValue::Int(id as i64)
    &&& entries[1].0@ == "method"@ && entries[1].1 == JsonValue::Str(method)
    &&& entries[2].0@ == "params"@ && entries[2].1 == params
}

/// The members of an outgoing notification: `method`, `params`.
pub open spec fn is_notification_members(entries: Seq<(String, JsonValue)>, method: String, params: JsonValue) -> bool {
    &&& entries.len() == 2
    &&& entries[0].0@ == "method"@ && entries[0].1 == JsonValue::Str(method)
    &&& entries[1].0@ == "params"@ && entries[1].1 == params
}

fn frame_keys() -> (r: Vec<String>)
    ensures
        r@.len() == 5,
        r@[0]@ == "id"@,
        r@[1]@ == "result"@,
        r@[2]@ == "error"@,
        r@[3]@ == "method"@,
        r@[4]@ == "params"@,
        distinct_keys(r@),
{
    let mut r: Vec<String> = Vec::new();
    r.push("id".to_owned());
    r.push("result".to_owned());
    r.push("error".to_owned());
    r.push("method".to_owned());
    r.push("params".to_owned());
    proof {
        reveal_strlit("id");
        reveal_strlit("result");
        reveal_strlit("error");
        reveal_strlit("method");
        reveal_strlit("params");
        let ks = seq!["id"@, "result"@, "error"@, "method"@, "params"@];
        assert(ks[0].len() == 2 && ks[1].len() == 6 && ks[2].len() == 5 && ks[3].len() == 6 && ks[4].len() == 6);
        assert(ks[1][0] != ks[3][0] && ks[1] != ks[3]);
        assert(ks[1][0] != ks[4][0] && ks[1] != ks[4]);
        assert(ks[3][0] != ks[4][0] && ks[3] != ks[4]);
        assert(forall|i: int, j: int| 0 <= i < 5 && 0 <= j < 5 && i != j ==> ks[i] != ks[j]);
        assert(forall|i: int| 0 <= i < 5 ==> r@[i]@ == ks[i]);
    }
    r
}

/// Reads an inbound frame.
pub fn parse_frame(frame: JsonValue) -> (r: Inbound)
    ensures
        r == classify(frame),
{
    match frame {
        JsonValue::Object(entries) => {
            let ghost es = entries@;
            let keys = frame_keys();
            let mut vals = take_members(entries, &keys);
            assert(vals@[0] == lookup(es, "id"@));
            assert(vals@[1] == lookup(es, "result"@));
            assert(vals@[2] == lookup(es, "error"@));
            assert(vals@[3] == lookup(es, "method"@));
            assert(vals@[4] == lookup(es, "params"@));
            let params = vals.pop().unwrap();
            let method = vals.pop().unwrap();
            let error = vals.pop().unwrap();
            let result = vals.pop().unwrap();
            let id = vals.pop().unwrap();
            match id {
                Some(JsonValue::Int(i)) => {
                    if i >= 0 {
                        let outcome = match result {
                            Some(r) => Ok(r),
                            None => match error {
                                Some(e) => Err(RpcError::Remote(e)),
                                None => Err(RpcError::MalformedResponse),
                            },
                        };
                        Inbound::Response { id: i as u64, outcome }
                    } else {
                        Inbound::Malformed
                    }
                },
                Some(_) => Inbound::Malformed,
                None => match method {
                    Some(JsonValue::Str(m)) => Inbound::Notification {
                        method: m,
                        params: match params {
                            Some(p) => p,
                            None => JsonValue::Null,
                        },
                    },
                    _ => Inbound::Malformed,
                },
            }
        },
        _ => Inbound::Malformed,
    }
}

/// Builds the frame of a request.
pub fn encode_request(id: u64, method: String, params: JsonValue) -> (r: JsonValue)
    requires
        id <= i64::MAX,
    ensures
        members(r) is Some,
        is_request_members(members(r)->0, id, method, params),
{
    let mut entries: Vec<(String, JsonValue)> = Vec::new();
    entries.push(("id".to_owned(), JsonValue::Int(id as i64)));
    entries.push(("method".to_owned(), JsonValue::Str(method)));
    entries.push(("params".to_owned(), params));
    JsonValue::Object(entries)
}

/// Builds the frame of a notification.
pub fn encode_notification(method: String, params: JsonValue) -> (r: JsonValue)
    ensures
        members(r) is Some,
        is_notification_members(members(r)->0, method, params),
{
    let mut entries: Vec<(String, JsonValue)> = Vec::new();
    entries.push(("method".to_owned(), JsonValue::Str(method)));
    entries.push(("params".to_owned(), params));
    JsonValue::Object(entries)
}


/// The engine's state as the contracts see it.
pub ghost struct EngineState {
    pub next_id: nat,
    pub calls: Seq<PendingCall>,
    pub closed: bool,
}

/// Ids are unique among the calls and all below the next id to hand out.
pub open spec fn engine_wf(s: EngineState) -> bool {
    &&& s.next_id <= i64::MAX
    &&& forall|i: int| 0 <= i < s.calls.len() ==> (#[trigger] s.calls[i]).id < s.next_id
    &&& forall|i: int, j: int| 0 <= i < s.calls.len() && 0 <= j < s.calls.len() && i != j
        ==> (#[trigger] s.calls[i]).id != (#[trigger] s.calls[j]).id
}

/// Whether a call with this id awaits its response.
pub open spec fn awaits(s: EngineState, id: u64) -> bool {
    exists|i: int| 0 <= i < s.calls.len() && (#[trigger] s.calls[i]).id == id && s.calls[i].outcome is None
}

/// Whether the call with this id holds an outcome not yet collected.
pub open spec fn holds_outcome(s: EngineState, id: u64) -> bool {
    exists|i: int| 0 <= i < s.calls.len() && (#[trigger] s.calls[i]).id == id && s.calls[i].outcome is Some
}

/// The position of the call with this id.
pub open spec fn position(s: EngineState, id: u64) -> int {
    choose|i: int| 0 <= i < s.calls.len() && (#[trigger] s.calls[i]).id == id
}

/// The state after a request is sent.
pub open spec fn after_begin(s: EngineState) -> EngineState {
    EngineState {
        next_id: s.next_id + 1,
        calls: s.calls.push(PendingCall { id: s.next_id as u64, outcome: None }),
        closed: s.closed,
    }
}

/// The state and delivery after an inbound frame.
pub open spec fn after_receive(s: EngineState, frame: JsonValue) -> (EngineState, Delivery) {
    if s.closed {
        (s, Delivery::Dropped)
    } else {
        match classify(frame) {
            Inbound::Response { id, outcome } => if awaits(s, id) {
                (
                    EngineState {
                        calls: s.calls.update(position(s, id), PendingCall { id, outcome: Some(outcome) }),
                        ..s
                    },
                    Delivery::Resolved(id),
                )
            } else {
                (s, Delivery::Unmatched(id))
            },
            Inbound::Notification { method, params } => (s, Delivery::Notify { method, params }),
            Inbound::Malformed => (s, Delivery::Dropped),
        }
    }
}

/// The state and the collected outcome after a caller collects its call.
pub open spec fn after_take(s: EngineState, id: u64) -> (EngineState, Option<Result<JsonValue, RpcError>>) {
    if holds_outcome(s, id) {
        (EngineState { calls: s.calls.remove(position(s, id)), ..s }, s.calls[position(s, id)].outcome)
    } else {
        (s, None)
    }
}

/// A call as it stands once the transport has closed.
pub open spec fn failed_on_close(c: PendingCall) -> PendingCall {
    match c.outcome {
        None => PendingCall { id: c.id, outcome: Some(Err(RpcError::PeerClosed)) },
        Some(_) => c,
    }
}

/// The state after the transport closes: every waiting call fails.
pub open spec fn after_disconnect(s: EngineState) -> EngineState {
    EngineState {
        next_id: s.next_id,
        calls: s.calls.map_values(|c: PendingCall| failed_on_close(c)),
        closed: true,
    }
}

/// The table of requests awaiting or holding their outcome.
pub struct RpcEngine {
    next_id: u64,
    calls: Vec<PendingCall>,
    closed: bool,
}

impl View for RpcEngine {
    type V = EngineState;

    closed spec fn view(&self) -> EngineState {
        EngineState { next_id: self.next_id as nat, calls: self.calls@, closed: self.closed }
    }
}

impl RpcEngine {
    pub fn new() -> (r: RpcEngine)
        ensures
            r@ == (EngineState { next_id: 0, calls: Seq::empty(), closed: false }),
            engine_wf(r@),
    {
        RpcEngine { next_id: 0, calls: Vec::new(), closed: false }
    }

    pub fn is_closed(&self) -> (r: bool)
        ensures
            r == self@.closed,
    {
        self.closed
    }

    /// Whether another request id can be handed out.
    pub fn has_free_id(&self) -> (r: bool)
        ensures
            r == (self@.next_id < i64::MAX),
    {
        self.next_id < i64::MAX as u64
    }

    fn index_of(&self, id: u64) -> (r: Option<usize>)
        requires
            engine_wf(self@),
        ensures
            match r {
                Some(i) => i < self@.calls.len() && self@.calls[i as int].id == id && position(self@, id) == i,
                None => forall|i: int| 0 <= i < self@.calls.len() ==> (#[trigger] self@.calls[i]).id != id,
            },
    {
        let mut i: usize = 0;
        while i < self.calls.len()
            invariant
                i <= self.calls@.len(),
                engine_wf(self@),
                forall|j: int| 0 <= j < i ==> (#[trigger] self.calls@[j]).id != id,
            decreases self.calls@.len() - i,
        {
            if self.calls[i].id == id {
                proof {
                    let p = position(self@, id);
                    assert(self@.calls[i as int].id == id);
                    assert(0 <= p < self@.calls.len() && self@.calls[p].id == id);
                    if p != i as int {
                        assert(self@.calls[p].id != self@.calls[i as int].id);
                    }
                }
                return Some(i);
            }
            i = i + 1;
        }
        None
    }

    /// Registers a request and builds its frame; fails once the transport has closed.
    pub fn begin_request(&mut self, method: String, params: JsonValue) -> (r: Result<(u64, JsonValue), RpcError>)
        requires
            engine_wf(old(self)@),
            old(self)@.next_id < i64::MAX,
        ensures
            engine_wf(final(self)@),
            old(self)@.closed ==> final(self)@ == old(self)@ && r matches Err(RpcError::PeerClosed),
            !old(self)@.closed ==> final(self)@ == after_begin(old(self)@) && r is Ok
                && r->Ok_0.0 == old(self)@.next_id
                && members(r->Ok_0.1) is Some
                && is_request_members(members(r->Ok_0.1)->0, r->Ok_0.0, method, params),
    {
        if self.closed {
            return Err(RpcError::PeerClosed);
        }
        let id = self.next_id;
        self.calls.push(PendingCall { id, outcome: None });
        self.next_id = id + 1;
        let frame = encode_request(id, method, params);
        Ok((id, frame))
    }

    /// Takes an inbound frame: resolves the call it answers, or hands out the
    /// notification it carries.
    pub fn receive(&mut self, frame: JsonValue) -> (r: Delivery)
        requires
            engine_wf(old(self)@),
        ensures
            engine_wf(final(self)@),
            (final(self)@, r) == after_receive(old(self)@, frame),
    {
        if self.closed {
            return Delivery::Dropped;
        }
        let ghost s = self@;
        match parse_frame(frame) {
            Inbound::Response { id, outcome } => {
                match self.index_of(id) {
                    Some(i) => {
                        if self.calls[i].outcome.is_none() {
                            self.calls.set(i, PendingCall { id, outcome: Some(outcome) });
                            assert(self@.calls =~= s.calls.update(position(s, id), PendingCall { id, outcome: Some(outcome) }));
                            Delivery::Resolved(id)
                        } else {
                            Delivery::Unmatched(id)
                        }
                    },
                    None => Delivery::Unmatched(id),
                }
            },
            Inbound::Notification { method, params } => Delivery::Notify { method, params },
            Inbound::Malformed => Delivery::Dropped,
        }
    }

    /// Collects the outcome of a resolved call, which then leaves the table.
    pub fn take_outcome(&mut self, id: u64) -> (r: Option<Result<JsonValue, RpcError>>)
        requires
            engine_wf(old(self)@),
        ensures
            engine_wf(final(self)@),
            (final(self)@, r) == after_take(old(self)@, id),
    {
        let ghost s = self@;
        match self.index_of(id) {
            Some(i) => {
                if self.calls[i].outcome.is_some() {
                    let c = self.calls.remove(i);
                    proof {
                        assert forall|a: int, b: int| 0 <= a < self@.calls.len() && 0 <= b < self@.calls.len() && a != b
                            implies (#[trigger] self@.calls[a]).id != (#[trigger] self@.calls[b]).id by {
                            let a0 = if a < i { a } else { a + 1 };
                            let b0 = if b < i { b } else { b + 1 };
                            assert(self@.calls[a] == s.calls[a0]);
                            assert(self@.calls[b] == s.calls[b0]);
                        }
                        assert forall|a: int| 0 <= a < self@.calls.len() implies (#[trigger] self@.calls[a]).id < self@.next_id by {
                            let a0 = if a < i { a } else { a + 1 };
                            assert(self@.calls[a] == s.calls[a0]);
                        }
                    }
                    c.outcome
                } else {
                    None
                }
            },
            None => None,
        }
    }

    /// Marks the transport closed: every call still awaiting its response
    /// fails with `PeerClosed`, and later frames are dropped.
    pub fn disconnect(&mut self)
        requires
            engine_wf(old(self)@),
        ensures
            engine_wf(final(self)@),
            final(self)@ == after_disconnect(old(self)@),
    {
        let ghost s = self@;
        let mut i: usize = 0;
        while i < self.calls.len()
            invariant
                i <= self.calls@.len(),
                self.calls@.len() == s.calls.len(),
                self.next_id == s.next_id,
                forall|j: int| 0 <= j < i ==> self.calls@[j] == failed_on_close(#[trigger] s.calls[j]),
                forall|j: int| i <= j < self.calls@.len() ==> self.calls@[j] == #[trigger] s.calls[j],
            decreases self.calls@.len() - i,
        {
            if self.calls[i].outcome.is_none() {
                let id = self.calls[i].id;
                self.calls.set(i, PendingCall { id, outcome: Some(Err(RpcError::PeerClosed)) });
            }
            i = i + 1;
        }
        self.closed = true;
        assert(self@.calls =~= s.calls.map_values(|c: PendingCall| failed_on_close(c)));
    }
}


/// Once a call holds its outcome, no inbound frame changes it, and a second
/// response naming it is not reported as resolving it.
pub proof fn lemma_resolved_once(s: EngineState, id: u64, frame: JsonValue)
    requires
        engine_wf(s),
        holds_outcome(s, id),
    ensures
        after_receive(s, frame).0.calls.len() == s.calls.len(),
        after_receive(s, frame).0.calls[position(s, id)] == s.calls[position(s, id)],
        after_receive(s, frame).1 != Delivery::Resolved(id),
{
    let p = position(s, id);
    assert(0 <= p < s.calls.len() && s.calls[p].id == id);
    if !s.closed {
        match classify(frame) {
            Inbound::Response { id: rid, outcome } => {
                if awaits(s, rid) {
                    let q = position(s, rid);
                    let w = choose|i: int| 0 <= i < s.calls.len() && (#[trigger] s.calls[i]).id == rid && s.calls[i].outcome is None;
                    assert(0 <= q < s.calls.len() && s.calls[q].id == rid);
                    if q != w {
                        assert(s.calls[q].id != s.calls[w].id);
                    }
                    if rid == id {
                        if p != w {
                            assert(s.calls[p].id != s.calls[w].id);
                        }
                    }
                    assert(q != p);
                }
            },
            _ => {},
        }
    }
}

/// A response that comes while its call awaits it resolves that call with the
/// response's outcome, and with nothing else.
pub proof fn lemma_response_resolves(s: EngineState, id: u64, outcome: Result<JsonValue, RpcError>, frame: JsonValue)
    requires
        engine_wf(s),
        !s.closed,
        awaits(s, id),
        classify(frame) == (Inbound::Response { id, outcome }),
    ensures
        after_receive(s, frame).1 == Delivery::Resolved(id),
        after_receive(s, frame).0.calls == s.calls.update(position(s, id), PendingCall { id, outcome: Some(outcome) }),
        after_take(after_receive(s, frame).0, id).1 == Some(outcome),
{
    let p = position(s, id);
    let w = choose|i: int| 0 <= i < s.calls.len() && (#[trigger] s.calls[i]).id == id && s.calls[i].outcome is None;
    assert(0 <= p < s.calls.len() && s.calls[p].id == id);
    if p != w {
        assert(s.calls[p].id != s.calls[w].id);
    }
    let t = after_receive(s, frame).0;
    assert(t.calls[p].id == id);
    assert(holds_outcome(t, id));
    let q = position(t, id);
    assert(0 <= q < t.calls.len() && t.calls[q].id == id);
    if q != p {
        assert(t.calls[q] == s.calls[q]);
        assert(s.calls[q].id != s.calls[p].id);
    }
}

/// Once the transport closes, a call that awaited its response holds
/// `PeerClosed`, its caller can collect that, and no later frame changes anything.
pub proof fn lemma_disconnect_fails_waiting(s: EngineState, id: u64, frame: JsonValue)
    requires
        engine_wf(s),
        awaits(s, id),
    ensures
        after_take(after_disconnect(s), id).1 matches Some(Err(RpcError::PeerClosed)),
        after_receive(after_disconnect(s), frame) == (after_disconnect(s), Delivery::Dropped),
{
    let w = choose|i: int| 0 <= i < s.calls.len() && (#[trigger] s.calls[i]).id == id && s.calls[i].outcome is None;
    let t = after_disconnect(s);
    assert(t.calls[w] == failed_on_close(s.calls[w]));
    assert(holds_outcome(t, id));
    let q = position(t, id);
    assert(0 <= q < t.calls.len() && t.calls[q].id == id);
    assert(t.calls[q] == failed_on_close(s.calls[q]));
    if q != w {
        assert(s.calls[q].id != s.calls[w].id);
    }
}

/// A request, read back with a `result` member added, resolves the call that
/// sending it registered, and that call's caller collects exactly that result.
pub proof fn lemma_request_round_trip(
    s: EngineState,
    method: String,
    params: JsonValue,
    entries: Seq<(String, JsonValue)>,
    key: String,
    result: JsonValue,
    frame: JsonValue,
)
    requires
        engine_wf(s),
        !s.closed,
        s.next_id < i64::MAX,
        is_request_members(entries, s.next_id as u64, method, params),
        key@ == "result"@,
        members(frame) == Some(entries.push((key, result))),
    ensures
        after_receive(after_begin(s), frame).1 == Delivery::Resolved(s.next_id as u64),
        after_take(after_receive(after_begin(s), frame).0, s.next_id as u64).1 == Some(Ok::<JsonValue, RpcError>(result)),
{
    reveal_strlit("id");
    reveal_strlit("result");
    reveal_strlit("error");
    reveal_strlit("method");
    reveal_strlit("params");
    let id = s.next_id as u64;
    let es = entries.push((key, result));
    let e1 = es.drop_first();
    let e2 = e1.drop_first();
    let e3 = e2.drop_first();
    assert(e3.drop_first().len() == 0);
    assert(e3[0] == (key, result));
    assert("result"@[0] != "method"@[0]);
    assert("result"@[0] != "params"@[0]);
    assert(lookup(es, "id"@) == Some(JsonValue::Int(id as i64)));
    assert(lookup(e3, "result"@) == Some(result));
    assert(lookup(e2, "result"@) == Some(result));
    assert(lookup(e1, "result"@) == Some(result));
    assert(lookup(es, "result"@) == Some(result));
    let s1 = after_begin(s);
    assert(s1.calls[s.calls.len() as int].id == id);
    assert forall|i: int, j: int| 0 <= i < s1.calls.len() && 0 <= j < s1.calls.len() && i != j
        implies (#[trigger] s1.calls[i]).id != (#[trigger] s1.calls[j]).id by {
        if i < s.calls.len() {
            assert(s1.calls[i] == s.calls[i]);
        }
        if j < s.calls.len() {
            assert(s1.calls[j] == s.calls[j]);
        }
    }
    assert forall|i: int| 0 <= i < s1.calls.len() implies (#[trigger] s1.calls[i]).id < s1.next_id by {
        if i < s.calls.len() {
            assert(s1.calls[i] == s.calls[i]);
        }
    }
    assert(awaits(s1, id));
    lemma_response_resolves(s1, id, Ok(result), frame);
}

} // verus!
