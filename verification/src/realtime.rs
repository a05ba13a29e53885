//! The realtime connection manager.
//!
//! One engine owns the subscription registry, the connection state, the
//! reconnect/backoff counters and the list of callers waiting for a
//! connection.  Every transition is a plain function from the current
//! state and an input to the next state and the actions the driver must
//! perform (open the stream, announce topics, sleep and retry, resolve
//! waiters, dispatch to listeners).  The driver performs the I/O and
//! feeds results back; the engine never blocks.

use vstd::prelude::*;
use vstd::utf8::{valid_utf8, decode_utf8};
use crate::registry::{
    SubscriptionRegistry, spec_add, spec_remove_by_id, spec_remove_topic, spec_remove_prefix,
    has_key, has_key_utf8, key_index_utf8, keys_of, any_id_match, any_key_match,
    any_prefix_match, registry_inv,
};
use crate::keys::{RealtimeOptions, spec_key_of, key_of};
use crate::messages::{RealtimeMessage, decode_message, msg_decodes, msg_action_of};
use crate::frames::ServerEvent;
use crate::strutil::{bytes_eq, bytes_to_string_lossy};

verus! {

/// Errors the engine can hand to callers, by the failure they stand for.
#[derive(Debug, Clone, PartialEq, Eq, Structural)]
pub enum RealtimeError {
    /// The subscribe call itself was invalid (empty topic).
    Validation,
    /// The stream could not be opened (timeout, non-success status,
    /// transport failure on open).
    Connect,
    /// The stream failed mid-flight.
    Transport,
    /// Pushing the topic list to the server failed (and was not a
    /// cancelled call).
    Announce,
}

/// The connection lifecycle.
pub enum ConnectionState {
    /// No stream and no attempt in flight.
    Disconnected,
    /// An attempt (first or reconnect) is in flight.
    Connecting,
    /// A stream is established under a server-issued session id.
    Connected {
        /// The session id the server assigned on the control frame.
        session_id: String,
    },
}

/// Spec-level view of the connection state.
pub ghost enum StateModel {
    Disconnected,
    Connecting,
    Connected { session: Seq<char> },
}

/// Spec-level view of the whole engine.
pub ghost struct EngineModel {
    /// Registry contents: (key, listener ids) per bucket.
    pub registry: Seq<(Seq<char>, Seq<u64>)>,
    /// Next subscription id.
    pub next_sub: u64,
    /// Connection state.
    pub state: StateModel,
    /// Consecutive reconnect attempts so far.
    pub attempts: u64,
    /// Backoff schedule in milliseconds.
    pub schedule: Seq<u64>,
    /// Cap on reconnect attempts.
    pub max_attempts: u64,
    /// Waiters pending on the in-flight connect attempt.
    pub waiters: Seq<u64>,
    /// Next waiter handle.
    pub next_waiter: u64,
    /// Topic keys most recently announced to the server.
    pub last_sent: Seq<Seq<char>>,
}

/// Whether callers may treat the engine as connected: an established
/// session with a non-empty id and no waiter still pending.
pub open spec fn is_connected_m(m: EngineModel) -> bool {
    &&& m.state matches StateModel::Connected { session } && session.len() > 0
    &&& m.waiters.len() == 0
}

/// The counters and configuration that only subscribe may move: every
/// other transition leaves the id counters, the backoff schedule and
/// the attempt cap alone.
pub open spec fn config_unchanged(pre: EngineModel, post: EngineModel) -> bool {
    &&& post.next_sub == pre.next_sub
    &&& post.next_waiter == pre.next_waiter
    &&& post.schedule == pre.schedule
    &&& post.max_attempts == pre.max_attempts
}

/// What a removal that leaves listeners must announce: under a live
/// session, the remaining topic list (which also becomes the
/// last-announced set); without one, nothing.
pub open spec fn announce_for(
    reg: Seq<(Seq<char>, Seq<u64>)>,
    state: StateModel,
    pre_last: Seq<Seq<char>>,
    post_last: Seq<Seq<char>>,
    ann: Option<AnnounceCall>,
) -> bool {
    match state {
        StateModel::Connected { session } => if session.len() > 0 {
            ann matches Option::Some(a) && a@.0 == session && a@.1 == keys_of(reg) && post_last
                == keys_of(reg)
        } else {
            ann is None && post_last == pre_last
        },
        _ => ann is None && post_last == pre_last,
    }
}

/// Result of announcing: who to tell and which topics.
pub struct AnnounceCall {
    /// The session id to announce under.
    pub client_id: String,
    /// Every topic key with at least one listener.
    pub topics: Vec<String>,
}

impl View for AnnounceCall {
    type V = (Seq<char>, Seq<Seq<char>>);

    open spec fn view(&self) -> Self::V {
        (self.client_id@, self.topics@.map_values(|s: String| s@))
    }
}

/// What one subscribe call asks the driver to do.
pub struct SubscribeOutcome {
    /// The new subscription's id; removing it later uses this id.
    pub sub_id: u64,
    /// When set, the caller must await this waiter's resolution before
    /// treating the subscription as live.
    pub waiter: Option<u64>,
    /// When set, the driver must open the stream now.
    pub open_stream: bool,
    /// When set, the driver must push this topic list to the server.
    pub announce: Option<AnnounceCall>,
}

/// Spec-level effect of one subscribe call.
pub ghost struct SubscribeStep {
    pub model: EngineModel,
    pub sub_id: u64,
    pub waiter: Option<u64>,
    pub open_stream: bool,
    pub announce: Option<(Seq<char>, Seq<Seq<char>>)>,
}

/// The transition one subscribe call makes, after its key is derived.
pub open spec fn spec_subscribe(m: EngineModel, key: Seq<char>) -> SubscribeStep {
    let reg2 = spec_add(m.registry, key, m.next_sub);
    let base = EngineModel {
        registry: reg2,
        next_sub: (m.next_sub + 1) as u64,
        state: m.state,
        attempts: m.attempts,
        schedule: m.schedule,
        max_attempts: m.max_attempts,
        waiters: m.waiters,
        next_waiter: m.next_waiter,
        last_sent: m.last_sent,
    };
    if is_connected_m(m) {
        if !has_key(m.registry, key) {
            let topics = keys_of(reg2);
            let session = m.state->session;
            SubscribeStep {
                model: EngineModel { last_sent: topics, ..base },
                sub_id: m.next_sub,
                waiter: Option::None,
                open_stream: false,
                announce: Option::Some((session, topics)),
            }
        } else {
            SubscribeStep {
                model: base,
                sub_id: m.next_sub,
                waiter: Option::None,
                open_stream: false,
                announce: Option::None,
            }
        }
    } else {
        SubscribeStep {
            model: EngineModel {
                state: StateModel::Connecting,
                waiters: m.waiters.push(m.next_waiter),
                next_waiter: (m.next_waiter + 1) as u64,
                ..base
            },
            sub_id: m.next_sub,
            waiter: Option::Some(m.next_waiter),
            open_stream: m.attempts == 0 && m.waiters.len() == 0,
            announce: Option::None,
        }
    }
}

/// Two subscribe calls that arrive while the engine is disconnected
/// lead to exactly one stream-open: the first starts the attempt, the
/// second only joins it as a waiter.
pub proof fn lemma_one_open_per_connecting(m: EngineModel, k1: Seq<char>, k2: Seq<char>)
    requires
        m.state is Disconnected,
        m.waiters.len() == 0,
        m.attempts == 0,
    ensures
        spec_subscribe(m, k1).open_stream,
        spec_subscribe(m, k1).waiter is Some,
        !spec_subscribe(spec_subscribe(m, k1).model, k2).open_stream,
        spec_subscribe(spec_subscribe(m, k1).model, k2).waiter is Some,
{
    let m1 = spec_subscribe(m, k1).model;
    assert(!is_connected_m(m));
    assert(m1.state is Connecting);
    assert(m1.waiters.len() == 1);
    assert(!is_connected_m(m1));
}

/// What the driver must do after a stream error or failed open.
pub enum ErrorOutcome {
    /// No reconnection will be attempted: reject these waiters with the
    /// triggering error and stop.
    GiveUp {
        /// The waiters to reject.
        rejected: Vec<u64>,
    },
    /// Reconnect: sleep this many milliseconds, then (unless an
    /// explicit disconnect arrived meanwhile) open the stream again.
    Retry {
        /// The backoff delay before the next attempt.
        delay_ms: u64,
    },
}

/// What one unsubscribe call asks the driver to do.
pub struct UnsubscribeOutcome {
    /// The registry became empty: tear the stream down.
    pub disconnect: bool,
    /// Waiters resolved (successfully) by the teardown.
    pub resolved: Vec<u64>,
    /// The topic list to re-announce, when listeners remain.
    pub announce: Option<AnnounceCall>,
}

/// The backoff delay for a reconnect attempt: the schedule entry at the
/// attempt index, clamped to the last entry.
pub fn backoff_delay(schedule: &Vec<u64>, attempt: u64) -> (d: u64)
    requires
        schedule@.len() > 0,
    ensures
        d == schedule@[if attempt < schedule@.len() - 1 {
            attempt as int
        } else {
            schedule@.len() - 1
        }],
{
    let last = schedule.len() - 1;
    if attempt < last as u64 {
        schedule[attempt as usize]
    } else {
        schedule[last]
    }
}

/// The realtime connection manager.
pub struct RealtimeEngine {
    registry: SubscriptionRegistry,
    state: ConnectionState,
    attempts: u64,
    schedule: Vec<u64>,
    max_attempts: u64,
    waiters: Vec<u64>,
    next_waiter: u64,
    last_sent: Vec<String>,
}

impl View for RealtimeEngine {
    type V = EngineModel;

    closed spec fn view(&self) -> EngineModel {
        EngineModel {
            registry: self.registry.model(),
            next_sub: self.registry.next(),
            state: match self.state {
                ConnectionState::Disconnected => StateModel::Disconnected,
                ConnectionState::Connecting => StateModel::Connecting,
                ConnectionState::Connected { session_id } => StateModel::Connected {
                    session: session_id@,
                },
            },
            attempts: self.attempts,
            schedule: self.schedule@,
            max_attempts: self.max_attempts,
            waiters: self.waiters@,
            next_waiter: self.next_waiter,
            last_sent: self.last_sent@.map_values(|s: String| s@),
        }
    }
}

impl RealtimeEngine {
    /// Well-formedness: the registry invariant and a non-empty backoff
    /// schedule.
    pub open spec fn wf(&self) -> bool {
        registry_inv(self@.registry) && self@.schedule.len() > 0
    }

    /// A disconnected engine with the default backoff schedule and an
    /// unbounded reconnect budget.
    pub fn new() -> (r: Self)
        ensures
            r.wf(),
            r@.registry.len() == 0,
            r@.state is Disconnected,
            r@.attempts == 0,
            r@.waiters.len() == 0,
            r@.last_sent.len() == 0,
            r@.next_sub == 1,
            r@.next_waiter == 1,
            r@.max_attempts == u64::MAX,
            r@.schedule =~= seq![200u64, 300u64, 500u64, 1000u64, 1200u64, 1500u64, 2000u64],
    {
        let schedule: Vec<u64> = vec![200, 300, 500, 1000, 1200, 1500, 2000];
        RealtimeEngine {
            registry: SubscriptionRegistry::new(),
            state: ConnectionState::Disconnected,
            attempts: 0,
            schedule,
            max_attempts: u64::MAX,
            waiters: Vec::new(),
            next_waiter: 1,
            last_sent: Vec::new(),
        }
    }

    /// The bound, in milliseconds, on establishing the stream.
    pub fn max_connect_timeout(&self) -> (r: u64)
        ensures
            r == 15000,
    {
        15000
    }

    /// Whether the realtime connection is established and no caller is
    /// still waiting on it.
    pub fn is_connected(&self) -> (r: bool)
        ensures
            r == is_connected_m(self@),
    {
        match &self.state {
            ConnectionState::Connected { session_id } => !session_id.as_str().is_empty()
                && self.waiters.len() == 0,
            _ => false,
        }
    }

    /// The server-issued session id, empty while not connected.
    pub fn get_client_id(&self) -> (r: String)
        ensures
            r@ == match self@.state {
                StateModel::Connected { session } => session,
                _ => Seq::<char>::empty(),
            },
    {
        match &self.state {
            ConnectionState::Connected { session_id } => session_id.clone(),
            _ => String::new(),
        }
    }

    /// Whether a retry is still wanted after a backoff sleep: an
    /// explicit disconnect during the sleep cancels it.
    pub fn should_reopen(&self) -> (r: bool)
        ensures
            r == (self@.state is Connecting),
    {
        match &self.state {
            ConnectionState::Connecting => true,
            _ => false,
        }
    }

    /// Whether subscribe may still be called: the id counters have not
    /// been exhausted.
    pub fn can_subscribe(&self) -> (r: bool)
        ensures
            r == (self@.next_sub < u64::MAX && self@.next_waiter < u64::MAX),
    {
        self.registry.peek_next() < u64::MAX && self.next_waiter < u64::MAX
    }

    /// How many consecutive reconnect attempts have been made.
    pub fn reconnect_attempts(&self) -> (r: u64)
        ensures
            r == self@.attempts,
    {
        self.attempts
    }

    /// Registers a listener under the topic (plus optional options) and
    /// says how to get connected: an empty topic is rejected outright;
    /// otherwise the listener is stored and, depending on the state,
    /// the driver re-announces the topic list, or the caller joins the
    /// attempt in flight as a waiter — opening the stream only when no
    /// attempt (first or reconnect) exists at all.
    pub fn subscribe(&mut self, topic: &str, options: Option<&RealtimeOptions>) -> (r: Result<
        SubscribeOutcome,
        RealtimeError,
    >)
        requires
            old(self).wf(),
            old(self)@.next_sub < u64::MAX,
            old(self)@.next_waiter < u64::MAX,
        ensures
            final(self).wf(),
            topic@.len() == 0 ==> r == Result::<SubscribeOutcome, RealtimeError>::Err(
                RealtimeError::Validation,
            ) && final(self)@ == old(self)@,
            topic@.len() > 0 ==> ({
                let step = spec_subscribe(
                    old(self)@,
                    spec_key_of(topic@, match options {
                        Option::Some(o) => Option::Some(o@),
                        Option::None => Option::None,
                    }),
                );
                &&& final(self)@ == step.model
                &&& r matches Result::Ok(out) && out.sub_id == step.sub_id && out.waiter
                    == step.waiter && out.open_stream == step.open_stream && (match (
                    out.announce,
                    step.announce,
                ) {
                    (Option::Some(a), Option::Some(s)) => a@ == s,
                    (Option::None, Option::None) => true,
                    _ => false,
                })
            }),
    {
        if topic.is_empty() {
            return Result::Err(RealtimeError::Validation);
        }
        let key = key_of(topic, options);
        let existed = self.registry.contains_key(key.as_str());
        let sub_id = self.registry.add(key.as_str());
        if self.is_connected() {
            if !existed {
                let announce = self.submit_subscriptions();
                proof {
                    assert(self@ == spec_subscribe(old(self)@, key@).model);
                }
                Result::Ok(
                    SubscribeOutcome {
                        sub_id,
                        waiter: Option::None,
                        open_stream: false,
                        announce,
                    },
                )
            } else {
                Result::Ok(
                    SubscribeOutcome {
                        sub_id,
                        waiter: Option::None,
                        open_stream: false,
                        announce: Option::None,
                    },
                )
            }
        } else {
            let w = self.next_waiter;
            self.next_waiter = self.next_waiter + 1;
            let open_stream = self.attempts == 0 && self.waiters.len() == 0;
            self.waiters.push(w);
            self.state = ConnectionState::Connecting;
            Result::Ok(
                SubscribeOutcome {
                    sub_id,
                    waiter: Option::Some(w),
                    open_stream,
                    announce: Option::None,
                },
            )
        }
    }

    /// Re-announces the active topic list under the current session.
    /// Without a session (not yet connected) nothing is sent; the next
    /// successful connect announces everything anyway.
    pub fn submit_subscriptions(&mut self) -> (r: Option<AnnounceCall>)
        requires
            old(self).wf(),
        ensures
            final(self).wf(),
            final(self)@.registry == old(self)@.registry,
            final(self)@.next_sub == old(self)@.next_sub,
            final(self)@.state == old(self)@.state,
            final(self)@.attempts == old(self)@.attempts,
            final(self)@.schedule == old(self)@.schedule,
            final(self)@.max_attempts == old(self)@.max_attempts,
            final(self)@.waiters == old(self)@.waiters,
            final(self)@.next_waiter == old(self)@.next_waiter,
            (match old(self)@.state {
                StateModel::Connected { session } => session.len() > 0,
                _ => false,
            }) ==> (r matches Option::Some(a) && a@.0 == old(self)@.state->session && a@.1
                == keys_of(old(self)@.registry) && final(self)@.last_sent == keys_of(
                old(self)@.registry,
            )),
            !(match old(self)@.state {
                StateModel::Connected { session } => session.len() > 0,
                _ => false,
            }) ==> r is None && final(self)@.last_sent == old(self)@.last_sent,
    {
        let client_id = match &self.state {
            ConnectionState::Connected { session_id } => session_id.clone(),
            _ => String::new(),
        };
        if client_id.as_str().is_empty() {
            return Option::None;
        }
        let topics = self.registry.active_keys();
        self.last_sent = clone_strings(&topics);
        Option::Some(AnnounceCall { client_id, topics })
    }

    /// Handles one completed frame event.  The control frame records
    /// the session id, resets the backoff counter, announces the active
    /// topics and resolves every pending waiter; any other frame is a
    /// data event whose payload must decode before any listener hears
    /// of it — a payload that does not decode is dropped and nothing
    /// else changes.
    pub fn handle_event(&mut self, ev: &ServerEvent) -> (r: EventOutcome)
        requires
            old(self).wf(),
        ensures
            final(self).wf(),
            config_unchanged(old(self)@, final(self)@),
            ev@.0 == pb_connect_bytes() ==> ({
                &&& final(self)@.state matches StateModel::Connected { session }
                &&& (valid_utf8(ev@.2) ==> final(self)@.state->session == decode_utf8(ev@.2))
                &&& final(self)@.attempts == 0
                &&& final(self)@.waiters.len() == 0
                &&& final(self)@.registry == old(self)@.registry
                &&& r matches EventOutcome::Connected { announce, resolved } && resolved@
                    == old(self)@.waiters && (if keys_of(old(self)@.registry).len() > 0 {
                    announce matches Option::Some(a) && a@.0 == final(self)@.state->session && a@.1
                        == keys_of(old(self)@.registry) && final(self)@.last_sent == keys_of(
                        old(self)@.registry,
                    )
                } else {
                    announce is None && final(self)@.last_sent == old(self)@.last_sent
                })
            }),
            ev@.0 != pb_connect_bytes() ==> final(self)@ == old(self)@ && (if msg_decodes(
                ev@.1,
            ) {
                r matches EventOutcome::Dispatch { listeners, message } && message.action@
                    == msg_action_of(ev@.1) && listeners@ == (if has_key_utf8(
                    old(self)@.registry,
                    ev@.0,
                ) {
                    old(self)@.registry[key_index_utf8(old(self)@.registry, ev@.0)].1
                } else {
                    Seq::<u64>::empty()
                })
            } else {
                r is Ignored
            }),
    {
        let pb: Vec<u8> = vec![80u8, 66u8, 95u8, 67u8, 79u8, 78u8, 78u8, 69u8, 67u8, 84u8];
        proof {
            assert(pb@ =~= pb_connect_bytes());
        }
        if bytes_eq(&ev.event_type, &pb) {
            let session = bytes_to_string_lossy(&ev.id);
            let topics = self.registry.active_keys();
            let announce = if topics.len() > 0 {
                self.last_sent = clone_strings(&topics);
                Option::Some(AnnounceCall { client_id: session.clone(), topics })
            } else {
                Option::None
            };
            self.state = ConnectionState::Connected { session_id: session };
            self.attempts = 0;
            let mut resolved: Vec<u64> = Vec::new();
            core::mem::swap(&mut resolved, &mut self.waiters);
            proof {
                assert(keys_of(old(self)@.registry).len() == old(self)@.registry.len());
            }
            EventOutcome::Connected { announce, resolved }
        } else {
            match decode_message(&ev.data) {
                Option::None => EventOutcome::Ignored,
                Option::Some(message) => {
                    let listeners = self.registry.dispatch_by_event(&ev.event_type);
                    EventOutcome::Dispatch { listeners, message }
                },
            }
        }
    }

    /// Handles a failed open or a broken stream: on the very first
    /// attempt, or past the attempt budget, every waiter is rejected
    /// and the engine stops disconnected; otherwise it stays in the
    /// connecting state and asks for a backoff sleep and a retry.
    pub fn handle_stream_error(&mut self) -> (r: ErrorOutcome)
        requires
            old(self).wf(),
            old(self)@.attempts < u64::MAX,
        ensures
            final(self).wf(),
            final(self)@.registry == old(self)@.registry,
            final(self)@.last_sent == old(self)@.last_sent,
            config_unchanged(old(self)@, final(self)@),
            ({
                let was_connected = old(self)@.state matches StateModel::Connected { session }
                    && session.len() > 0;
                if (!was_connected && old(self)@.attempts == 0) || old(self)@.attempts > old(self)@.max_attempts {
                    &&& r matches ErrorOutcome::GiveUp { rejected } && rejected@ == old(self)@.waiters
                    &&& final(self)@.state is Disconnected
                    &&& final(self)@.attempts == 0
                    &&& final(self)@.waiters.len() == 0
                } else {
                    &&& r matches ErrorOutcome::Retry { delay_ms } && delay_ms == old(self)@.schedule[if old(self)@.attempts < old(self)@.schedule.len() - 1 {
                        old(self)@.attempts as int
                    } else {
                        old(self)@.schedule.len() - 1
                    }]
                    &&& final(self)@.state is Connecting
                    &&& final(self)@.attempts == old(self)@.attempts + 1
                    &&& final(self)@.waiters == old(self)@.waiters
                }
            }),
    {
        let was_connected = match &self.state {
            ConnectionState::Connected { session_id } => !session_id.as_str().is_empty(),
            _ => false,
        };
        if (!was_connected && self.attempts == 0) || self.attempts > self.max_attempts {
            let mut rejected: Vec<u64> = Vec::new();
            core::mem::swap(&mut rejected, &mut self.waiters);
            self.state = ConnectionState::Disconnected;
            self.attempts = 0;
            ErrorOutcome::GiveUp { rejected }
        } else {
            self.state = ConnectionState::Connecting;
            let delay_ms = backoff_delay(&self.schedule, self.attempts);
            self.attempts = self.attempts + 1;
            ErrorOutcome::Retry { delay_ms }
        }
    }

    /// Tears the connection state down.  An explicit disconnect (not
    /// part of a reconnect cycle) also resets the backoff counter and
    /// resolves — not rejects — the pending waiters.
    pub fn disconnect(&mut self, from_reconnect: bool) -> (resolved: Vec<u64>)
        requires
            old(self).wf(),
        ensures
            final(self).wf(),
            final(self)@.registry == old(self)@.registry,
            final(self)@.last_sent == old(self)@.last_sent,
            config_unchanged(old(self)@, final(self)@),
            final(self)@.state is Disconnected,
            !from_reconnect ==> final(self)@.attempts == 0 && resolved@ == old(self)@.waiters
                && final(self)@.waiters.len() == 0,
            from_reconnect ==> final(self)@.attempts == old(self)@.attempts && resolved@.len()
                == 0 && final(self)@.waiters == old(self)@.waiters,
    {
        self.state = ConnectionState::Disconnected;
        if !from_reconnect {
            self.attempts = 0;
            let mut resolved: Vec<u64> = Vec::new();
            core::mem::swap(&mut resolved, &mut self.waiters);
            resolved
        } else {
            Vec::new()
        }
    }

    /// Removes every subscription under the topic — all of them when no
    /// topic is given.  An empty registry tears the connection down;
    /// otherwise a removal re-announces the remaining topics.
    pub fn unsubscribe(&mut self, topic: Option<&str>) -> (r: UnsubscribeOutcome)
        requires
            old(self).wf(),
        ensures
            final(self).wf(),
            config_unchanged(old(self)@, final(self)@),
            topic is None ==> final(self)@.registry.len() == 0 && final(self)@.state
                is Disconnected && final(self)@.attempts == 0,
            ({
                let reg2 = match topic {
                    Option::Some(t) => spec_remove_topic(old(self)@.registry, t@),
                    Option::None => Seq::<(Seq<char>, Seq<u64>)>::empty(),
                };
                let matched = match topic {
                    Option::Some(t) => any_key_match(old(self)@.registry, t@),
                    Option::None => old(self)@.registry.len() > 0,
                };
                &&& final(self)@.registry == reg2
                &&& (reg2.len() == 0 ==> r.disconnect && final(self)@.state is Disconnected
                    && r.resolved@ == old(self)@.waiters && final(self)@.attempts == 0 && final(self)@.waiters.len() == 0 && r.announce is None && final(self)@.last_sent == old(self)@.last_sent)
                &&& (reg2.len() > 0 ==> !r.disconnect && final(self)@.state == old(self)@.state
                    && final(self)@.waiters == old(self)@.waiters && r.resolved@.len() == 0)
                &&& (reg2.len() > 0 && matched ==> announce_for(
                    reg2,
                    old(self)@.state,
                    old(self)@.last_sent,
                    final(self)@.last_sent,
                    r.announce,
                ))
                &&& (reg2.len() > 0 && !matched ==> r.announce is None && final(self)@ == old(self)@)
            }),
    {
        let removed = self.registry.remove_by_topic(topic);
        if !removed {
            proof {
                match topic {
                    Option::Some(t) => {
                        crate::registry::lemma_remove_topic_noop(old(self)@.registry, t@);
                    },
                    Option::None => {},
                }
            }
        }
        self.finish_removal(removed)
    }

    /// Removes one subscription by the id its subscribe call returned;
    /// the topic may be given bare even when the key carries an options
    /// suffix.
    pub fn unsubscribe_by_id(&mut self, topic: &str, sub_id: u64) -> (r: UnsubscribeOutcome)
        requires
            old(self).wf(),
        ensures
            final(self).wf(),
            config_unchanged(old(self)@, final(self)@),
            ({
                let reg2 = spec_remove_by_id(old(self)@.registry, topic@, sub_id);
                let matched = any_id_match(old(self)@.registry, topic@, sub_id);
                &&& final(self)@.registry == reg2
                &&& (reg2.len() == 0 ==> r.disconnect && final(self)@.state is Disconnected
                    && r.resolved@ == old(self)@.waiters && final(self)@.attempts == 0 && final(self)@.waiters.len() == 0 && r.announce is None && final(self)@.last_sent == old(self)@.last_sent)
                &&& (reg2.len() > 0 ==> !r.disconnect && final(self)@.state == old(self)@.state
                    && final(self)@.waiters == old(self)@.waiters && r.resolved@.len() == 0)
                &&& (reg2.len() > 0 && matched ==> announce_for(
                    reg2,
                    old(self)@.state,
                    old(self)@.last_sent,
                    final(self)@.last_sent,
                    r.announce,
                ))
                &&& (reg2.len() > 0 && !matched ==> r.announce is None && final(self)@ == old(self)@)
            }),
    {
        let removed = self.registry.remove_by_id(topic, sub_id);
        if removed {
            self.finish_removal(true)
        } else {
            proof {
                crate::registry::lemma_remove_by_id_noop(old(self)@.registry, topic@, sub_id);
            }
            self.finish_removal(false)
        }
    }

    /// Removes every subscription whose key starts with the prefix.
    pub fn unsubscribe_by_prefix(&mut self, key_prefix: &str) -> (r: UnsubscribeOutcome)
        requires
            old(self).wf(),
        ensures
            final(self).wf(),
            config_unchanged(old(self)@, final(self)@),
            ({
                let reg2 = spec_remove_prefix(old(self)@.registry, key_prefix@);
                let matched = any_prefix_match(old(self)@.registry, key_prefix@);
                &&& final(self)@.registry == reg2
                &&& (reg2.len() == 0 && matched ==> r.disconnect && final(self)@.state
                    is Disconnected && r.resolved@ == old(self)@.waiters && final(self)@.attempts
                    == 0 && final(self)@.waiters.len() == 0 && r.announce is None && final(self)@.last_sent == old(self)@.last_sent)
                &&& (reg2.len() > 0 && matched ==> !r.disconnect && final(self)@.state == old(self)@.state && final(self)@.waiters == old(self)@.waiters && r.resolved@.len() == 0
                    && announce_for(
                    reg2,
                    old(self)@.state,
                    old(self)@.last_sent,
                    final(self)@.last_sent,
                    r.announce,
                ))
                &&& (!matched ==> final(self)@ == old(self)@ && !r.disconnect && r.announce
                    is None && r.resolved@.len() == 0)
            }),
    {
        let removed = self.registry.remove_by_prefix(key_prefix);
        if !removed {
            proof {
                crate::registry::lemma_remove_prefix_noop(old(self)@.registry, key_prefix@);
            }
            return UnsubscribeOutcome {
                disconnect: false,
                resolved: Vec::new(),
                announce: Option::None,
            };
        }
        self.finish_removal(true)
    }

    /// Shared tail of the unsubscribe paths: empty registry means a
    /// full teardown, a removal with listeners left means re-announce.
    fn finish_removal(&mut self, removed: bool) -> (r: UnsubscribeOutcome)
        requires
            old(self).wf(),
        ensures
            final(self).wf(),
            final(self)@.registry == old(self)@.registry,
            config_unchanged(old(self)@, final(self)@),
            old(self)@.registry.len() == 0 ==> r.disconnect && final(self)@.state is Disconnected
                && final(self)@.attempts == 0 && r.resolved@ == old(self)@.waiters && final(self)@.waiters.len() == 0 && r.announce is None && final(self)@.last_sent == old(self)@.last_sent,
            old(self)@.registry.len() > 0 && removed ==> !r.disconnect && final(self)@.state == old(self)@.state && final(self)@.waiters == old(self)@.waiters && r.resolved@.len() == 0
                && final(self)@.attempts == old(self)@.attempts && announce_for(
                old(self)@.registry,
                old(self)@.state,
                old(self)@.last_sent,
                final(self)@.last_sent,
                r.announce,
            ),
            old(self)@.registry.len() > 0 && !removed ==> final(self)@ == old(self)@
                && !r.disconnect && r.announce is None && r.resolved@.len() == 0,
    {
        if self.registry.is_empty() {
            let resolved = self.disconnect(false);
            UnsubscribeOutcome { disconnect: true, resolved, announce: Option::None }
        } else if removed {
            let announce = self.submit_subscriptions();
            UnsubscribeOutcome { disconnect: false, resolved: Vec::new(), announce }
        } else {
            UnsubscribeOutcome { disconnect: false, resolved: Vec::new(), announce: Option::None }
        }
    }
}

/// What the driver must do with one completed frame event.
pub enum EventOutcome {
    /// The control frame arrived: resolve these waiters successfully,
    /// notify connection observers, and make the announce call if one
    /// is given.
    Connected {
        /// The topic list to announce, when any topic is active.
        announce: Option<AnnounceCall>,
        /// The waiters to resolve successfully.
        resolved: Vec<u64>,
    },
    /// A data event decoded: invoke these listeners, in order, each
    /// with the message.
    Dispatch {
        /// The listener ids registered under the event's topic key.
        listeners: Vec<u64>,
        /// The decoded message.
        message: RealtimeMessage,
    },
    /// The payload did not decode; nothing happens and the stream
    /// continues.
    Ignored,
}

/// Whether a failed announce call surfaces to the caller that caused
/// it: a cancelled (aborted) announce is swallowed, every other
/// failure propagates.
pub fn announce_failure_propagates(is_abort: bool) -> (r: bool)
    ensures
        r == !is_abort,
{
    !is_abort
}

/// The UTF-8 bytes of the control event type `PB_CONNECT`.
pub open spec fn pb_connect_bytes() -> Seq<u8> {
    seq![80u8, 66u8, 95u8, 67u8, 79u8, 78u8, 78u8, 69u8, 67u8, 84u8]
}

/// Clones a topic list.
fn clone_strings(v: &Vec<String>) -> (r: Vec<String>)
    ensures
        r@.map_values(|s: String| s@) == v@.map_values(|s: String| s@),
{
    let mut r: Vec<String> = Vec::new();
    let mut i: usize = 0;
    while i < v.len()
        invariant
            i <= v@.len(),
            r@.len() == i,
            forall|j: int| 0 <= j < i ==> r@[j]@ == v@[j]@,
        decreases v@.len() - i,
    {
        r.push(v[i].clone());
        i += 1;
    }
    proof {
        assert(r@.map_values(|s: String| s@) =~= v@.map_values(|s: String| s@));
    }
    r
}

} // verus!
