//! The decisions of the gateway for one request, as a state machine. The
//! caller performs each action (an atomic quota reservation, reading the body,
//! a store lookup, calling the upstream model) and reports the outcome back as
//! the next event.
use vstd::prelude::*;

use crate::cache::{cache_key_of, cached_reply, cached_reply_body, generate_cache_key};
use crate::dlp::{extract_prompt, is_breached, payload_breaches, prompt_of, ChatRequest};
use crate::http::{
    header_text, header_value_text, is_chat_completions, is_chat_request, is_success_status,
    success_status, Rejection,
};
use crate::stream::{quota_key_of, settlement_matches, Settlement, StreamMeter};

verus! {

/// The quota units taken, atomically, before a request may proceed.
pub const RESERVED_UNITS: u32 = 1;

/// Where the handling of a request stands.
#[derive(Clone, Copy, Debug, PartialEq, Eq, Structural)]
pub enum Stage {
    /// Waiting for the store to reserve quota units for the agent.
    ReservingQuota,
    /// Waiting for the request body.
    ReadingBody,
    /// Waiting for the blacklist of forbidden words.
    InspectingPayload,
    /// Waiting for the cache lookup of the prompt.
    CheckingCache,
    /// Waiting for the upstream model's answer to the forwarded body.
    Forwarding,
    /// The upstream model answered with success; its stream is relayed with
    /// the meter handed out next.
    Relaying,
    /// Answered; nothing more to do.
    Finished,
}

/// Quota units to give back to the agent.
#[derive(Debug, PartialEq, Eq)]
pub struct QuotaRelease {
    pub key: String,
    pub units: u32,
}

/// What the gateway asks its caller to do next.
#[derive(Debug, PartialEq, Eq)]
pub enum Action {
    /// Answer with this refusal and stop, first giving back the release if
    /// there is one.
    Reject(Rejection, Option<QuotaRelease>),
    /// Take `RESERVED_UNITS` from the quota stored under this key in one
    /// atomic step (a decrement) and report the balance it leaves.
    ReserveQuota(String),
    /// Read the request body.
    ReadBody,
    /// Fetch the blacklist of forbidden words.
    FetchBlacklist,
    /// Look up a cached answer under this key.
    LookupCache(String),
    /// Answer with this event-stream body and stop, first giving back the
    /// release if there is one.
    ServeCached(String, Option<QuotaRelease>),
    /// Forward the request body to the upstream model.
    Forward,
    /// Relay the upstream model's stream, metering it.
    Relay,
}

/// `release` gives back the reserved units under `quota_key`.
pub open spec fn gives_back(release: Option<QuotaRelease>, quota_key: Seq<char>) -> bool {
    release matches Some(r) && r.key@ == quota_key && r.units == RESERVED_UNITS
}

/// A reservation passes when the balance it leaves is zero or more.
pub open spec fn reservation_passes(remaining: int) -> bool {
    remaining >= 0
}

/// The gateway's state for one request.
pub struct Gateway {
    stage: Stage,
    agent_id: String,
    quota_key: String,
    reserved: bool,
    remaining: i64,
    request: Option<ChatRequest>,
    blacklist: Vec<String>,
    cache_key: String,
}

/// The stage is one that only a request holding a reservation reaches.
pub open spec fn past_quota(s: Stage) -> bool {
    s == Stage::ReadingBody || s == Stage::InspectingPayload || s == Stage::CheckingCache
        || s == Stage::Forwarding || s == Stage::Relaying
}

/// The stage is one that only a request with a clean payload reaches.
pub open spec fn past_inspection(s: Stage) -> bool {
    s == Stage::CheckingCache || s == Stage::Forwarding || s == Stage::Relaying
}

impl Gateway {
    /// Where the request stands.
    pub closed spec fn stage_view(&self) -> Stage {
        self.stage
    }

    /// The agent the request is handled for.
    pub closed spec fn agent_id_view(&self) -> Seq<char> {
        self.agent_id@
    }

    /// Whether the request holds reserved quota units.
    pub closed spec fn reserved_view(&self) -> bool {
        self.reserved
    }

    /// The balance the reservation left (0 before it).
    pub closed spec fn remaining_view(&self) -> int {
        self.remaining as int
    }

    /// The parsed request body, once read and parsed.
    pub closed spec fn request_view(&self) -> Option<Seq<Option<Seq<char>>>> {
        match self.request {
            Some(r) => Some(r@),
            None => None,
        }
    }

    /// The blacklist the payload was inspected against.
    pub closed spec fn blacklist_view(&self) -> Seq<Seq<char>> {
        self.blacklist.deep_view()
    }

    /// The key under which the answer is cached (empty: no caching).
    pub closed spec fn cache_key_view(&self) -> Seq<char> {
        self.cache_key@
    }

    /// What every gateway keeps true: its quota key is the agent's; any
    /// request past the quota step holds a reservation that left a balance of
    /// zero or more; the payload did not breach the blacklist for any parsed
    /// request past inspection; a cache key, once there, is the key of the
    /// request's non-empty prompt.
    #[verifier::type_invariant]
    pub closed spec fn well_formed(&self) -> bool {
        &&& self.quota_key@ == quota_key_of(self.agent_id@)
        &&& past_quota(self.stage) ==> self.reserved && self.remaining >= 0
        &&& self.stage == Stage::InspectingPayload ==> self.request is Some
        &&& past_inspection(self.stage) && self.request is Some ==> !payload_breaches(
            self.request->0@,
            self.blacklist.deep_view(),
        )
        &&& self.stage == Stage::ReservingQuota || self.stage == Stage::ReadingBody
            ==> self.cache_key@.len() == 0
        &&& self.stage == Stage::CheckingCache ==> self.cache_key@.len() > 0
        &&& self.cache_key@.len() > 0 ==> {
            &&& self.request is Some
            &&& prompt_of(self.request->0@).len() > 0
            &&& self.cache_key@ == cache_key_of(prompt_of(self.request->0@))
        }
    }

    /// Takes a new request: it must be `POST /v1/chat/completions` (else
    /// 404) and carry an `x-agent-id` header (else 401); then quota units are
    /// reserved under `quota:<agent id>`.
    pub fn accept(method: &str, path: &str, agent_header: Option<&[u8]>) -> (res: (
        Gateway,
        Action,
    ))
        ensures
            !is_chat_request(method@, path@) ==> res.0.stage_view() == Stage::Finished && res.1
                == Action::Reject(Rejection::NotFound, None),
            is_chat_request(method@, path@) && agent_header is None ==> res.0.stage_view()
                == Stage::Finished && res.1 == Action::Reject(Rejection::Unauthorized, None),
            is_chat_request(method@, path@) && agent_header is Some ==> {
                &&& res.0.stage_view() == Stage::ReservingQuota
                &&& res.0.agent_id_view() == header_text(agent_header->0@)
                &&& (res.1 matches Action::ReserveQuota(k) && k@ == quota_key_of(
                    header_text(agent_header->0@),
                ))
            },
            !res.0.reserved_view(),
            res.0.cache_key_view().len() == 0,
    {
        if !is_chat_completions(method, path) {
            return (Gateway::finished(), Action::Reject(Rejection::NotFound, None));
        }
        match agent_header {
            None => (Gateway::finished(), Action::Reject(Rejection::Unauthorized, None)),
            Some(h) => {
                let agent_id = header_value_text(h);
                let quota_key = Gateway::quota_key_for(&agent_id);
                let g = Gateway {
                    stage: Stage::ReservingQuota,
                    agent_id,
                    quota_key: quota_key.clone(),
                    reserved: false,
                    remaining: 0,
                    request: None,
                    blacklist: Vec::new(),
                    cache_key: String::new(),
                };
                (g, Action::ReserveQuota(quota_key))
            },
        }
    }

    fn quota_key_for(agent_id: &String) -> (k: String)
        ensures
            k@ == quota_key_of(agent_id@),
    {
        proof {
            reveal_strlit("quota:");
        }
        let key = String::from_str("quota:").concat(agent_id.as_str());
        assert(key@ =~= quota_key_of(agent_id@));
        key
    }

    fn finished() -> (g: Gateway)
        ensures
            g.stage_view() == Stage::Finished,
            !g.reserved_view(),
            g.cache_key_view().len() == 0,
    {
        let agent_id = String::new();
        let quota_key = Gateway::quota_key_for(&agent_id);
        Gateway {
            stage: Stage::Finished,
            agent_id,
            quota_key,
            reserved: false,
            remaining: 0,
            request: None,
            blacklist: Vec::new(),
            cache_key: String::new(),
        }
    }

    /// The reserved units, to give back.
    fn release(&self) -> (r: Option<QuotaRelease>)
        ensures
            gives_back(r, quota_key_of(self.agent_id_view())),
    {
        proof {
            use_type_invariant(self);
        }
        Some(QuotaRelease { key: self.quota_key.clone(), units: RESERVED_UNITS })
    }

    /// Where the request stands.
    pub fn stage(&self) -> (s: Stage)
        ensures
            s == self.stage_view(),
    {
        self.stage
    }

    /// The agent the request is handled for.
    pub fn agent_id(&self) -> (a: String)
        ensures
            a@ == self.agent_id_view(),
    {
        self.agent_id.clone()
    }

    /// The key under which the answer is cached (empty: no caching).
    pub fn cache_key(&self) -> (k: String)
        ensures
            k@ == self.cache_key_view(),
    {
        self.cache_key.clone()
    }

    /// The store's answer to the reservation: the balance left after it took
    /// `RESERVED_UNITS` (`None`: the store failed, or holds no quota for the
    /// agent, and took nothing). A failure answers 500; a negative balance
    /// answers 429 and gives the units back; a balance of zero or more lets
    /// the body be read, the units staying reserved.
    pub fn quota_reserved(&mut self, remaining: Option<i64>) -> (action: Action)
        requires
            old(self).stage_view() == Stage::ReservingQuota,
        ensures
            final(self).agent_id_view() == old(self).agent_id_view(),
            final(self).cache_key_view() == old(self).cache_key_view(),
            remaining is None ==> final(self).stage_view() == Stage::Finished && action
                == Action::Reject(Rejection::DatabaseFailure, None),
            remaining is Some && !reservation_passes(remaining->0 as int) ==> final(self).stage_view() == Stage::Finished
                && (action matches Action::Reject(r, rel) && r == Rejection::QuotaExceeded
                && gives_back(rel, quota_key_of(old(self).agent_id_view()))),
            remaining is Some && reservation_passes(remaining->0 as int) ==> final(self).stage_view()
                == Stage::ReadingBody && action == Action::ReadBody && final(self).reserved_view()
                && final(self).remaining_view() == remaining->0,
    {
        proof {
            use_type_invariant(&*self);
        }
        match remaining {
            None => {
                self.stage = Stage::Finished;
                Action::Reject(Rejection::DatabaseFailure, None)
            },
            Some(r) => {
                if r < 0 {
                    self.stage = Stage::Finished;
                    Action::Reject(Rejection::QuotaExceeded, self.release())
                } else {
                    self.reserved = true;
                    self.remaining = r;
                    self.stage = Stage::ReadingBody;
                    Action::ReadBody
                }
            },
        }
    }

    /// The request body could not be read: answers 400 and gives the
    /// reserved units back.
    pub fn body_unreadable(&mut self) -> (action: Action)
        requires
            old(self).stage_view() == Stage::ReadingBody,
        ensures
            final(self).stage_view() == Stage::Finished,
            final(self).agent_id_view() == old(self).agent_id_view(),
            action matches Action::Reject(r, rel) && r == Rejection::UnreadableBody && gives_back(
                rel,
                quota_key_of(old(self).agent_id_view()),
            ),
    {
        proof {
            use_type_invariant(&*self);
        }
        self.stage = Stage::Finished;
        Action::Reject(Rejection::UnreadableBody, self.release())
    }

    /// The request body was read; `request` is what it parsed to as a chat
    /// request (`None`: it did not parse). A parsed request is inspected
    /// against the blacklist; one that did not parse is forwarded as it is,
    /// without inspection or caching.
    pub fn body_read(&mut self, request: Option<ChatRequest>) -> (action: Action)
        requires
            old(self).stage_view() == Stage::ReadingBody,
        ensures
            final(self).agent_id_view() == old(self).agent_id_view(),
            final(self).reserved_view() == old(self).reserved_view(),
            final(self).remaining_view() == old(self).remaining_view(),
            final(self).request_view() == (match request {
                Some(r) => Some(r@),
                None => None,
            }),
            request is Some ==> final(self).stage_view() == Stage::InspectingPayload && action
                == Action::FetchBlacklist,
            request is None ==> final(self).stage_view() == Stage::Forwarding && action
                == Action::Forward && final(self).cache_key_view().len() == 0,
    {
        proof {
            use_type_invariant(&*self);
        }
        match request {
            Some(r) => {
                self.request = Some(r);
                self.stage = Stage::InspectingPayload;
                Action::FetchBlacklist
            },
            None => {
                self.request = None;
                self.stage = Stage::Forwarding;
                Action::Forward
            },
        }
    }

    /// The blacklist was fetched (`None`: the store failed, which counts as an
    /// empty blacklist). A payload that breaches it answers 403 and gives the
    /// reserved units back. Otherwise the prompt (the last message's text) is
    /// looked up in the cache under its key when it is not empty, and the
    /// request is forwarded when it is.
    pub fn blacklist_fetched(&mut self, words: Option<Vec<String>>) -> (action: Action)
        requires
            old(self).stage_view() == Stage::InspectingPayload,
        ensures
            final(self).agent_id_view() == old(self).agent_id_view(),
            final(self).reserved_view() == old(self).reserved_view(),
            final(self).remaining_view() == old(self).remaining_view(),
            final(self).request_view() == old(self).request_view(),
            final(self).blacklist_view() == (match words {
                Some(w) => w.deep_view(),
                None => Seq::<Seq<char>>::empty(),
            }),
            old(self).request_view() is Some,
            ({
                let m = old(self).request_view()->0;
                let list = final(self).blacklist_view();
                &&& payload_breaches(m, list) ==> final(self).stage_view() == Stage::Finished
                    && (action matches Action::Reject(r, rel) && r == Rejection::SecurityBreach
                    && gives_back(rel, quota_key_of(old(self).agent_id_view())))
                &&& !payload_breaches(m, list) && prompt_of(m).len() > 0 ==> {
                    &&& final(self).stage_view() == Stage::CheckingCache
                    &&& final(self).cache_key_view() == cache_key_of(prompt_of(m))
                    &&& (action matches Action::LookupCache(k) && k@ == cache_key_of(prompt_of(m)))
                }
                &&& !payload_breaches(m, list) && prompt_of(m).len() == 0 ==> {
                    &&& final(self).stage_view() == Stage::Forwarding
                    &&& final(self).cache_key_view().len() == 0
                    &&& action == Action::Forward
                }
            }),
    {
        proof {
            use_type_invariant(&*self);
        }
        let list = match words {
            Some(w) => w,
            None => Vec::new(),
        };
        assert(list.deep_view() =~= (match words {
            Some(w) => w.deep_view(),
            None => Seq::<Seq<char>>::empty(),
        }));
        self.blacklist = list;
        let breached = match &self.request {
            Some(r) => is_breached(r, &self.blacklist),
            None => false,
        };
        if breached {
            self.stage = Stage::Finished;
            return Action::Reject(Rejection::SecurityBreach, self.release());
        }
        let prompt = match &self.request {
            Some(r) => extract_prompt(r),
            None => String::new(),
        };
        if prompt.as_str().is_empty() {
            self.cache_key = String::new();
            self.stage = Stage::Forwarding;
            Action::Forward
        } else {
            let key = generate_cache_key(prompt.as_str());
            self.cache_key = key.clone();
            self.stage = Stage::CheckingCache;
            Action::LookupCache(key)
        }
    }

    /// The cache lookup's outcome: a cached answer is served as an event
    /// stream, giving the reserved units back (a cached answer costs
    /// nothing); a miss forwards the request.
    pub fn cache_checked(&mut self, cached: Option<String>) -> (action: Action)
        requires
            old(self).stage_view() == Stage::CheckingCache,
        ensures
            final(self).agent_id_view() == old(self).agent_id_view(),
            final(self).reserved_view() == old(self).reserved_view(),
            final(self).remaining_view() == old(self).remaining_view(),
            final(self).request_view() == old(self).request_view(),
            final(self).blacklist_view() == old(self).blacklist_view(),
            final(self).cache_key_view() == old(self).cache_key_view(),
            cached is Some ==> final(self).stage_view() == Stage::Finished && (action matches Action::ServeCached(b, rel) && b@ == cached_reply(cached->0@)
                && gives_back(rel, quota_key_of(old(self).agent_id_view()))),
            cached is None ==> final(self).stage_view() == Stage::Forwarding && action
                == Action::Forward,
    {
        proof {
            use_type_invariant(&*self);
        }
        match cached {
            Some(a) => {
                self.stage = Stage::Finished;
                Action::ServeCached(cached_reply_body(a.as_str()), self.release())
            },
            None => {
                self.stage = Stage::Forwarding;
                Action::Forward
            },
        }
    }

    /// The upstream model's answer to the forwarded body: `None` (it could not
    /// be reached) and a non-success status both answer 502 and give the
    /// reserved units back; a success status starts relaying its stream.
    pub fn upstream_answered(&mut self, status: Option<u16>) -> (action: Action)
        requires
            old(self).stage_view() == Stage::Forwarding,
        ensures
            final(self).agent_id_view() == old(self).agent_id_view(),
            final(self).reserved_view() == old(self).reserved_view(),
            final(self).remaining_view() == old(self).remaining_view(),
            final(self).request_view() == old(self).request_view(),
            final(self).blacklist_view() == old(self).blacklist_view(),
            final(self).cache_key_view() == old(self).cache_key_view(),
            status is None ==> final(self).stage_view() == Stage::Finished && (action matches Action::Reject(r, rel) && r == Rejection::UpstreamUnreachable
                && gives_back(rel, quota_key_of(old(self).agent_id_view()))),
            status is Some && !success_status(status->0) ==> final(self).stage_view()
                == Stage::Finished && (action matches Action::Reject(r, rel) && r
                == Rejection::UpstreamError && gives_back(rel, quota_key_of(old(self).agent_id_view()))),
            status is Some && success_status(status->0) ==> final(self).stage_view()
                == Stage::Relaying && action == Action::Relay,
    {
        proof {
            use_type_invariant(&*self);
        }
        match status {
            None => {
                self.stage = Stage::Finished;
                Action::Reject(Rejection::UpstreamUnreachable, self.release())
            },
            Some(c) => {
                if is_success_status(c) {
                    self.stage = Stage::Relaying;
                    Action::Relay
                } else {
                    self.stage = Stage::Finished;
                    Action::Reject(Rejection::UpstreamError, self.release())
                }
            },
        }
    }

    /// Hands out the meter for the relayed stream, once: it bills
    /// `quota:<agent id>`, counts the reserved units toward the bill, and
    /// caches the collected answer under the request's cache key. The request
    /// is then finished, so no second meter (and no second bill) can follow.
    pub fn meter(&mut self) -> (m: StreamMeter)
        requires
            old(self).stage_view() == Stage::Relaying,
        ensures
            final(self).stage_view() == Stage::Finished,
            final(self).agent_id_view() == old(self).agent_id_view(),
            final(self).cache_key_view() == old(self).cache_key_view(),
            m.quota_key_view() == quota_key_of(old(self).agent_id_view()),
            m.cache_key_view() == old(self).cache_key_view(),
            m.reserved_view() == RESERVED_UNITS,
            m.relayed_view() == Seq::<Seq<u8>>::empty(),
            m.chunk_count_view() == 0,
            m.collected_view() == Seq::<char>::empty(),
            m.usage_view() is None,
            !m.settled_view(),
            m.settlements_view() == 0,
    {
        proof {
            use_type_invariant(&*self);
        }
        let m = StreamMeter::new(self.agent_id.as_str(), self.cache_key.as_str(), RESERVED_UNITS);
        self.stage = Stage::Finished;
        m
    }
}

/// A request reaches the upstream model (or has its stream relayed) only
/// while it holds quota units whose reservation left a balance of zero or
/// more and, when its body parsed, after its payload was found free of every
/// blacklisted word.
pub proof fn lemma_forwarded_requests_were_cleared(g: Gateway)
    requires
        g.well_formed(),
        g.stage_view() == Stage::Forwarding || g.stage_view() == Stage::Relaying,
    ensures
        g.reserved_view(),
        g.remaining_view() >= 0,
        g.request_view() is Some ==> !payload_breaches(g.request_view()->0, g.blacklist_view()),
{
}

/// A cache key, whenever a gateway holds one, is the key of the non-empty
/// prompt of the request it handles.
pub proof fn lemma_cache_key_is_prompt_key(g: Gateway)
    requires
        g.well_formed(),
        g.cache_key_view().len() > 0,
    ensures
        g.request_view() is Some,
        prompt_of(g.request_view()->0).len() > 0,
        g.cache_key_view() == cache_key_of(prompt_of(g.request_view()->0)),
{
}

/// An answer cached for one request is looked up again by any later request
/// with the same prompt: the key a relayed request caches under is the key a
/// request with an equal prompt looks up.
pub proof fn lemma_cached_answer_found_again(first: Gateway, later: Gateway)
    requires
        first.well_formed(),
        later.well_formed(),
        first.cache_key_view().len() > 0,
        later.stage_view() == Stage::CheckingCache,
        first.request_view() is Some,
        later.request_view() is Some,
        prompt_of(first.request_view()->0) == prompt_of(later.request_view()->0),
    ensures
        first.cache_key_view() == later.cache_key_view(),
{
}

/// How many of `n` reservations pass when the store answers them one after
/// another by atomic decrements of one balance `balance` (the `i`-th leaves
/// `balance - i * RESERVED_UNITS`): a reservation passes when it leaves zero
/// or more.
pub open spec fn reservations_passed(balance: int, n: nat) -> nat
    decreases n,
{
    if n == 0 {
        0
    } else {
        reservations_passed(balance, (n - 1) as nat) + if reservation_passes(balance - n * RESERVED_UNITS) {
            1nat
        } else {
            0nat
        }
    }
}

/// Reservations never overdraw: of any number of requests whose reservations
/// of one balance the store answers by successive atomic decrements, exactly
/// as many pass as the balance allows (none when it is zero or less), so two
/// requests against a balance of one never both pass.
pub proof fn lemma_reservations_never_overdraw(balance: int, n: nat)
    ensures
        reservations_passed(balance, n) == if balance <= 0 {
            0
        } else if n <= balance {
            n as int
        } else {
            balance
        },
    decreases n,
{
    if n > 0 {
        lemma_reservations_never_overdraw(balance, (n - 1) as nat);
    }
}

/// The answer a relayed stream settles into the cache is the one a later
/// request with the same prompt finds: the settlement's cache entry holds the
/// collected answer under exactly the key that request looks up (and
/// `cache_checked` serves what the lookup returns as `cached_reply`).
pub proof fn lemma_settled_answer_found_again(
    first: Gateway,
    meter: StreamMeter,
    settlement: Settlement,
    billed: int,
    later: Gateway,
)
    requires
        first.well_formed(),
        later.well_formed(),
        first.cache_key_view().len() > 0,
        meter.cache_key_view() == first.cache_key_view(),
        meter.collected_view().len() > 0,
        settlement_matches(
            settlement,
            meter.quota_key_view(),
            meter.cache_key_view(),
            billed,
            meter.reserved_view(),
            meter.collected_view(),
        ),
        later.stage_view() == Stage::CheckingCache,
        later.request_view() is Some,
        first.request_view() is Some ==> prompt_of(first.request_view()->0) == prompt_of(
            later.request_view()->0,
        ),
    ensures
        settlement.cache_entry is Some,
        settlement.cache_entry->0.key@ == later.cache_key_view(),
        settlement.cache_entry->0.value@ == meter.collected_view(),
{
}

/// A settled stream is charged exactly its billed units in all: the units
/// reserved before forwarding plus the settlement's deduction.
pub proof fn lemma_settlement_totals_billed(
    settlement: Settlement,
    quota_key: Seq<char>,
    cache_key: Seq<char>,
    billed: int,
    reserved: int,
    collected: Seq<char>,
)
    requires
        settlement_matches(settlement, quota_key, cache_key, billed, reserved, collected),
    ensures
        reserved + settlement.deduct == billed,
{
}

} // verus!
