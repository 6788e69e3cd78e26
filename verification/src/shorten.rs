//! Shorten and resolve orchestration.
//!
//! A shorten request first validates the URL, then checks for an existing
//! mapping (dedup), and otherwise derives the next code from the highest
//! issued identifier and inserts the new mapping, retrying a bounded
//! number of times when a concurrent inserter wins the race.
//!
//! The decisions stand in [`ShortenSession`], a step machine from storage
//! answers to the next storage request; any driver that performs the
//! storage calls (the in-memory [`Registry`] here, a database elsewhere)
//! gets the same verified behaviour.

use vstd::prelude::*;

use crate::codec::code_of;
use crate::codec::encode_base62;
use crate::registry::Registry;
use crate::registry::RecordModel;
use crate::registry::StorageError;
use crate::registry::code_at_url;
use crate::registry::has_code;
use crate::registry::has_url;
use crate::registry::lemma_code_at_url;
use crate::registry::lemma_url_at_code;
use crate::registry::url_at_code;
use crate::registry::wf_records;
use crate::text::has_prefix;
use crate::text::is_prefix;

verus! {

/// The body of a shorten request as the routing layer hands it over.
pub struct GenerateShortUrlRequest {
    pub url: String,
}

/// How a shorten request fails.
#[derive(Clone, Copy, Debug, PartialEq, Eq, Structural)]
pub enum ShortenError {
    /// The candidate URL was rejected before any storage access.
    InvalidUrl,
    /// The bounded retry on insert conflicts was exhausted.
    Exhausted,
    /// The storage engine was unreachable.
    Storage,
}

/// How a resolve request fails.
#[derive(Clone, Copy, Debug, PartialEq, Eq, Structural)]
pub enum ResolveError {
    /// No record carries the code.
    NotFound,
    /// The storage engine was unreachable.
    Storage,
}

/// A candidate long URL is accepted when it is non-empty and begins with
/// `http://` or `https://`.
pub open spec fn spec_valid_url(u: Seq<char>) -> bool {
    u.len() > 0 && (is_prefix("http://"@, u) || is_prefix("https://"@, u))
}

/// Validate a candidate long URL.
pub fn validate_url(url: &str) -> (r: bool)
    ensures
        r == spec_valid_url(url@),
{
    if url.unicode_len() == 0 {
        return false;
    }
    has_prefix(url, "http://") || has_prefix(url, "https://")
}

/// The candidate identifier that follows the most recently issued one:
/// one more than the highest identifier, or 1 on an empty relation.
pub open spec fn spec_next_id(highest: Option<u64>) -> nat {
    match highest {
        Some(h) => (h + 1) as nat,
        None => 1,
    }
}

/// Derive the next short code from the identifier of the most recently
/// created record, as the registry reports it.
pub fn generate_short_code(highest: Option<u64>) -> (r: String)
    requires
        highest matches Some(h) ==> h < u64::MAX,
    ensures
        r@ == code_of(spec_next_id(highest)),
{
    match highest {
        Some(h) => encode_base62(h + 1),
        None => encode_base62(1),
    }
}

/// How many times a shorten request attempts the dedup/generate/insert
/// sequence before giving up on insert conflicts.
pub const MAX_ATTEMPTS: u8 = 3;

/// What the orchestration asks of the storage layer next, or how the
/// request ended.
pub enum ShortenStep {
    /// Look the long URL up for an existing mapping.
    Lookup,
    /// Read the identifier of the most recently created record.
    ReadHighest,
    /// Insert the mapping under this pre-computed code.
    Insert { code: String },
    /// The request succeeded with this code.
    Done { code: String },
    /// The request failed.
    Failed { error: ShortenError },
}

/// What the storage layer answered to the pending step.
pub enum ShortenEvent {
    /// The lookup found an existing record with this code.
    Found { code: String },
    /// The lookup found no record for the URL.
    Missing,
    /// The highest-identifier query answered.
    Highest { id: Option<u64> },
    /// The insert succeeded.
    Inserted,
    /// The insert hit a uniqueness conflict.
    Conflicted,
    /// The storage engine was unreachable or timed out.
    Unavailable,
}

/// One shorten request in progress: the step machine that decides, after
/// each storage answer, what to ask of the storage layer next.
pub struct ShortenSession {
    /// The candidate long URL.
    pub url: String,
    /// How many dedup/generate/insert attempts remain.
    pub attempts_left: u8,
    /// The pending storage request, or the request's end.
    pub step: ShortenStep,
}

impl ShortenSession {
    /// Which events can answer the pending step. An identifier at the top
    /// of its range cannot be followed, so such an answer is not taken.
    pub open spec fn accepts(self, e: ShortenEvent) -> bool {
        match e {
            ShortenEvent::Found { .. } => self.step is Lookup,
            ShortenEvent::Missing => self.step is Lookup,
            ShortenEvent::Highest { id } => self.step is ReadHighest && (id matches Some(h)
                ==> h < u64::MAX),
            ShortenEvent::Inserted => self.step is Insert,
            ShortenEvent::Conflicted => self.step is Insert,
            ShortenEvent::Unavailable => self.step is Lookup || self.step is ReadHighest
                || self.step is Insert,
        }
    }

    /// Begin a shorten request. Validation happens here, before any
    /// storage access.
    pub fn start(url: String) -> (s: ShortenSession)
        ensures
            s.url == url,
            s.attempts_left == MAX_ATTEMPTS,
            s.step == if spec_valid_url(url@) {
                ShortenStep::Lookup
            } else {
                ShortenStep::Failed { error: ShortenError::InvalidUrl }
            },
    {
        let valid = validate_url(url.as_str());
        ShortenSession {
            url,
            attempts_left: MAX_ATTEMPTS,
            step: if valid {
                ShortenStep::Lookup
            } else {
                ShortenStep::Failed { error: ShortenError::InvalidUrl }
            },
        }
    }

    /// Advance the request by one storage answer.
    ///
    /// A found mapping ends the request with the existing code (dedup).
    /// A missing mapping asks for the highest identifier, whose answer is
    /// encoded into the code to insert. A conflict retries the whole
    /// sequence while attempts remain and otherwise gives up; an
    /// unreachable engine ends the request at once.
    pub fn on_event(&mut self, e: ShortenEvent)
        requires
            old(self).accepts(e),
        ensures
            ({
                let s0 = *old(self);
                let s1 = *final(self);
                s1.url == s0.url && match e {
                    ShortenEvent::Found { code } => s1.step == (ShortenStep::Done { code })
                        && s1.attempts_left == s0.attempts_left,
                    ShortenEvent::Missing => s1.step == ShortenStep::ReadHighest
                        && s1.attempts_left == s0.attempts_left,
                    ShortenEvent::Highest { id } => (s1.step matches ShortenStep::Insert { code }
                        && code@ == code_of(spec_next_id(id))) && s1.attempts_left
                        == s0.attempts_left,
                    ShortenEvent::Inserted => (s0.step matches ShortenStep::Insert { code }
                        && s1.step == (ShortenStep::Done { code })) && s1.attempts_left
                        == s0.attempts_left,
                    ShortenEvent::Conflicted => if s0.attempts_left > 1 {
                        s1.step == ShortenStep::Lookup && s1.attempts_left == s0.attempts_left
                            - 1
                    } else {
                        s1.step == (ShortenStep::Failed { error: ShortenError::Exhausted })
                            && s1.attempts_left == s0.attempts_left
                    },
                    ShortenEvent::Unavailable => s1.step == (ShortenStep::Failed {
                        error: ShortenError::Storage,
                    }) && s1.attempts_left == s0.attempts_left,
                }
            }),
    {
        match e {
            ShortenEvent::Found { code } => {
                self.step = ShortenStep::Done { code };
            },
            ShortenEvent::Missing => {
                self.step = ShortenStep::ReadHighest;
            },
            ShortenEvent::Highest { id } => {
                let code = generate_short_code(id);
                self.step = ShortenStep::Insert { code };
            },
            ShortenEvent::Inserted => {
                let code = match &self.step {
                    ShortenStep::Insert { code } => code.clone(),
                    _ => unreached(),
                };
                self.step = ShortenStep::Done { code };
            },
            ShortenEvent::Conflicted => {
                if self.attempts_left > 1 {
                    self.attempts_left = self.attempts_left - 1;
                    self.step = ShortenStep::Lookup;
                } else {
                    self.step = ShortenStep::Failed { error: ShortenError::Exhausted };
                }
            },
            ShortenEvent::Unavailable => {
                self.step = ShortenStep::Failed { error: ShortenError::Storage };
            },
        }
    }
}

/// A successful shorten from registry state `rs0` yielded code `c` and
/// left state `rs1`: either the URL was already mapped and nothing
/// changed, or the code derived from the next identifier was free and one
/// record was appended.
pub open spec fn shorten_transition(
    rs0: Seq<RecordModel>,
    rs1: Seq<RecordModel>,
    u: Seq<char>,
    c: Seq<char>,
) -> bool {
    &&& spec_valid_url(u)
    &&& if has_url(rs0, u) {
        c == code_at_url(rs0, u) && rs1 == rs0
    } else {
        &&& !has_code(rs0, code_of((rs0.len() + 1) as nat))
        &&& c == code_of((rs0.len() + 1) as nat)
        &&& rs1 == rs0.push(rs1.last())
        &&& rs1.last().id == rs0.len() + 1
        &&& rs1.last().url == u
        &&& rs1.last().code == c
    }
}

/// The order of the pending steps; retries restart the sequence.
pub open spec fn step_rank(s: ShortenStep) -> int {
    match s {
        ShortenStep::Lookup => 3,
        ShortenStep::ReadHighest => 2,
        ShortenStep::Insert { .. } => 1,
        ShortenStep::Done { .. } => 0,
        ShortenStep::Failed { .. } => 0,
    }
}

/// Shorten `url` against the in-memory registry: validate, dedup,
/// generate, insert, with the bounded retry on insert conflicts.
pub fn shorten(reg: &mut Registry, url: &str) -> (r: Result<String, ShortenError>)
    requires
        old(reg).wf(),
        old(reg)@.len() + 1 < u64::MAX,
    ensures
        final(reg).wf(),
        match r {
            Ok(c) => shorten_transition(old(reg)@, final(reg)@, url@, c@),
            Err(e) => final(reg)@ == old(reg)@ && match e {
                ShortenError::InvalidUrl => !spec_valid_url(url@),
                ShortenError::Exhausted => spec_valid_url(url@) && !has_url(old(reg)@, url@)
                    && has_code(old(reg)@, code_of((old(reg)@.len() + 1) as nat)),
                ShortenError::Storage => false,
            },
        },
        r is Ok <==> spec_valid_url(url@) && (has_url(old(reg)@, url@) || !has_code(
            old(reg)@,
            code_of((old(reg)@.len() + 1) as nat),
        )),
{
    let mut session = ShortenSession::start(String::from_str(url));
    loop
        invariant
            session.url@ == url@,
            reg.wf(),
            old(reg)@.len() + 1 < u64::MAX,
            match session.step {
                ShortenStep::Lookup => reg@ == old(reg)@ && spec_valid_url(url@),
                ShortenStep::ReadHighest => reg@ == old(reg)@ && spec_valid_url(url@) && !has_url(
                    reg@,
                    url@,
                ),
                ShortenStep::Insert { code } => reg@ == old(reg)@ && spec_valid_url(url@)
                    && !has_url(reg@, url@) && code@ == code_of((reg@.len() + 1) as nat),
                ShortenStep::Done { code } => shorten_transition(old(reg)@, reg@, url@, code@),
                ShortenStep::Failed { error } => reg@ == old(reg)@ && error != ShortenError::Storage
                    && (error == ShortenError::InvalidUrl ==> !spec_valid_url(url@)) && (error
                    == ShortenError::Exhausted ==> spec_valid_url(url@) && !has_url(reg@, url@)
                    && has_code(reg@, code_of((reg@.len() + 1) as nat))),
            },
        decreases session.attempts_left, step_rank(session.step),
    {
        match &session.step {
            ShortenStep::Lookup => {
                let found = reg.find_by_long_url(url);
                match found {
                    Some(rec) => {
                        let code = rec.short_code.clone();
                        proof {
                            let i = choose|i: int|
                                0 <= i < reg@.len() && reg@[i] == rec@ && rec@.url == url@;
                            lemma_code_at_url(reg@, url@, i);
                        }
                        session.on_event(ShortenEvent::Found { code });
                    },
                    None => {
                        session.on_event(ShortenEvent::Missing);
                    },
                }
            },
            ShortenStep::ReadHighest => {
                let h = reg.highest_id();
                proof {
                    if reg@.len() > 0 {
                        assert(reg@[reg@.len() - 1].id == reg@.len());
                    }
                }
                session.on_event(ShortenEvent::Highest { id: h });
            },
            ShortenStep::Insert { code } => {
                let code_owned = code.clone();
                let res = reg.insert(url, code_owned.as_str());
                match res {
                    Ok(()) => {
                        session.on_event(ShortenEvent::Inserted);
                    },
                    Err(StorageError::Conflict) => {
                        session.on_event(ShortenEvent::Conflicted);
                    },
                    Err(StorageError::Unavailable) => {
                        session.on_event(ShortenEvent::Unavailable);
                    },
                }
            },
            ShortenStep::Done { code } => {
                return Ok(code.clone());
            },
            ShortenStep::Failed { error } => {
                return Err(*error);
            },
        }
    }
}

/// Resolve a short code back to the long URL it was issued for, or report
/// that no record carries it.
pub fn resolve(reg: &Registry, code: &str) -> (r: Result<String, ResolveError>)
    requires
        reg.wf(),
    ensures
        match r {
            Ok(u) => has_code(reg@, code@) && u@ == url_at_code(reg@, code@),
            Err(e) => e == ResolveError::NotFound && !has_code(reg@, code@),
        },
        r is Ok <==> has_code(reg@, code@),
{
    match reg.find_by_short_code(code) {
        Some(rec) => {
            proof {
                let i = choose|i: int|
                    0 <= i < reg@.len() && reg@[i] == rec@ && rec@.code == code@;
                lemma_url_at_code(reg@, code@, i);
            }
            Ok(rec.original_url.clone())
        },
        None => Err(ResolveError::NotFound),
    }
}

/// Law: a successful shorten leaves the registry well-formed.
pub proof fn lemma_transition_preserves_wf(
    rs0: Seq<RecordModel>,
    rs1: Seq<RecordModel>,
    u: Seq<char>,
    c: Seq<char>,
)
    requires
        wf_records(rs0),
        shorten_transition(rs0, rs1, u, c),
    ensures
        wf_records(rs1),
{
    if !has_url(rs0, u) {
        assert forall|i: int| 0 <= i < rs1.len() implies #[trigger] rs1[i].id == i + 1 by {
            if i < rs0.len() {
                assert(rs1[i] == rs0[i]);
            }
        }
        assert forall|i: int, j: int| 0 <= i < j < rs1.len() implies #[trigger] rs1[i].url
            != #[trigger] rs1[j].url by {
            if j < rs0.len() {
                assert(rs1[i] == rs0[i] && rs1[j] == rs0[j]);
            } else {
                assert(rs1[i] == rs0[i]);
                assert(rs1[j].url == u);
            }
        }
        assert forall|i: int, j: int| 0 <= i < j < rs1.len() implies #[trigger] rs1[i].code
            != #[trigger] rs1[j].code by {
            if j < rs0.len() {
                assert(rs1[i] == rs0[i] && rs1[j] == rs0[j]);
            } else {
                assert(rs1[i] == rs0[i]);
                assert(rs1[j].code == c);
            }
        }
    }
}

/// Law: shorten is idempotent per long URL. After a successful shorten of
/// `u` yielding code `c`, another shorten of `u` yields `c` again and
/// changes nothing, and exactly one record carries `u`.
pub proof fn lemma_dedup_idempotent(
    rs0: Seq<RecordModel>,
    rs1: Seq<RecordModel>,
    u: Seq<char>,
    c: Seq<char>,
)
    requires
        wf_records(rs0),
        shorten_transition(rs0, rs1, u, c),
    ensures
        shorten_transition(rs1, rs1, u, c),
        exists|i: int|
            0 <= i < rs1.len() && #[trigger] rs1[i].url == u && forall|j: int|
                0 <= j < rs1.len() && #[trigger] rs1[j].url == u ==> j == i,
{
    lemma_transition_preserves_wf(rs0, rs1, u, c);
    if has_url(rs0, u) {
        let i = choose|i: int| 0 <= i < rs0.len() && rs0[i].url == u;
        lemma_code_at_url(rs1, u, i);
        assert(rs1[i].url == u && forall|j: int|
            0 <= j < rs1.len() && #[trigger] rs1[j].url == u ==> j == i);
    } else {
        let i = rs0.len() as int;
        assert(rs1[i].url == u);
        lemma_code_at_url(rs1, u, i);
        assert(has_url(rs1, u));
        assert(rs1[i].url == u && forall|j: int|
            0 <= j < rs1.len() && #[trigger] rs1[j].url == u ==> j == i);
    }
}

/// Law: round trip. After a successful shorten of `u` yielding code `c`,
/// resolving `c` returns `u` exactly.
pub proof fn lemma_shorten_resolve_round_trip(
    rs0: Seq<RecordModel>,
    rs1: Seq<RecordModel>,
    u: Seq<char>,
    c: Seq<char>,
)
    requires
        wf_records(rs0),
        shorten_transition(rs0, rs1, u, c),
    ensures
        has_code(rs1, c),
        url_at_code(rs1, c) == u,
{
    lemma_transition_preserves_wf(rs0, rs1, u, c);
    if has_url(rs0, u) {
        let i = choose|i: int| 0 <= i < rs0.len() && rs0[i].url == u;
        lemma_code_at_url(rs0, u, i);
        assert(rs1[i].code == c);
        lemma_url_at_code(rs1, c, i);
    } else {
        let i = rs0.len() as int;
        assert(rs1[i].code == c);
        lemma_url_at_code(rs1, c, i);
    }
}

} // verus!
