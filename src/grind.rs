//! The vanity search: workers draw keypairs until a shared count of accepted
//! matches reaches the target. Each match is claimed on an atomic counter:
//! the claim that draws a value below the target is accepted, any later one is
//! discarded, so no more than the target are ever reported.

use std::sync::atomic::{AtomicU64, Ordering};
use vstd::prelude::*;
use vstd::string::StrSliceExecFns;
use crate::base58::{base58_of, encode_bytes_to_base58};
use crate::keypair::{pubkey_text, pubkey_text_of, random_keypair_bytes};
use crate::matching::{check_match, matches_rule};

verus! {

/// Why a search cannot start.
#[derive(Debug, PartialEq, Eq)]
pub enum GrindError {
    /// Neither a prefix nor a suffix was given.
    MissingCriteria,
}

/// The text given for a bound, the empty text when none was.
pub open spec fn given_text(t: Option<String>) -> Seq<char> {
    match t {
        Some(s) => s@,
        None => Seq::empty(),
    }
}

/// What a public identifier must look like.
#[derive(Debug)]
pub struct MatchCriteria {
    pub prefix: String,
    pub suffix: String,
    pub ignore_case: bool,
}

impl MatchCriteria {
    /// At least one bound is not empty.
    pub open spec fn wf(&self) -> bool {
        self.prefix@.len() > 0 || self.suffix@.len() > 0
    }

    /// The identifier `p` meets the criteria.
    pub open spec fn accepts(&self, p: Seq<char>) -> bool {
        matches_rule(p, self.prefix@, self.suffix@, self.ignore_case)
    }

    /// Criteria from the optional bounds; fails when both are missing or empty.
    pub fn new(starts_with: Option<String>, ends_with: Option<String>, ignore_case: bool) -> (r:
        Result<MatchCriteria, GrindError>)
        ensures
            match r {
                Ok(c) => c.wf() && c.prefix@ == given_text(starts_with) && c.suffix@ == given_text(
                    ends_with,
                ) && c.ignore_case == ignore_case,
                Err(GrindError::MissingCriteria) => given_text(starts_with).len() == 0
                    && given_text(ends_with).len() == 0,
            },
    {
        let prefix = match starts_with {
            Some(s) => s,
            None => "".to_owned(),
        };
        let suffix = match ends_with {
            Some(s) => s,
            None => "".to_owned(),
        };
        proof {
            reveal_strlit("");
        }
        if prefix.as_str().unicode_len() == 0 && suffix.as_str().unicode_len() == 0 {
            return Err(GrindError::MissingCriteria);
        }
        Ok(MatchCriteria { prefix, suffix, ignore_case })
    }

    /// Whether the identifier `pubkey` meets the criteria.
    pub fn is_match(&self, pubkey: &str) -> (r: bool)
        ensures
            r == self.accepts(pubkey@),
    {
        check_match(pubkey, self.prefix.as_str(), self.suffix.as_str(), self.ignore_case)
    }
}

/// An accepted match: the public identifier, the Base58 text of the
/// keypair's 64 bytes, the bytes themselves, and the value that its claim
/// drew from the found-counter.
#[derive(Debug, PartialEq, Eq)]
pub struct MatchRecord {
    pub pubkey: String,
    pub secret: String,
    pub keypair: Vec<u8>,
    pub claim: u64,
}

/// `pubkey` and `secret` render the keypair whose 64 bytes are `kp`.
pub open spec fn renders_keypair(kp: Seq<u8>, pubkey: Seq<char>, secret: Seq<char>) -> bool {
    kp.len() == 64 && pubkey == pubkey_text_of(kp) && secret == base58_of(kp)
}

/// A record that the search may report: it renders its own keypair, meets the
/// criteria, and its claim drew a value below the target.
pub open spec fn valid_record(m: MatchRecord, criteria: MatchCriteria, target: u64) -> bool {
    renders_keypair(m.keypair@, m.pubkey@, m.secret@) && criteria.accepts(m.pubkey@)
        && claim_accepted(m.claim as nat, target as nat)
}

/// The counters that all workers of one search share.
pub struct SharedProgress {
    found: AtomicU64,
    attempts: AtomicU64,
}

impl SharedProgress {
    /// Both counters at zero.
    pub fn new() -> (r: SharedProgress) {
        SharedProgress { found: AtomicU64::new(0), attempts: AtomicU64::new(0) }
    }

    /// The claims made so far, accepted or not.
    pub fn found_count(&self) -> u64 {
        self.found.load(Ordering::SeqCst)
    }

    /// The keypairs drawn so far.
    pub fn total_attempts(&self) -> u64 {
        self.attempts.load(Ordering::SeqCst)
    }
}

/// A claim that drew `previous` from the found-counter is accepted.
pub open spec fn claim_accepted(previous: nat, target: nat) -> bool {
    previous < target
}

/// How many of the claims that drew 0, 1, ..., `claims - 1` are accepted.
pub open spec fn accepted_claims(claims: nat, target: nat) -> nat
    decreases claims,
{
    if claims == 0 {
        0
    } else {
        accepted_claims((claims - 1) as nat, target) + if claim_accepted(
            (claims - 1) as nat,
            target,
        ) {
            1nat
        } else {
            0nat
        }
    }
}

/// The found-counter hands each claim its own value 0, 1, 2, ..., in
/// whatever order the workers reach it, and `claim_outcome` keeps a match
/// exactly when `claim_accepted` holds of the value drawn. Of `claims` such
/// claims, exactly `min(claims, target)` pass that rule: never more than the
/// target, and the target itself once that many matches were claimed.
pub proof fn lemma_accepted_claims(claims: nat, target: nat)
    ensures
        accepted_claims(claims, target) == if claims < target {
            claims
        } else {
            target
        },
    decreases claims,
{
    if claims > 0 {
        lemma_accepted_claims((claims - 1) as nat, target);
    }
}

/// The match test on a drawn keypair: its public identifier when that meets
/// the criteria, else nothing.
pub fn match_step(criteria: &MatchCriteria, kp: &[u8]) -> (r: Option<String>)
    requires
        kp@.len() == 64,
    ensures
        r is Some <==> criteria.accepts(pubkey_text_of(kp@)),
        r matches Some(p) ==> p@ == pubkey_text_of(kp@),
{
    let pubkey = pubkey_text(kp);
    if criteria.is_match(pubkey.as_str()) {
        Some(pubkey)
    } else {
        None
    }
}

/// The record that a matching keypair yields, given the value `previous`
/// that its claim drew from the found-counter: one exactly when the claim is
/// accepted.
pub fn claim_outcome(target: u64, kp: Vec<u8>, pubkey: String, previous: u64) -> (r: Option<
    MatchRecord,
>)
    requires
        kp@.len() == 64,
        pubkey@ == pubkey_text_of(kp@),
    ensures
        r is Some <==> claim_accepted(previous as nat, target as nat),
        r matches Some(m) ==> renders_keypair(kp@, m.pubkey@, m.secret@) && m.keypair@ == kp@
            && m.pubkey@ == pubkey@ && m.claim == previous,
{
    if previous < target {
        let secret = encode_bytes_to_base58(kp.as_slice());
        Some(MatchRecord { pubkey, secret, keypair: kp, claim: previous })
    } else {
        None
    }
}

/// What one attempt of a worker came to.
#[derive(Debug)]
pub enum AttemptOutcome {
    /// The found-counter read `found`, at least the target: nothing was drawn.
    TargetReached(u64),
    /// A keypair was drawn and counted; its record when it matched and its
    /// claim was accepted.
    Drawn(Option<MatchRecord>),
}

/// One attempt of the search. It reads the found-counter and stops there
/// once the target is reached. Otherwise it draws a keypair, tests it with
/// `match_step`, on a match claims a slot on the found-counter and settles it
/// with `claim_outcome`, and counts the attempt.
pub fn grind_attempt(criteria: &MatchCriteria, target: u64, progress: &SharedProgress) -> (r:
    AttemptOutcome)
    ensures
        r matches AttemptOutcome::TargetReached(found) ==> found >= target,
        r matches AttemptOutcome::Drawn(Some(m)) ==> valid_record(m, *criteria, target),
{
    let found = progress.found.load(Ordering::SeqCst);
    if found >= target {
        return AttemptOutcome::TargetReached(found);
    }
    let kp = random_keypair_bytes();
    let record = match match_step(criteria, kp.as_slice()) {
        Some(pubkey) => {
            let previous = progress.found.fetch_add(1, Ordering::SeqCst);
            claim_outcome(target, kp, pubkey, previous)
        },
        None => None,
    };
    progress.attempts.fetch_add(1, Ordering::Relaxed);
    AttemptOutcome::Drawn(record)
}

/// What one worker did.
#[derive(Debug)]
pub struct WorkerReport {
    /// The records of its accepted claims, in the order it made them.
    pub matches: Vec<MatchRecord>,
    /// The keypairs it drew.
    pub attempts: u64,
    /// The found-count it read when it stopped at the target; nothing when it
    /// stopped at its attempt limit instead.
    pub stopped_at: Option<u64>,
}

/// One worker of the search: `grind_attempt` repeated until it reports the
/// target reached or `max_attempts` keypairs were drawn.
pub fn grind_worker(criteria: &MatchCriteria, target: u64, progress: &SharedProgress, max_attempts: u64) -> (r: WorkerReport)
    ensures
        r.matches@.len() <= r.attempts <= max_attempts,
        r.stopped_at is None <==> r.attempts == max_attempts,
        r.stopped_at matches Some(found) ==> found >= target,
        forall|i: int|
            0 <= i < r.matches@.len() ==> valid_record(#[trigger] r.matches@[i], *criteria, target),
{
    let mut matches: Vec<MatchRecord> = Vec::new();
    let mut n: u64 = 0;
    while n < max_attempts
        invariant
            matches@.len() <= n <= max_attempts,
            forall|i: int|
                0 <= i < matches@.len() ==> valid_record(#[trigger] matches@[i], *criteria, target),
        decreases max_attempts - n,
    {
        match grind_attempt(criteria, target, progress) {
            AttemptOutcome::TargetReached(found) => {
                return WorkerReport { matches, attempts: n, stopped_at: Some(found) };
            },
            AttemptOutcome::Drawn(record) => {
                if let Some(m) = record {
                    matches.push(m);
                }
            },
        }
        n = n + 1;
    }
    WorkerReport { matches, attempts: n, stopped_at: None }
}

} // verus!
