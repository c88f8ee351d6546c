use rayon::iter::{IntoParallelIterator, ParallelIterator};
use solana_key_utils::base58::encode_bytes_to_base58;
use solana_key_utils::grind::{
    claim_outcome, grind_attempt, grind_worker, match_step, AttemptOutcome, GrindError, MatchCriteria,
    MatchRecord, SharedProgress,
};
use solana_key_utils::keypair::{generate_keypair, pubkey_text};
use std::collections::HashSet;

fn loose_criteria() -> MatchCriteria {
    MatchCriteria::new(None, Some("a".to_string()), true).unwrap()
}

fn run(criteria: &MatchCriteria, target: u64, workers: usize) -> (Vec<MatchRecord>, u64) {
    let progress = SharedProgress::new();
    let parts: Vec<Vec<MatchRecord>> = (0..workers)
        .into_par_iter()
        .map(|_| grind_worker(criteria, target, &progress, u64::MAX).matches)
        .collect();
    let matches: Vec<MatchRecord> = parts.into_iter().flatten().collect();
    (matches, progress.total_attempts())
}

#[test]
fn criteria_need_a_bound() {
    assert_eq!(MatchCriteria::new(None, None, false).err(), Some(GrindError::MissingCriteria));
    assert_eq!(
        MatchCriteria::new(Some(String::new()), Some(String::new()), true).err(),
        Some(GrindError::MissingCriteria)
    );
    let c = MatchCriteria::new(Some("Ab".to_string()), None, true).unwrap();
    assert_eq!(c.prefix, "Ab");
    assert_eq!(c.suffix, "");
    assert!(c.ignore_case);
    assert!(c.is_match("abXYZ"));
    assert!(!c.is_match("XYZab"));
}

#[test]
fn generated_keypair_renders_its_bytes() {
    let kp = generate_keypair();
    assert_eq!(kp.bytes.len(), 64);
    assert_eq!(kp.pubkey, encode_bytes_to_base58(&kp.bytes[32..]));
    assert_eq!(kp.pubkey, pubkey_text(&kp.bytes));
    assert_eq!(kp.secret, encode_bytes_to_base58(&kp.bytes[..32]));
    assert!(kp.pubkey.len() >= 32 && kp.pubkey.len() <= 44);
    assert_ne!(generate_keypair().bytes, kp.bytes);
}

#[test]
fn grind_finds_exactly_the_target() {
    let criteria = loose_criteria();
    let (matches, attempts) = run(&criteria, 3, 4);
    assert_eq!(matches.len(), 3);
    assert!(attempts >= 3);
    for m in &matches {
        assert!(m.pubkey.to_lowercase().ends_with('a'));
        assert!(criteria.is_match(&m.pubkey));
        let bytes = bs58::decode(&m.secret).into_vec().unwrap();
        assert_eq!(bytes.len(), 64);
        assert_eq!(m.pubkey, encode_bytes_to_base58(&bytes[32..]));
        assert_eq!(bytes, m.keypair);
        assert!(m.claim < 3);
    }
    let mut claims: Vec<u64> = matches.iter().map(|m| m.claim).collect();
    claims.sort();
    assert_eq!(claims, vec![0, 1, 2]);
}

#[test]
fn grind_reports_distinct_identifiers() {
    let (matches, _) = run(&loose_criteria(), 8, 4);
    assert_eq!(matches.len(), 8);
    let ids: HashSet<&String> = matches.iter().map(|m| &m.pubkey).collect();
    assert_eq!(ids.len(), matches.len());
}

#[test]
fn grind_never_reports_more_than_the_target() {
    for _ in 0..3 {
        let (matches, attempts) = run(&loose_criteria(), 50, 16);
        assert_eq!(matches.len(), 50);
        assert!(attempts >= 50);
    }
}

#[test]
fn grind_worker_stops_at_its_attempt_limit() {
    let progress = SharedProgress::new();
    let never = MatchCriteria::new(Some("0".to_string()), None, false).unwrap();
    let report = grind_worker(&never, 1, &progress, 20);
    assert!(report.matches.is_empty());
    assert_eq!(report.attempts, 20);
    assert_eq!(report.stopped_at, None);
    assert_eq!(progress.total_attempts(), 20);
    assert_eq!(progress.found_count(), 0);
}

#[test]
fn grind_worker_does_nothing_once_the_target_is_met() {
    let progress = SharedProgress::new();
    let report = grind_worker(&loose_criteria(), 0, &progress, 1000);
    assert!(report.matches.is_empty());
    assert_eq!(report.attempts, 0);
    assert_eq!(report.stopped_at, Some(0));
    assert_eq!(progress.total_attempts(), 0);
}

#[test]
fn match_step_tests_the_public_half() {
    let kp = generate_keypair();
    let last = kp.pubkey.chars().last().unwrap().to_string();
    let hit = MatchCriteria::new(None, Some(last), false).unwrap();
    assert_eq!(match_step(&hit, &kp.bytes), Some(kp.pubkey.clone()));
    let miss = MatchCriteria::new(Some("0".to_string()), None, false).unwrap();
    assert_eq!(match_step(&miss, &kp.bytes), None);
}

#[test]
fn claim_outcome_keeps_only_claims_below_the_target() {
    let kp = generate_keypair();
    let m = claim_outcome(2, kp.bytes.clone(), kp.pubkey.clone(), 1).unwrap();
    assert_eq!(m.pubkey, kp.pubkey);
    assert_eq!(m.secret, encode_bytes_to_base58(&kp.bytes));
    assert_eq!(m.keypair, kp.bytes);
    assert_eq!(m.claim, 1);
    assert_eq!(claim_outcome(2, kp.bytes.clone(), kp.pubkey.clone(), 2), None);
    assert_eq!(claim_outcome(0, kp.bytes.clone(), kp.pubkey, 0), None);
}

#[test]
fn grind_attempt_stops_at_the_target_and_counts_draws() {
    let progress = SharedProgress::new();
    let criteria = loose_criteria();
    let mut accepted = 0;
    loop {
        match grind_attempt(&criteria, 2, &progress) {
            AttemptOutcome::TargetReached(found) => {
                assert_eq!(found, 2);
                break;
            }
            AttemptOutcome::Drawn(Some(m)) => {
                assert!(criteria.is_match(&m.pubkey));
                accepted += 1;
            }
            AttemptOutcome::Drawn(None) => {}
        }
    }
    assert_eq!(accepted, 2);
    assert_eq!(progress.found_count(), 2);
    assert!(progress.total_attempts() >= 2);
}
