use secure_sum::address::AddressBook;
use secure_sum::errors::ProtocolError;
use secure_sum::exchange::{Collector, Distributor};
use secure_sum::orchestrator::{check_aggregation, classify, Party, Phase, Standing};
use secure_sum::retry::{connect_outcome, RetryPolicy};
use secure_sum::session::{full_schedule, run_phase, run_protocol};
use secure_sum::split::{check_split_invariant, split};

/// Every connection the protocol owes, collector-to-distributor, in a plain
/// nested-loop order.
fn all_pairs(n: usize) -> Vec<(usize, usize)> {
    let mut pairs = Vec::new();
    for c in 0..n {
        for d in 0..n {
            if c != d {
                pairs.push((c, d));
            }
        }
    }
    pairs
}

fn sum_of(values: &[i64]) -> i64 {
    let mut acc: i64 = 0;
    for v in values {
        acc += *v;
    }
    acc
}

#[test]
fn split_sums_to_secret_for_any_draw() {
    for &secret in &[0i64, 1, -1, 185000, -99999, 1 << 40] {
        for &count in &[1usize, 2, 3, 4, 7, 32] {
            let shares = split(secret, count);
            assert_eq!(shares.len(), count);
            let mut acc: i128 = 0;
            for s in &shares {
                acc += *s as i128;
            }
            assert_eq!(acc, secret as i128);
        }
    }
}

#[test]
fn split_single_participant_keeps_the_secret() {
    let shares = split(424242, 1);
    assert_eq!(shares, vec![424242]);
}

#[test]
fn split_self_check_accepts_and_rejects() {
    let shares = split(185000, 4);
    assert!(check_split_invariant(185000, &shares).is_ok());
    let bad = vec![1i64, 2, 3];
    assert_eq!(
        check_split_invariant(185000, &bad),
        Err(ProtocolError::SplitInvariantViolation)
    );
}

#[test]
fn handshake_returns_the_value_for_the_declared_caller() {
    let payload = vec![10i64, 20, 30, 40];
    let mut dist = Distributor::new(1, 4, payload);
    // caller 3 identifies itself; it must get entry 3 whatever arrived before
    let token = secure_sum::codec::identity_token(3);
    let reply = dist.handle_request(&token).unwrap();
    let value = secure_sum::codec::read_reply(&reply).unwrap();
    assert_eq!(value, 40);
    // the same caller a second time is a protocol violation
    let again = dist.handle_request(&token);
    assert_eq!(again, Err(ProtocolError::ProtocolViolation));
}

#[test]
fn handshake_rejects_malformed_and_out_of_range_tokens() {
    let payload = vec![10i64, 20, 30, 40];
    let mut dist = Distributor::new(0, 4, payload);
    let short = vec![1u8, 2, 3];
    assert_eq!(
        dist.handle_request(&short),
        Err(ProtocolError::ProtocolViolation)
    );
    let out_of_range = secure_sum::codec::identity_token(9);
    assert_eq!(
        dist.handle_request(&out_of_range),
        Err(ProtocolError::ProtocolViolation)
    );
    let own = secure_sum::codec::identity_token(0);
    assert_eq!(
        dist.handle_request(&own),
        Err(ProtocolError::ProtocolViolation)
    );
}

#[test]
fn reply_parsing_rejects_wrong_length() {
    let garbage = vec![0u8; 7];
    assert_eq!(
        secure_sum::codec::read_reply(&garbage),
        Err(ProtocolError::ProtocolViolation)
    );
    let long = vec![0u8; 9];
    assert_eq!(
        secure_sum::codec::read_reply(&long),
        Err(ProtocolError::ProtocolViolation)
    );
}

#[test]
fn identity_token_round_trips() {
    for id in [0usize, 1, 7, 1023] {
        let token = secure_sum::codec::identity_token(id);
        assert_eq!(token.len(), 8);
        assert_eq!(secure_sum::codec::parse_identity(&token, 1024), Ok(id));
    }
    let token = secure_sum::codec::identity_token(5);
    assert_eq!(
        secure_sum::codec::parse_identity(&token, 4),
        Err(ProtocolError::ProtocolViolation)
    );
}

#[test]
fn phase_outcome_is_independent_of_arrival_order() {
    // a fixed payload table; three very different arrival orders
    let payloads = vec![
        vec![1i64, 2, 3],
        vec![40, 50, 60],
        vec![-700, -800, 900],
    ];
    let forward = all_pairs(3);
    let mut reversed = all_pairs(3);
    reversed.reverse();
    let mut interleaved = all_pairs(3);
    interleaved.swap(0, 5);
    interleaved.swap(1, 3);
    let a = run_phase(&payloads, &forward).unwrap();
    let b = run_phase(&payloads, &reversed).unwrap();
    let c = run_phase(&payloads, &interleaved).unwrap();
    assert_eq!(a, b);
    assert_eq!(b, c);
    // and the outcome is the column sums
    assert_eq!(a, vec![1 + 40 - 700, 2 + 50 - 800, 3 + 60 + 900]);
}

#[test]
fn phase_fails_when_a_connection_never_arrives() {
    let payloads = vec![vec![1i64, 2], vec![3, 4]];
    let missing: Vec<(usize, usize)> = vec![(0, 1)];
    assert_eq!(
        run_phase(&payloads, &missing),
        Err(ProtocolError::ConnectionError)
    );
}

#[test]
fn phase_fails_on_a_repeated_connection() {
    let payloads = vec![vec![1i64, 2], vec![3, 4]];
    let doubled: Vec<(usize, usize)> = vec![(0, 1), (0, 1), (1, 0)];
    assert_eq!(
        run_phase(&payloads, &doubled),
        Err(ProtocolError::ProtocolViolation)
    );
}

#[test]
fn end_to_end_every_participant_reports_the_true_average() {
    let secrets = vec![160000i64, 180000, 190000, 210000];
    let avgs = run_protocol(&secrets, &all_pairs(4), &all_pairs(4)).unwrap();
    assert_eq!(avgs, vec![185000i64; 4]);
}

#[test]
fn end_to_end_with_negative_and_uneven_sum() {
    let secrets = vec![-7i64, 5, 3];
    // sum is 1; truncating division gives 0 for every participant
    let avgs = run_protocol(&secrets, &all_pairs(3), &all_pairs(3)).unwrap();
    assert_eq!(avgs, vec![0i64; 3]);
    let secrets = vec![-8i64, 5, 0];
    // sum is -3; truncation toward zero gives -1
    let avgs = run_protocol(&secrets, &all_pairs(3), &all_pairs(3)).unwrap();
    assert_eq!(avgs, vec![-1i64; 3]);
}

#[test]
fn rerunning_with_fresh_randomness_changes_nothing() {
    let secrets = vec![180000i64, 220000, 220000, 260000];
    let first = run_protocol(&secrets, &all_pairs(4), &all_pairs(4)).unwrap();
    // a second run draws entirely new random shares
    let second = run_protocol(&secrets, &all_pairs(4), &all_pairs(4)).unwrap();
    let mut reordered = all_pairs(4);
    reordered.reverse();
    let third = run_protocol(&secrets, &reordered, &all_pairs(4)).unwrap();
    assert_eq!(first, second);
    assert_eq!(second, third);
    assert_eq!(first, vec![220000i64; 4]);
}

#[test]
fn canonical_schedule_drives_a_full_run() {
    let sched = full_schedule(4);
    assert_eq!(sched.len(), 12);
    assert_eq!(sched, all_pairs(4));
    let secrets = vec![160000i64, 180000, 190000, 210000];
    let avgs = run_protocol(&secrets, &sched, &full_schedule(4)).unwrap();
    assert_eq!(avgs, vec![185000i64; 4]);
}

#[test]
fn single_participant_needs_no_exchange() {
    let secrets = vec![31337i64];
    let empty: Vec<(usize, usize)> = Vec::new();
    let avgs = run_protocol(&secrets, &empty, &empty).unwrap();
    assert_eq!(avgs, vec![31337i64]);
}

#[test]
fn wire_payloads_are_never_the_raw_secrets() {
    // every phase-one wire message is a randomized share; none of them may
    // equal any participant's raw value (overwhelmingly likely per run)
    let secrets = vec![160000i64, 180000, 190000, 210000];
    let n = secrets.len();
    let mut wire_values = Vec::new();
    for i in 0..n {
        let shares = split(secrets[i], n);
        let mut dist = Distributor::new(i, n, shares);
        for c in 0..n {
            if c == i {
                continue;
            }
            let token = secure_sum::codec::identity_token(c);
            let reply = dist.handle_request(&token).unwrap();
            wire_values.push(secure_sum::codec::read_reply(&reply).unwrap());
        }
    }
    for v in &wire_values {
        for s in &secrets {
            assert_ne!(*v, *s);
        }
    }
}

#[test]
fn full_party_walkthrough_matches_the_scenario() {
    // secrets whose average one participant earns exactly
    let secrets = vec![180000i64, 220000, 220000, 260000];
    let n = secrets.len();
    let mut parties: Vec<Party> = (0..n).map(|i| Party::new(i, n, secrets[i])).collect();
    for p in parties.iter_mut() {
        p.split_secret();
    }
    // phase one
    let mut dists = Vec::new();
    let mut colls = Vec::new();
    for p in parties.iter_mut() {
        let (d, c) = p.begin_share_exchange();
        dists.push(d);
        colls.push(c);
    }
    for (c, d) in all_pairs(n) {
        let token = colls[c].token();
        let reply = dists[d].handle_request(&token).unwrap();
        colls[c].record(&reply).unwrap();
    }
    for i in 0..n {
        assert!(dists[i].done());
        assert!(colls[i].complete());
        parties[i].finish_share_exchange(&colls[i]).unwrap();
    }
    // phase two
    let mut dists = Vec::new();
    let mut colls = Vec::new();
    for p in parties.iter_mut() {
        let (d, c) = p.begin_sum_exchange();
        dists.push(d);
        colls.push(c);
    }
    for (c, d) in all_pairs(n) {
        let token = colls[c].token();
        let reply = dists[d].handle_request(&token).unwrap();
        colls[c].record(&reply).unwrap();
    }
    for i in 0..n {
        parties[i].finish_sum_exchange(&colls[i]).unwrap();
        parties[i].compute_average();
    }
    let standings: Vec<Standing> = parties.iter().map(|p| p.report()).collect();
    for (i, p) in parties.iter_mut().enumerate() {
        assert_eq!(p.average, 220000);
        assert!(check_aggregation(p.average, &secrets).is_ok());
        p.terminate();
        assert_eq!(p.phase, Phase::Terminated);
        let _ = i;
    }
    assert_eq!(
        standings,
        vec![
            Standing::Below,
            Standing::Equal,
            Standing::Equal,
            Standing::Above
        ]
    );
}

#[test]
fn single_party_walkthrough_terminates_without_peers() {
    let mut party = Party::new(0, 1, 555);
    party.split_secret();
    let (dist, coll) = party.begin_share_exchange();
    assert!(dist.done());
    assert!(coll.complete());
    party.finish_share_exchange(&coll).unwrap();
    let (dist, coll) = party.begin_sum_exchange();
    assert!(dist.done());
    assert!(coll.complete());
    party.finish_sum_exchange(&coll).unwrap();
    party.compute_average();
    assert_eq!(party.average, 555);
    assert_eq!(party.report(), Standing::Equal);
}

#[test]
fn classification_matches_comparison() {
    assert_eq!(classify(100, 50), Standing::Above);
    assert_eq!(classify(50, 50), Standing::Equal);
    assert_eq!(classify(10, 50), Standing::Below);
}

#[test]
fn aggregation_check_flags_a_wrong_average() {
    let secrets = vec![160000i64, 180000, 190000, 210000];
    assert!(check_aggregation(185000, &secrets).is_ok());
    assert_eq!(
        check_aggregation(185001, &secrets),
        Err(ProtocolError::AggregationMismatch)
    );
    assert_eq!(sum_of(&secrets) / 4, 185000);
}

#[test]
fn retry_gives_up_within_its_budget() {
    // a peer that never starts listening: the caller must terminate with a
    // connection error, not hang
    let never = vec![false; 100];
    let policy = RetryPolicy::new(5);
    assert_eq!(
        connect_outcome(&never, &policy),
        Err(ProtocolError::ConnectionError)
    );
    assert_eq!(
        ProtocolError::ConnectionError.describe(),
        "peer unreachable within the retry budget"
    );
}

#[test]
fn retry_connects_on_the_first_attempt_that_succeeds() {
    let late = vec![false, false, false, true, true];
    let policy = RetryPolicy::new(10);
    assert_eq!(connect_outcome(&late, &policy), Ok(3));
    assert!(policy.allows(9));
    assert!(!policy.allows(10));
    // listening began just after the budget ran out
    let too_late = vec![false, false, false, true];
    let tight = RetryPolicy::new(3);
    assert_eq!(
        connect_outcome(&too_late, &tight),
        Err(ProtocolError::ConnectionError)
    );
}

#[test]
fn address_book_is_collision_free() {
    let book = AddressBook::new(12121, 4).unwrap();
    let mut ports = Vec::new();
    for id in 0..4 {
        ports.push(book.endpoint_for(id));
    }
    assert_eq!(ports, vec![12121, 12122, 12123, 12124]);
    // a book whose ports would overflow the port space is refused
    assert!(AddressBook::new(65535, 4).is_none());
}
