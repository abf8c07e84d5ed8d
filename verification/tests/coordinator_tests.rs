use monero_web_coordinator::config::{JobsConfig, LimitsConfig};
use monero_web_coordinator::error::CoordinatorError;
use monero_web_coordinator::handler::{
    handle_hello, handle_ping, handle_template_change, judge_hash, prepare_submission,
    submit_result_of_daemon, SubmitPrep,
};
use monero_web_coordinator::hexfmt::hex_encode;
use monero_web_coordinator::jobs::JobManager;
use monero_web_coordinator::metrics::Metrics;
use monero_web_coordinator::protocol::{ServerMessage, SubmitStatus};
use monero_web_coordinator::ratelimit::RateLimiter;
use monero_web_coordinator::rpc::BlockTemplate;
use monero_web_coordinator::session::{SessionManager, SessionState};
use monero_web_coordinator::template::TemplateState;
use monero_web_coordinator::validator::SubmissionValidator;

#[test]
fn rate_limiter_window_contract() {
    // Capacity 3 per 1-second window.
    let mut rl = RateLimiter::new(3, 1);
    assert!(rl.check(1000));
    assert!(rl.check(1100));
    assert!(rl.check(1200));
    // The 4th check inside the window is denied.
    assert!(!rl.check(1300));
    assert_eq!(rl.remaining(), 0);
    // Past the window all three expire and a fresh run of 3 is admitted.
    assert!(rl.check(2201));
    assert!(rl.check(2202));
    assert!(rl.check(2203));
    assert!(!rl.check(2204));
}

#[test]
fn rate_limiter_remaining_accounting() {
    let mut rl = RateLimiter::new(5, 60);
    assert_eq!(rl.remaining(), 5);
    assert!(rl.check(0));
    assert!(rl.check(10));
    assert_eq!(rl.remaining(), 3);
}

#[test]
fn session_caps_per_ip_and_total() {
    // max_per_ip 2, max_total 3.
    let mut sm = SessionManager::new(2, 3, 10, 10);
    let ip_a: u128 = 0x7f000001;
    let ip_b: u128 = 0x7f000002;
    assert!(sm.create_session(ip_a, 0).is_some());
    assert!(sm.create_session(ip_a, 0).is_some());
    // Third connection from the same address is refused.
    assert!(sm.create_session(ip_a, 0).is_none());
    // A different address still gets in.
    assert!(sm.create_session(ip_b, 0).is_some());
    // Now the total cap (3) is reached: every address is refused.
    assert!(sm.create_session(ip_b, 0).is_none());
    assert_eq!(sm.active_count(), 3);
}

#[test]
fn session_lifecycle_and_lookup() {
    let mut sm = SessionManager::new(5, 5, 10, 10);
    let s = sm.create_session(1, 100).unwrap();
    assert_eq!(s.state, SessionState::Connected);
    assert_eq!(s.id.len(), 36);
    let found = sm.get_session(&s.id).unwrap();
    assert_eq!(found.id, s.id);
    sm.set_ready(&s.id, "miner/1.0".to_string(), 4);
    let ready = sm.get_session(&s.id).unwrap();
    assert_eq!(ready.state, SessionState::Ready);
    assert_eq!(ready.client_version, Some("miner/1.0".to_string()));
    assert_eq!(ready.threads, 4);
    sm.remove_session(&s.id);
    assert!(sm.get_session(&s.id).is_none());
    assert_eq!(sm.active_count(), 0);
}

#[test]
fn session_message_limit_denies_fourth() {
    let mut sm = SessionManager::new(5, 5, 3, 10);
    let s = sm.create_session(1, 0).unwrap();
    assert!(sm.check_message_limit(&s.id, 1000));
    assert!(sm.check_message_limit(&s.id, 1001));
    assert!(sm.check_message_limit(&s.id, 1002));
    // messages_per_second is 3: the 4th frame within the second is denied.
    assert!(!sm.check_message_limit(&s.id, 1003));
    // A missing session is always denied.
    assert!(!sm.check_message_limit("no-such-session", 1000));
}

#[test]
fn idle_sessions_are_evicted() {
    let mut sm = SessionManager::new(5, 5, 10, 10);
    let s1 = sm.create_session(1, 0).unwrap();
    let _s2 = sm.create_session(2, 60_000).unwrap();
    let removed = sm.cleanup_idle(30_000, 70_000);
    assert_eq!(removed, 1);
    assert!(sm.get_session(&s1.id).is_none());
    assert_eq!(sm.active_count(), 1);
}

fn test_template() -> TemplateState {
    let blob = "00".repeat(100);
    let bt = BlockTemplate {
        blockhashing_blob: String::new(),
        blocktemplate_blob: blob,
        difficulty: 1,
        expected_reward: 0,
        height: 2500000,
        prev_hash: "aa".repeat(32),
        reserved_offset: 55,
        seed_hash: "bb".repeat(32),
        status: "OK".to_string(),
    };
    TemplateState::from_rpc(bt, 7, 8, 1000)
}

#[test]
fn validator_classifies_blobs() {
    let mut jm = JobManager::new(5000);
    let t = test_template();
    let job = jm.create_job(&t, "s1", 0);
    let v = SubmissionValidator::new();

    // The job's own blob passes.
    let ok = v.validate_blob(&job.blob_hex, &job);
    assert!(ok.is_ok());

    // Not hex.
    match v.validate_blob("zz", &job) {
        Err(CoordinatorError::Validation(m)) => assert_eq!(m, "Invalid hex"),
        _ => panic!("expected a validation error"),
    }

    // Too short.
    match v.validate_blob("00", &job) {
        Err(CoordinatorError::Validation(m)) => assert_eq!(m, "Blob too short"),
        _ => panic!("expected a validation error"),
    }

    // A byte flipped inside the reserved window is a reserved-value mismatch.
    let mut bytes = monero_web_coordinator::hexfmt::hex_decode(&job.blob_hex).unwrap();
    bytes[job.reserved_offset] ^= 0xff;
    let tampered = hex_encode(&bytes);
    match v.validate_blob(&tampered, &job) {
        Err(CoordinatorError::Validation(m)) => assert_eq!(m, "Reserved value mismatch"),
        _ => panic!("expected a validation error"),
    }
}

#[test]
fn validator_rebuild_decision_follows_seed() {
    let mut v = SubmissionValidator::new();
    // A fresh validator wants a rebuild for any seed, and keeps wanting one
    // until a successful rebuild is recorded.
    assert!(v.needs_rebuild("seed-1"));
    assert!(v.needs_rebuild("seed-1"));
    v.record_rebuilt("seed-1");
    assert!(!v.needs_rebuild("seed-1"));
    // A new seed asks for a rebuild again; only recording it flips the
    // decision.
    assert!(v.needs_rebuild("seed-2"));
    assert!(v.needs_rebuild("seed-2"));
    v.record_rebuilt("seed-2");
    assert!(!v.needs_rebuild("seed-2"));
}

#[test]
fn hello_without_template_answers_stats() {
    let mut sm = SessionManager::new(5, 5, 20, 120);
    let mut jm = JobManager::new(5000);
    let s = sm.create_session(1, 0).unwrap();
    let limits = LimitsConfig { submits_per_minute: 120, shares_per_minute: 600, messages_per_second: 20 };
    let jobs_cfg = JobsConfig { job_ttl_ms: 300_000, template_refresh_interval_ms: 15_000, stale_job_grace_ms: 5_000 };
    let r = handle_hello(&mut sm, &mut jm, None, &s.id, "x/1".to_string(), 2, &limits, &jobs_cfg, 42);
    match r {
        ServerMessage::Stats { v, payload, .. } => {
            assert_eq!(v, 1);
            assert_eq!(payload.session_id, s.id);
            assert_eq!(payload.submits_per_minute, 120);
            assert_eq!(payload.messages_per_second, 20);
            assert_eq!(payload.policy.job_ttl_ms, 300_000);
            assert_eq!(payload.server_time_ms, 42);
        }
        _ => panic!("expected a stats frame"),
    }
    // The session is Ready afterwards.
    assert_eq!(sm.get_session(&s.id).unwrap().state, SessionState::Ready);
}

#[test]
fn hello_with_template_answers_job_then_ping_answers_pong() {
    let mut sm = SessionManager::new(5, 5, 20, 120);
    let mut jm = JobManager::new(5000);
    let t = test_template();
    let s = sm.create_session(1, 0).unwrap();
    let limits = LimitsConfig { submits_per_minute: 120, shares_per_minute: 600, messages_per_second: 20 };
    let jobs_cfg = JobsConfig { job_ttl_ms: 300_000, template_refresh_interval_ms: 15_000, stale_job_grace_ms: 5_000 };
    let r = handle_hello(&mut sm, &mut jm, Some(&t), &s.id, "x/1".to_string(), 2, &limits, &jobs_cfg, 42);
    match r {
        ServerMessage::Job { v, payload, .. } => {
            assert_eq!(v, 1);
            assert_eq!(payload.job_id, "0000000000000000");
            assert_eq!(payload.height, 2500000);
            assert_eq!(payload.seed_hash, t.seed_hash);
        }
        _ => panic!("expected a job frame"),
    }
    let pong = handle_ping(&mut sm, &s.id, "p1".to_string(), 50);
    match pong {
        ServerMessage::Pong { v, id, .. } => {
            assert_eq!(v, 1);
            assert_eq!(id, "p1");
        }
        _ => panic!("expected a pong frame"),
    }
}

#[test]
fn template_change_mints_fresh_job() {
    let mut sm = SessionManager::new(5, 5, 20, 120);
    let mut jm = JobManager::new(5000);
    let t = test_template();
    let s = sm.create_session(1, 0).unwrap();
    let r = handle_template_change(&mut sm, &mut jm, &t, &s.id, 300_000, 99);
    match r {
        ServerMessage::Job { payload, .. } => {
            assert_eq!(payload.job_id, "0000000000000000");
        }
        _ => panic!("expected a job frame"),
    }
    let held = sm.get_session(&s.id).unwrap();
    assert_eq!(held.current_job_id, Some("0000000000000000".to_string()));
}

#[test]
fn submission_pipeline_decisions() {
    let mut jm = JobManager::new(1000);
    let mut v = SubmissionValidator::new();
    let t = test_template();
    let job = jm.create_job(&t, "s1", 10_000);

    // Unknown job id.
    match prepare_submission(&jm, &v, "0000000000000f00", "01020304", t.template_id, 10_000) {
        SubmitPrep::UnknownJob => {}
        _ => panic!("expected unknown job"),
    }

    // Stale: template moved on and the grace window passed.
    match prepare_submission(&jm, &v, &job.job_id, "01020304", t.template_id + 1, 12_000) {
        SubmitPrep::Stale => {}
        _ => panic!("expected stale"),
    }

    // Bad nonce.
    match prepare_submission(&jm, &v, &job.job_id, "xyz", t.template_id, 10_000) {
        SubmitPrep::BadNonce { .. } => {}
        _ => panic!("expected bad nonce"),
    }

    // Well-formed submission reaches the hashing stage, asking for a VM build
    // as long as no successful build was recorded for this seed.
    match prepare_submission(&jm, &v, &job.job_id, "01020304", t.template_id, 10_000) {
        SubmitPrep::ReadyToHash { job: j, blob, rebuild_vm } => {
            assert_eq!(j.job_id, job.job_id);
            assert_eq!(&blob[39..43], &[1, 2, 3, 4]);
            assert!(rebuild_vm);
        }
        _ => panic!("expected ready-to-hash"),
    }
    v.record_rebuilt(&job.seed_hash);
    match prepare_submission(&jm, &v, &job.job_id, "01020304", t.template_id, 10_000) {
        SubmitPrep::ReadyToHash { rebuild_vm, .. } => {
            assert!(!rebuild_vm);
        }
        _ => panic!("expected ready-to-hash"),
    }
}

#[test]
fn hash_judgement_and_daemon_results() {
    let v = SubmissionValidator::new();
    // Difficulty-1 target accepts any hash.
    let target_hex = hex_encode(&[0xffu8; 32]);
    assert!(judge_hash(&v, &[0xabu8; 32], &target_hex));
    // A tiny target rejects a large hash but admits the zero hash.
    let mut small = [0u8; 32];
    small[0] = 1;
    let small_hex = hex_encode(&small);
    assert!(!judge_hash(&v, &[0xabu8; 32], &small_hex));
    assert!(judge_hash(&v, &[0u8; 32], &small_hex));

    let accepted = submit_result_of_daemon("s1".to_string(), &Ok("OK".to_string()));
    match accepted {
        ServerMessage::SubmitResult { id, payload, .. } => {
            assert_eq!(id, "s1");
            assert_eq!(payload.status, SubmitStatus::Accepted);
            assert_eq!(payload.message, Some("Block submitted: OK".to_string()));
        }
        _ => panic!("expected a submit result"),
    }
    let rejected = submit_result_of_daemon("s2".to_string(), &Err("daemon busy".to_string()));
    match rejected {
        ServerMessage::SubmitResult { id, payload, .. } => {
            assert_eq!(id, "s2");
            assert_eq!(payload.status, SubmitStatus::Rejected);
            assert_eq!(payload.message, Some("Submission failed: daemon busy".to_string()));
        }
        _ => panic!("expected a submit result"),
    }
}

#[test]
fn metrics_count_and_format() {
    let mut m = Metrics::new();
    m.inc_connections();
    m.inc_connections();
    m.dec_connections();
    m.inc_messages();
    m.inc_submissions();
    m.inc_rejected();
    m.inc_rate_limits();
    assert_eq!(m.connections_total, 2);
    assert_eq!(m.connections_active, 1);
    assert_eq!(m.rate_limits_hit, 1);
    let text = m.format_prometheus();
    assert!(text.contains("coordinator_connections_total 2\n"));
    assert!(text.contains("coordinator_connections_active 1\n"));
    assert!(text.contains("coordinator_rate_limits_hit 1\n"));
    assert!(text.contains("# TYPE coordinator_submissions_total counter"));
}

#[test]
fn error_messages_carry_their_category() {
    let e = CoordinatorError::Validation("Reserved value mismatch".to_string());
    assert_eq!(e.message(), "Validation error: Reserved value mismatch");
    let r = CoordinatorError::Rpc("connect refused".to_string());
    assert_eq!(r.message(), "RPC error: connect refused");
    let s = CoordinatorError::Session("limit".to_string());
    assert_eq!(s.message(), "Session error: limit");
}

#[test]
fn job_frames_expire_a_ttl_after_creation() {
    let mut sm = SessionManager::new(5, 5, 20, 120);
    let mut jm = JobManager::new(5000);
    let t = test_template();
    let s = sm.create_session(1, 0).unwrap();
    let r = handle_template_change(&mut sm, &mut jm, &t, &s.id, 300_000, 1_000);
    match r {
        ServerMessage::Job { payload, .. } => {
            assert_eq!(payload.expires_at_ms, 301_000);
        }
        _ => panic!("expected a job frame"),
    }
    // Near the clock's end the expiry stops at the maximum instead of
    // wrapping.
    let r2 = handle_template_change(&mut sm, &mut jm, &t, &s.id, 300_000, u64::MAX - 10);
    match r2 {
        ServerMessage::Job { payload, .. } => {
            assert_eq!(payload.expires_at_ms, u64::MAX);
        }
        _ => panic!("expected a job frame"),
    }
}
