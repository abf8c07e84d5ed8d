use monero_web_coordinator::hexfmt::{format_hex16, hex_decode, hex_encode, u64_le_bytes};
use monero_web_coordinator::jobs::JobManager;
use monero_web_coordinator::rpc::BlockTemplate;
use monero_web_coordinator::target::{check_meets_target, difficulty_to_target};
use monero_web_coordinator::template::{TemplateState, TemplateTracker};

#[test]
fn test_difficulty_to_target_low() {
    // For difficulty 1, should return max target
    let target = difficulty_to_target(1);
    assert_eq!(target, [0xff; 32]);
}

#[test]
fn test_difficulty_to_target_basic() {
    // For difficulty 2, target should be 2^255 (half of max)
    let target = difficulty_to_target(2);

    // Verify it's a valid 32-byte array with non-zero values
    assert_ne!(target, [0u8; 32]);

    // For difficulty 2, result is 2^255
    // In little-endian: bytes[0..30] = 0x00, byte[31] = 0x80
    assert_eq!(target[31], 0x80); // MSB should be 0x80 for 2^255
    assert_eq!(target[30], 0x00);
}

#[test]
fn test_difficulty_to_target_high() {
    // For high difficulty, target should be small
    let target = difficulty_to_target(1_000_000);

    // Should have non-zero bytes in lower positions
    let has_nonzero = target.iter().any(|&b| b != 0);
    assert!(has_nonzero, "Target should have at least some non-zero bytes");

    // High bytes should be zero for high difficulty
    assert_eq!(target[31], 0);
    assert_eq!(target[30], 0);
}

#[test]
fn test_difficulty_to_target_produces_32_bytes() {
    // Verify all difficulties produce 32-byte targets
    for difficulty in [1, 2, 10, 100, 1000, 10000, 100000, 1_000_000].iter() {
        let target = difficulty_to_target(*difficulty);
        assert_eq!(target.len(), 32);
    }
}

#[test]
fn target_monotonic_on_samples() {
    // Lower difficulty means a numerically higher target.
    let pairs = [(2u64, 3u64), (3, 10), (10, 1000), (1000, u64::MAX)];
    for (d1, d2) in pairs.iter() {
        let t1 = difficulty_to_target(*d1);
        let t2 = difficulty_to_target(*d2);
        // t2 <= t1 and not t1 <= t2, i.e. t2 < t1.
        assert!(check_meets_target(&t2, &t1));
        assert!(!check_meets_target(&t1, &t2));
    }
}

#[test]
fn target_exact_values() {
    // 2^256 / 4 = 2^254: byte 31 is 0x40.
    let t4 = difficulty_to_target(4);
    assert_eq!(t4[31], 0x40);
    for b in t4.iter().take(31) {
        assert_eq!(*b, 0);
    }
    // 2^256 / 3 = 0x5555...55 over all 32 bytes.
    let t3 = difficulty_to_target(3);
    assert_eq!(t3, [0x55u8; 32]);
}

#[test]
fn check_meets_target_boundaries() {
    let zero = [0x00u8; 32];
    let mut one_low = [0u8; 32];
    one_low[0] = 0x01;
    let ff = [0xffu8; 32];
    assert!(check_meets_target(&zero, &one_low));
    assert!(!check_meets_target(&ff, &one_low));
    assert!(check_meets_target(&one_low, &one_low));
}

fn test_template() -> TemplateState {
    // 100 zero bytes, reserved region of 8 bytes at offset 55.
    let blob = "00".repeat(100);
    let bt = BlockTemplate {
        blockhashing_blob: String::new(),
        blocktemplate_blob: blob,
        difficulty: 1000,
        expected_reward: 0,
        height: 2500000,
        prev_hash: "aa".repeat(32),
        reserved_offset: 55,
        seed_hash: "bb".repeat(32),
        status: "OK".to_string(),
    };
    TemplateState::from_rpc(bt, 7, 8, 1000)
}

#[test]
fn job_blob_carries_reserved_value() {
    let mut jm = JobManager::new(5000);
    let job = jm.create_job(&test_template(), "session-aaaa", 2000);
    let blob = hex_decode(&job.blob_hex).unwrap();
    assert_eq!(
        &blob[job.reserved_offset..job.reserved_offset + job.reserved_value.len()],
        &job.reserved_value[..]
    );
    assert_eq!(job.reserved_value.len(), 8);
    // The reserved value starts with the session identifier's bytes.
    assert_eq!(&job.reserved_value[..], &b"session-"[..]);
}

#[test]
fn job_ids_are_unique_and_sequential() {
    let mut jm = JobManager::new(5000);
    let t = test_template();
    let j0 = jm.create_job(&t, "s1", 0);
    let j1 = jm.create_job(&t, "s1", 0);
    let j2 = jm.create_job(&t, "s2", 0);
    assert_eq!(j0.job_id, "0000000000000000");
    assert_eq!(j1.job_id, "0000000000000001");
    assert_eq!(j2.job_id, "0000000000000002");
    assert_ne!(j0.job_id, j1.job_id);
    assert_ne!(j1.job_id, j2.job_id);
}

#[test]
fn get_job_finds_stored_jobs() {
    let mut jm = JobManager::new(5000);
    let t = test_template();
    let j0 = jm.create_job(&t, "s1", 0);
    let found = jm.get_job(&j0.job_id).unwrap();
    assert_eq!(found.job_id, j0.job_id);
    assert_eq!(found.height, 2500000);
    assert!(jm.get_job("0000000000000f00").is_none());
}

#[test]
fn staleness_follows_template_and_grace() {
    let jm = JobManager::new(1000);
    let mut jm2 = JobManager::new(1000);
    let t = test_template();
    let job = jm2.create_job(&t, "s1", 10_000);
    // Same template: never stale.
    assert!(!jm.is_stale(&job, t.template_id, 10_000));
    assert!(!jm.is_stale(&job, t.template_id, 1_000_000));
    // New template, within grace: not stale.
    assert!(!jm.is_stale(&job, t.template_id + 1, 10_500));
    assert!(!jm.is_stale(&job, t.template_id + 1, 11_000));
    // New template, past grace: stale.
    assert!(jm.is_stale(&job, t.template_id + 1, 11_001));
}

#[test]
fn cleanup_drops_only_old_jobs() {
    let mut jm = JobManager::new(1000);
    let t = test_template();
    let j0 = jm.create_job(&t, "s1", 1_000);
    let j1 = jm.create_job(&t, "s1", 50_000);
    jm.cleanup_old_jobs(10_000, 55_000);
    assert!(jm.get_job(&j0.job_id).is_none());
    assert!(jm.get_job(&j1.job_id).is_some());
}

#[test]
fn apply_nonce_writes_at_nonce_offset() {
    let mut jm = JobManager::new(5000);
    let job = jm.create_job(&test_template(), "s1", 0);
    let blob = job.apply_nonce("01020304").unwrap();
    assert_eq!(&blob[39..43], &[0x01, 0x02, 0x03, 0x04]);
    assert!(job.apply_nonce("0102").is_err());
    assert!(job.apply_nonce("zzzzzzzz").is_err());
}

#[test]
fn hex_round_trip_and_rejection() {
    let bytes = vec![0x00u8, 0x0f, 0xa5, 0xff];
    let s = hex_encode(&bytes);
    assert_eq!(s, "000fa5ff");
    assert_eq!(hex_decode(&s).unwrap(), bytes);
    assert!(hex_decode("abc").is_none()); // odd length
    assert!(hex_decode("zz").is_none()); // not hex
    assert_eq!(hex_decode("ABCD").unwrap(), vec![0xab, 0xcd]); // upper case accepted
}

#[test]
fn fixed_width_formats() {
    assert_eq!(format_hex16(0), "0000000000000000");
    assert_eq!(format_hex16(0xdeadbeef), "00000000deadbeef");
    assert_eq!(format_hex16(u64::MAX), "ffffffffffffffff");
    assert_eq!(u64_le_bytes(0x0102030405060708), vec![8, 7, 6, 5, 4, 3, 2, 1]);
}

#[test]
fn template_tracker_assigns_increasing_ids() {
    let mut tracker = TemplateTracker::new(8);
    assert!(tracker.observe_height(100));
    assert!(!tracker.observe_height(100));
    assert!(tracker.observe_height(101));
    let bt1 = BlockTemplate {
        blockhashing_blob: String::new(),
        blocktemplate_blob: "00".repeat(80),
        difficulty: 5,
        expected_reward: 0,
        height: 101,
        prev_hash: String::new(),
        reserved_offset: 40,
        seed_hash: String::new(),
        status: "OK".to_string(),
    };
    let s1 = tracker.publish(bt1, 10);
    let bt2 = BlockTemplate {
        blockhashing_blob: String::new(),
        blocktemplate_blob: "00".repeat(80),
        difficulty: 5,
        expected_reward: 0,
        height: 102,
        prev_hash: String::new(),
        reserved_offset: 40,
        seed_hash: String::new(),
        status: "OK".to_string(),
    };
    let s2 = tracker.publish(bt2, 20);
    assert_eq!(s1.template_id, 1);
    assert_eq!(s2.template_id, 2);
    assert!(s2.template_id > s1.template_id);
}
