//! The per-session message handling decisions: Hello and Ping dispatch, and
//! the submission pipeline up to and after the proof-of-work hash.  The
//! surrounding task performs the I/O, the RandomX hash and the daemon call;
//! every decision about what those results mean is made here.
use crate::config::{JobsConfig, LimitsConfig};
use crate::hexfmt::{bytes_of_hex, hex16, hex_encode, hex_of_bytes, is_hex_seq};
use crate::jobs::{
    age_of, has_job, job_with_id, lemma_job_with_id, reserved_value_of, splice_bytes, Job,
    JobManager, NONCE_OFFSET,
};
use crate::protocol::{
    JobPayload, PolicyPayload, PongPayload, ServerMessage, StatsPayload, SubmitResultPayload,
    SubmitStatus,
};
use crate::session::{find_session, lemma_find_session_stable, SessionManager, SessionState, SessionView};
use crate::strutil::clone_bytes;
use crate::target::le_bytes_nat;
use crate::template::TemplateState;
use crate::validator::SubmissionValidator;
use vstd::prelude::*;
use vstd::string::StrSliceExecFns;
use vstd::string::StringExecFns;
use vstd::string::StringSliceAdditionalSpecFns;

verus! {

/// When a job created at `created_at` expires, given the configured
/// time-to-live: the sum, stopping at the clock's maximum.
pub open spec fn expires_of(created_at: u64, job_ttl_ms: u64) -> u64 {
    if created_at + job_ttl_ms <= u64::MAX {
        (created_at + job_ttl_ms) as u64
    } else {
        u64::MAX
    }
}

/// Builds the Job frame for a freshly minted job.
fn job_message(job: &Job, expires_at_ms: u64) -> (r: ServerMessage)
    ensures
        (r matches ServerMessage::Job { v, id, payload } && v == 1 && id is None
            && payload.job_id@ == job@.job_id && payload.blob_hex@ == job@.blob_hex
            && payload.reserved_offset == job@.reserved_offset && payload.reserved_value_hex@
            == hex_of_bytes(job@.reserved_value) && payload.target_hex@ == job@.target_hex
            && payload.height == job@.height && payload.seed_hash@ == job@.seed_hash
            && payload.expires_at_ms == expires_at_ms && payload.share_target_hex is None
            && payload.algo@ == "rx/0"@),
{
    ServerMessage::Job {
        v: 1,
        id: None,
        payload: JobPayload {
            job_id: job.job_id.clone(),
            blob_hex: job.blob_hex.clone(),
            reserved_offset: job.reserved_offset,
            reserved_value_hex: hex_encode(job.reserved_value.as_slice()),
            target_hex: job.target_hex.clone(),
            height: job.height,
            seed_hash: job.seed_hash.clone(),
            expires_at_ms,
            share_target_hex: None,
            algo: String::from_str("rx/0"),
        },
    }
}

/// `created_at + job_ttl_ms`, stopping at the clock's maximum.
fn expiry_time(created_at: u64, job_ttl_ms: u64) -> (r: u64)
    ensures
        r == expires_of(created_at, job_ttl_ms),
{
    if created_at <= u64::MAX - job_ttl_ms {
        created_at + job_ttl_ms
    } else {
        u64::MAX
    }
}

/// A Hello arrived: mark the session ready and hand it work.
///
/// The session under `session_id` becomes `Ready` with the client's version
/// and thread count recorded.  With a template published, a job is minted
/// for the session, recorded on it, and returned as a Job frame; without
/// one, a Stats frame with the configured limits is returned.
#[verifier::rlimit(30)]
pub fn handle_hello(
    sm: &mut SessionManager,
    jm: &mut JobManager,
    template: Option<&TemplateState>,
    session_id: &str,
    client_version: String,
    threads: u8,
    limits: &LimitsConfig,
    jobs_cfg: &JobsConfig,
    now_ms: u64,
) -> (r: ServerMessage)
    requires
        old(sm).wf(),
        old(jm).wf(),
        template matches Some(t) ==> t.wf() && old(jm).counter < u64::MAX,
    ensures
        final (sm).wf(),
        final (jm).wf(),
        final (sm).same_config(*old(sm)),
        final (sm).sessions@.len() == old(sm).sessions@.len(),
        final (jm).stale_grace_ms == old(jm).stale_grace_ms,
        ({
            let fi = find_session(old(sm).sessions@, session_id@);
            &&& (fi == -1 ==> final (sm).sessions@ == old(sm).sessions@)
            &&& (fi >= 0 ==> (forall|k: int|
                0 <= k < old(sm).sessions@.len() && k != fi ==> final (sm).sessions@[k] == old(
                    sm,
                ).sessions@[k]))
            &&& (fi >= 0 ==> final (sm).sessions@[fi]@ == (match template {
                Some(t) => (SessionView {
                    state: SessionState::Ready,
                    client_version: Some(client_version@),
                    threads,
                    current_job_id: Some(hex16(old(jm).counter)),
                    current_reserved_value: Some(
                        reserved_value_of(
                            session_id.spec_bytes(),
                            old(jm).counter,
                            t.reserve_size as nat,
                        ),
                    ),
                    last_activity: now_ms,
                    ..old(sm).sessions@[fi]@
                }),
                None => (SessionView {
                    state: SessionState::Ready,
                    client_version: Some(client_version@),
                    threads,
                    ..old(sm).sessions@[fi]@
                }),
            }))
        }),
        ({
            match template {
                Some(t) => {
                    &&& final (jm).counter == old(jm).counter + 1
                    &&& final (jm).jobs@.len() == old(jm).jobs@.len() + 1
                    &&& final (jm).jobs@.last()@.job_id == hex16(old(jm).counter)
                    &&& final (jm).jobs@.last()@.template_id == t.template_id
                    &&& (r matches ServerMessage::Job { v, id, payload } && v == 1
                        && payload.job_id@ == hex16(old(jm).counter) && payload.blob_hex@ == final (
                    jm).jobs@.last()@.blob_hex && payload.target_hex@ == final (
                    jm).jobs@.last()@.target_hex && payload.height == t.height
                        && payload.seed_hash@ == t.seed_hash@ && payload.expires_at_ms
                        == expires_of(now_ms, jobs_cfg.job_ttl_ms))
                },
                None => {
                    &&& final (jm).counter == old(jm).counter
                    &&& final (jm).jobs@ == old(jm).jobs@
                    &&& (r matches ServerMessage::Stats { v, id, payload } && v == 1
                        && payload.session_id@ == session_id@ && payload.submits_per_minute
                        == limits.submits_per_minute && payload.messages_per_second
                        == limits.messages_per_second && payload.policy.job_ttl_ms
                        == jobs_cfg.job_ttl_ms && payload.policy.max_submits_per_min
                        == limits.submits_per_minute && payload.policy.max_shares_per_min
                        == limits.shares_per_minute && payload.server_time_ms == now_ms
                        && payload.tip_height == 0)
                },
            }
        }),
{
    let ghost orig_sessions = sm.sessions@;
    sm.set_ready(session_id, client_version, threads);
    let ghost mid_sessions = sm.sessions@;
    proof {
        assert(forall|m: int|
            0 <= m < orig_sessions.len() ==> (#[trigger] mid_sessions[m])@.id
                == orig_sessions[m]@.id);
        lemma_find_session_stable(orig_sessions, mid_sessions, session_id@);
    }
    match template {
        Some(t) => {
            let job = jm.create_job(t, session_id, now_ms);
            sm.update_job_for(
                session_id,
                job.job_id.clone(),
                clone_bytes(&job.reserved_value),
                now_ms,
            );
            let expires = expiry_time(job.created_at, jobs_cfg.job_ttl_ms);
            job_message(&job, expires)
        },
        None => {
            ServerMessage::Stats {
                v: 1,
                id: None,
                payload: StatsPayload {
                    session_id: session_id.to_owned(),
                    submits_per_minute: limits.submits_per_minute,
                    messages_per_second: limits.messages_per_second,
                    policy: PolicyPayload {
                        job_ttl_ms: jobs_cfg.job_ttl_ms,
                        max_submits_per_min: limits.submits_per_minute,
                        max_shares_per_min: limits.shares_per_minute,
                    },
                    server_time_ms: now_ms,
                    tip_height: 0,
                },
            }
        },
    }
}

/// A template change arrived on a ready session: mint it a fresh job, record
/// it on the session, and build the Job frame.
#[verifier::rlimit(30)]
pub fn handle_template_change(
    sm: &mut SessionManager,
    jm: &mut JobManager,
    template: &TemplateState,
    session_id: &str,
    job_ttl_ms: u64,
    now_ms: u64,
) -> (r: ServerMessage)
    requires
        old(sm).wf(),
        old(jm).wf(),
        old(jm).counter < u64::MAX,
        template.wf(),
    ensures
        final (sm).wf(),
        final (jm).wf(),
        final (sm).same_config(*old(sm)),
        final (sm).sessions@.len() == old(sm).sessions@.len(),
        final (jm).stale_grace_ms == old(jm).stale_grace_ms,
        final (jm).counter == old(jm).counter + 1,
        final (jm).jobs@.len() == old(jm).jobs@.len() + 1,
        final (jm).jobs@.last()@.job_id == hex16(old(jm).counter),
        final (jm).jobs@.last()@.template_id == template.template_id,
        ({
            let fi = find_session(old(sm).sessions@, session_id@);
            &&& (fi == -1 ==> final (sm).sessions@ == old(sm).sessions@)
            &&& (fi >= 0 ==> (forall|k: int|
                0 <= k < old(sm).sessions@.len() && k != fi ==> final (sm).sessions@[k] == old(
                    sm,
                ).sessions@[k]))
            &&& (fi >= 0 ==> final (sm).sessions@[fi]@ == (SessionView {
                current_job_id: Some(hex16(old(jm).counter)),
                current_reserved_value: Some(
                    reserved_value_of(
                        session_id.spec_bytes(),
                        old(jm).counter,
                        template.reserve_size as nat,
                    ),
                ),
                last_activity: now_ms,
                ..old(sm).sessions@[fi]@
            }))
        }),
        (r matches ServerMessage::Job { v, id, payload } && v == 1 && payload.job_id@ == hex16(
            old(jm).counter,
        ) && payload.blob_hex@ == final (jm).jobs@.last()@.blob_hex && payload.height
            == template.height && payload.expires_at_ms == expires_of(now_ms, job_ttl_ms)),
{
    let job = jm.create_job(template, session_id, now_ms);
    sm.update_job_for(session_id, job.job_id.clone(), clone_bytes(&job.reserved_value), now_ms);
    let expires = expiry_time(job.created_at, job_ttl_ms);
    job_message(&job, expires)
}

/// A Ping arrived: record the activity on the session and answer Pong under
/// the same id.
pub fn handle_ping(sm: &mut SessionManager, session_id: &str, id: String, now_ms: u64) -> (r:
    ServerMessage)
    requires
        old(sm).wf(),
    ensures
        final (sm).wf(),
        final (sm).same_config(*old(sm)),
        final (sm).sessions@.len() == old(sm).sessions@.len(),
        ({
            let fi = find_session(old(sm).sessions@, session_id@);
            &&& (fi == -1 ==> final (sm).sessions@ == old(sm).sessions@)
            &&& (fi >= 0 ==> (forall|k: int|
                0 <= k < old(sm).sessions@.len() && k != fi ==> final (sm).sessions@[k] == old(
                    sm,
                ).sessions@[k]))
            &&& (fi >= 0 ==> final (sm).sessions@[fi]@ == (SessionView {
                last_activity: now_ms,
                ..old(sm).sessions@[fi]@
            }))
        }),
        (r matches ServerMessage::Pong { v, id: rid, payload } && v == 1 && rid@ == id@),
{
    sm.touch(session_id, now_ms);
    ServerMessage::Pong { v: 1, id, payload: PongPayload {  } }
}

/// What the pipeline decided before any hash was computed.
pub enum SubmitPrep {
    /// No job under that identifier: reject as unknown.
    UnknownJob,
    /// The job's template is gone and the grace window has passed.
    Stale,
    /// The nonce or the job blob cannot be decoded.
    BadNonce { message: String },
    /// The reconstructed blob fails structural validation.
    Invalid { message: String },
    /// Structurally valid: hash these bytes, rebuilding the proof-of-work
    /// verifier first when `rebuild_vm` says so.
    ReadyToHash { job: Job, blob: Vec<u8>, rebuild_vm: bool },
}

/// The submission pipeline up to the hash, decided if and only if: look the
/// job up; check staleness before structure; reconstruct the blob with the
/// nonce; validate it; and say whether the verifier needs a rebuild for the
/// job's seed.  The validator is only read; the caller records a successful
/// rebuild through it afterwards.
#[verifier::rlimit(30)]
pub fn prepare_submission(
    jm: &JobManager,
    validator: &SubmissionValidator,
    job_id: &str,
    nonce_hex: &str,
    current_template_id: u64,
    now_ms: u64,
) -> (r: SubmitPrep)
    requires
        jm.wf(),
    ensures
        ({
            if !has_job(*jm, job_id@) {
                r is UnknownJob
            } else {
                let j = job_with_id(*jm, job_id@);
                let blob = bytes_of_hex(j.blob_hex);
                let nonce = bytes_of_hex(nonce_hex@);
                if j.template_id != current_template_id && age_of(now_ms, j.created_at)
                    > jm.stale_grace_ms {
                    r is Stale
                } else if !is_hex_seq(j.blob_hex) {
                    r matches SubmitPrep::BadNonce { message } && message@ == "Invalid job blob"@
                } else if !(is_hex_seq(nonce_hex@) && nonce_hex@.len() == 8) {
                    r matches SubmitPrep::BadNonce { message } && message@ == "Invalid nonce"@
                } else if blob.len() < NONCE_OFFSET + 4 {
                    r matches SubmitPrep::BadNonce { message } && message@
                        == "Blob too short for nonce"@
                } else {
                    let spliced = splice_bytes(blob, NONCE_OFFSET as int, nonce);
                    if spliced.len() < validator.min_blob_len {
                        r matches SubmitPrep::Invalid { message } && message@
                            == "Validation error: "@ + "Blob too short"@
                    } else if j.reserved_offset + j.reserved_value.len() > spliced.len() {
                        r matches SubmitPrep::Invalid { message } && message@
                            == "Validation error: "@ + "Invalid blob structure"@
                    } else if spliced.subrange(
                        j.reserved_offset as int,
                        j.reserved_offset + j.reserved_value.len(),
                    ) != j.reserved_value {
                        r matches SubmitPrep::Invalid { message } && message@
                            == "Validation error: "@ + "Reserved value mismatch"@
                    } else {
                        r matches SubmitPrep::ReadyToHash { job, blob: b, rebuild_vm } && job@ == j
                            && b@ == spliced && rebuild_vm == (validator.current_seed_hash@
                            != j.seed_hash)
                    }
                }
            }
        }),
{
    let job = match jm.get_job(job_id) {
        Some(j) => j,
        None => {
            proof {
                assert(!has_job(*jm, job_id@)) by {
                    if has_job(*jm, job_id@) {
                        let i = choose|i: int|
                            0 <= i < jm.jobs@.len() && (#[trigger] jm.jobs@[i])@.job_id == job_id@;
                        assert(jm.jobs@[i]@.job_id != job_id@);
                    }
                }
            }
            return SubmitPrep::UnknownJob;
        },
    };
    proof {
        let i = choose|i: int|
            0 <= i < jm.jobs@.len() && job@ == (#[trigger] jm.jobs@[i])@ && job@.job_id == job_id@;
        lemma_job_with_id(*jm, i);
        assert(has_job(*jm, job_id@));
        assert(job_with_id(*jm, job_id@) == job@);
    }
    if job.template_id != current_template_id {
        if now_ms > job.created_at && now_ms - job.created_at > jm.stale_grace_ms {
            return SubmitPrep::Stale;
        }
    }
    let blob = match job.apply_nonce(nonce_hex) {
        Ok(b) => b,
        Err(m) => {
            return SubmitPrep::BadNonce { message: m };
        },
    };
    let blob_hex = hex_encode(blob.as_slice());
    proof {
        crate::hexfmt::lemma_hex_round_trip(blob@);
    }
    let checked = match validator.validate_blob(blob_hex.as_str(), &job) {
        Ok(b) => b,
        Err(e) => {
            return SubmitPrep::Invalid { message: e.message() };
        },
    };
    let rebuild_vm = validator.needs_rebuild(job.seed_hash.as_str());
    SubmitPrep::ReadyToHash { job, blob: checked, rebuild_vm }
}

/// The target check after the hash: decode the job's target and compare
/// numerically.  A target that does not decode to 32 bytes admits only the
/// all-zero hash, as comparing against a zero target does.
pub fn judge_hash(validator: &SubmissionValidator, hash: &[u8; 32], target_hex: &str) -> (r: bool)
    ensures
        r == (le_bytes_nat(hash@) <= ({
            if is_hex_seq(target_hex@) && bytes_of_hex(target_hex@).len() == 32 {
                le_bytes_nat(bytes_of_hex(target_hex@))
            } else {
                0
            }
        })),
{
    let mut target_arr = [0u8; 32];
    let decoded = crate::hexfmt::hex_decode(target_hex);
    match decoded {
        Some(bytes) => {
            if bytes.len() == 32 {
                let mut i: usize = 0;
                while i < 32
                    invariant
                        i <= 32,
                        bytes@.len() == 32,
                        target_arr@.len() == 32,
                        forall|m: int| 0 <= m < i ==> target_arr@[m] == bytes@[m],
                    decreases 32 - i,
                {
                    target_arr[i] = bytes[i];
                    i = i + 1;
                }
                proof {
                    assert(target_arr@ =~= bytes@);
                }
            } else {
                proof {
                    lemma_le_val_zero(target_arr@, 0);
                }
            }
        },
        None => {
            proof {
                lemma_le_val_zero(target_arr@, 0);
            }
        },
    }
    validator.check_meets_target(hash, &target_arr)
}

proof fn lemma_le_val_zero(s: Seq<u8>, i: int)
    requires
        0 <= i <= s.len(),
        forall|j: int| 0 <= j < s.len() ==> s[j] == 0u8,
    ensures
        crate::target::le_val(s, i) == 0,
    decreases s.len() - i,
{
    if i < s.len() {
        lemma_le_val_zero(s, i + 1);
    }
}

/// The SubmitResult frame for a daemon reply: accepted with the daemon's
/// status on success, rejected with the failure's text otherwise.
pub fn submit_result_of_daemon(id: String, outcome: &Result<String, String>) -> (r: ServerMessage)
    ensures
        (r matches ServerMessage::SubmitResult { v, id: rid, payload } && v == 1 && rid@ == id@
            && ({
            match outcome {
                Ok(status) => payload.status == SubmitStatus::Accepted && (
                payload.message matches Some(m) && m@ == "Block submitted: "@ + status@),
                Err(e) => payload.status == SubmitStatus::Rejected && (
                payload.message matches Some(m) && m@ == "Submission failed: "@ + e@),
            }
        })),
{
    match outcome {
        Ok(status) => {
            let mut m = String::from_str("Block submitted: ");
            m.append(status.as_str());
            ServerMessage::SubmitResult {
                v: 1,
                id,
                payload: SubmitResultPayload { status: SubmitStatus::Accepted, message: Some(m) },
            }
        },
        Err(e) => {
            let mut m = String::from_str("Submission failed: ");
            m.append(e.as_str());
            ServerMessage::SubmitResult {
                v: 1,
                id,
                payload: SubmitResultPayload { status: SubmitStatus::Rejected, message: Some(m) },
            }
        },
    }
}

} // verus!
