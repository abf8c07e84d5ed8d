//! The job registry: per-session work units carved from the current template
//! by writing a session-unique value into the template's reserved region.
use crate::hexfmt::{
    bytes_of_hex, format_hex16, hex16, hex_decode, hex_encode, hex_of_bytes, is_hex_seq, le64,
    lemma_hex16_injective, lemma_hex_round_trip, lemma_le64_injective, lemma_le64_len,
    u64_le_bytes,
};
use crate::target::{difficulty_to_target, le_bytes_nat, spec_target};
use crate::template::TemplateState;
use vstd::prelude::*;
use vstd::string::StrSliceExecFns;
use vstd::string::StringSliceAdditionalSpecFns;

verus! {

/// The age of a record created at `created_at`, seen at `now_ms`.
pub open spec fn age_of(now_ms: u64, created_at: u64) -> int {
    if now_ms <= created_at {
        0
    } else {
        now_ms - created_at
    }
}

/// The reserved-region value for a session and sequence number: the session
/// identifier's bytes, then the little-endian counter bytes, zero-padded,
/// truncated to the region's size.
pub open spec fn reserved_value_of(session_bytes: Seq<u8>, seq: u64, reserve_size: nat) -> Seq<
    u8,
> {
    Seq::new(
        reserve_size as nat,
        |i: int|
            if i < session_bytes.len() {
                session_bytes[i]
            } else if i < session_bytes.len() + 8 {
                le64(seq)[i - session_bytes.len()]
            } else {
                0u8
            },
    )
}

/// `base` with `vals` written at offset `off`.
pub open spec fn splice_bytes(base: Seq<u8>, off: int, vals: Seq<u8>) -> Seq<u8> {
    Seq::new(
        base.len(),
        |i: int|
            if off <= i < off + vals.len() {
                vals[i - off]
            } else {
                base[i]
            },
    )
}

/// One work unit handed to one session.  Times are milliseconds.
pub struct Job {
    pub job_id: String,
    pub template_id: u64,
    pub blob_hex: String,
    pub reserved_offset: usize,
    pub reserved_value: Vec<u8>,
    pub target_hex: String,
    pub height: u64,
    pub seed_hash: String,
    pub created_at: u64,
}

/// The mathematical content of a job.
pub ghost struct JobView {
    pub job_id: Seq<char>,
    pub template_id: u64,
    pub blob_hex: Seq<char>,
    pub reserved_offset: usize,
    pub reserved_value: Seq<u8>,
    pub target_hex: Seq<char>,
    pub height: u64,
    pub seed_hash: Seq<char>,
    pub created_at: u64,
}

impl View for Job {
    type V = JobView;

    open spec fn view(&self) -> JobView {
        JobView {
            job_id: self.job_id@,
            template_id: self.template_id,
            blob_hex: self.blob_hex@,
            reserved_offset: self.reserved_offset,
            reserved_value: self.reserved_value@,
            target_hex: self.target_hex@,
            height: self.height,
            seed_hash: self.seed_hash@,
            created_at: self.created_at,
        }
    }
}

use crate::strutil::clone_bytes;

impl Clone for Job {
    fn clone(&self) -> (r: Job)
        ensures
            r@ == self@,
    {
        Job {
            job_id: self.job_id.clone(),
            template_id: self.template_id,
            blob_hex: self.blob_hex.clone(),
            reserved_offset: self.reserved_offset,
            reserved_value: clone_bytes(&self.reserved_value),
            target_hex: self.target_hex.clone(),
            height: self.height,
            seed_hash: self.seed_hash.clone(),
            created_at: self.created_at,
        }
    }
}

/// The job's identifier prints a sequence number below `counter`.
pub open spec fn id_issued(v: JobView, counter: u64) -> bool {
    exists|s: u64| s < counter && v.job_id == #[trigger] hex16(s)
}

proof fn lemma_id_issued_mono(v: JobView, c1: u64, c2: u64)
    requires
        id_issued(v, c1),
        c1 <= c2,
    ensures
        id_issued(v, c2),
{
    let s = choose|s: u64| s < c1 && v.job_id == #[trigger] hex16(s);
    assert(s < c2 && v.job_id == hex16(s));
}

proof fn lemma_issued_id_fresh(v: JobView, c: u64)
    requires
        id_issued(v, c),
    ensures
        v.job_id != hex16(c),
{
    let s = choose|s: u64| s < c && v.job_id == #[trigger] hex16(s);
    lemma_hex16_injective(s, c);
}

/// Some index of `s` (below `bound`) holds a job whose content is `v`.
pub open spec fn present_upto(s: Seq<Job>, bound: int, v: JobView) -> bool {
    exists|m: int| 0 <= m < bound && m < s.len() && (#[trigger] s[m])@ == v
}

/// Some index of `s` holds a job whose content is `v`.
pub open spec fn present(s: Seq<Job>, v: JobView) -> bool {
    present_upto(s, s.len() as int, v)
}

proof fn lemma_present_upto_mono(s: Seq<Job>, b1: int, b2: int, v: JobView)
    requires
        present_upto(s, b1, v),
        b1 <= b2,
    ensures
        present_upto(s, b2, v),
{
    let m = choose|m: int| 0 <= m < b1 && m < s.len() && (#[trigger] s[m])@ == v;
    assert(0 <= m < b2 && m < s.len() && s[m]@ == v);
}

proof fn lemma_present_push(s: Seq<Job>, x: Job, v: JobView)
    requires
        present(s, v),
    ensures
        present(s.push(x), v),
{
    let m = choose|m: int| 0 <= m < s.len() && (#[trigger] s[m])@ == v;
    assert(s.push(x)[m]@ == v);
}

/// Byte offset of the 4-byte nonce inside a block blob.
pub const NONCE_OFFSET: usize = 39;

impl Job {
    /// Reconstructs the full block blob with the client's 4-byte nonce
    /// written at the nonce offset.  Fails on a malformed job blob, on a
    /// nonce that is not 8 hex characters, and on a blob too short to hold
    /// the nonce.
    pub fn apply_nonce(&self, nonce_hex: &str) -> (r: Result<Vec<u8>, String>)
        ensures
            ({
                let blob = bytes_of_hex(self.blob_hex@);
                let nonce = bytes_of_hex(nonce_hex@);
                if !is_hex_seq(self.blob_hex@) {
                    r matches Err(m) && m@ == "Invalid job blob"@
                } else if !(is_hex_seq(nonce_hex@) && nonce_hex@.len() == 8) {
                    r matches Err(m) && m@ == "Invalid nonce"@
                } else if blob.len() < NONCE_OFFSET + 4 {
                    r matches Err(m) && m@ == "Blob too short for nonce"@
                } else {
                    r matches Ok(b) && b@ == splice_bytes(blob, NONCE_OFFSET as int, nonce)
                }
            }),
    {
        let mut blob = match hex_decode(self.blob_hex.as_str()) {
            Some(b) => b,
            None => {
                return Err(String::from_str("Invalid job blob"));
            },
        };
        let nonce = match hex_decode(nonce_hex) {
            Some(v) => v,
            None => {
                return Err(String::from_str("Invalid nonce"));
            },
        };
        proof {
            lemma_bytes_of_hex_len(nonce_hex@);
            lemma_bytes_of_hex_len(self.blob_hex@);
        }
        if nonce.len() != 4 {
            return Err(String::from_str("Invalid nonce"));
        }
        if blob.len() < NONCE_OFFSET + 4 {
            return Err(String::from_str("Blob too short for nonce"));
        }
        let ghost base = bytes_of_hex(self.blob_hex@);
        let ghost spliced = splice_bytes(base, NONCE_OFFSET as int, nonce@);
        let blob_len = blob.len();
        let mut k: usize = 0;
        while k < 4
            invariant
                k <= 4,
                blob@.len() == blob_len,
                nonce@.len() == 4,
                blob_len == base.len(),
                NONCE_OFFSET + 4 <= blob_len,
                spliced == splice_bytes(base, NONCE_OFFSET as int, nonce@),
                forall|m: int|
                    0 <= m < blob@.len() ==> blob@[m] == if NONCE_OFFSET <= m < NONCE_OFFSET + k {
                        spliced[m]
                    } else {
                        base[m]
                    },
            decreases 4 - k,
        {
            let v = nonce[k];
            blob[NONCE_OFFSET + k] = v;
            k = k + 1;
        }
        proof {
            assert(blob@ =~= spliced);
        }
        Ok(blob)
    }
}

/// A hex string's byte string is half as long.
pub proof fn lemma_bytes_of_hex_len(s: Seq<char>)
    ensures
        2 * bytes_of_hex(s).len() <= s.len(),
        s.len() % 2 == 0 ==> 2 * bytes_of_hex(s).len() == s.len(),
    decreases s.len(),
{
    if s.len() >= 2 {
        lemma_bytes_of_hex_len(s.drop_last().drop_last());
    }
}

/// The job registry: outstanding jobs, the monotonic sequence counter, and
/// the staleness grace window.
pub struct JobManager {
    pub jobs: Vec<Job>,
    pub counter: u64,
    pub stale_grace_ms: u64,
}

impl JobManager {
    /// Every stored job carries the 16-hex-digit print of a sequence number
    /// already issued, and no two stored jobs share an identifier.
    pub open spec fn wf(self) -> bool {
        &&& forall|i: int|
            0 <= i < self.jobs@.len() ==> id_issued((#[trigger] self.jobs@[i])@, self.counter)
        &&& forall|i: int, j: int|
            0 <= i < j < self.jobs@.len() ==> self.jobs@[i]@.job_id != self.jobs@[j]@.job_id
    }

    pub fn new(stale_grace_ms: u64) -> (r: JobManager)
        ensures
            r.wf(),
            r.jobs@.len() == 0,
            r.counter == 0,
            r.stale_grace_ms == stale_grace_ms,
    {
        JobManager { jobs: Vec::new(), counter: 0, stale_grace_ms }
    }

    /// Mints the next job from `template` for `session_id`.
    ///
    /// The job takes the next sequence number as its 16-hex-digit identifier;
    /// its reserved value is derived from the session identifier and the
    /// sequence number; its blob is the template blob with the reserved
    /// region overwritten; its target is the template difficulty's target.
    /// Decoding the job's blob at the reserved offset gives back exactly the
    /// reserved value.
    #[verifier::rlimit(30)]
    pub fn create_job(&mut self, template: &TemplateState, session_id: &str, now_ms: u64) -> (job:
        Job)
        requires
            old(self).wf(),
            template.wf(),
            old(self).counter < u64::MAX,
        ensures
            final (self).wf(),
            final (self).counter == old(self).counter + 1,
            final (self).stale_grace_ms == old(self).stale_grace_ms,
            final (self).jobs@.len() == old(self).jobs@.len() + 1,
            forall|i: int|
                0 <= i < old(self).jobs@.len() ==> final (self).jobs@[i] == old(self).jobs@[i],
            final (self).jobs@.last()@ == job@,
            job@.job_id == hex16(old(self).counter),
            job@.template_id == template.template_id,
            job@.height == template.height,
            job@.seed_hash == template.seed_hash@,
            job@.created_at == now_ms,
            job@.reserved_offset == template.reserved_offset,
            job@.reserved_value == reserved_value_of(
                session_id.spec_bytes(),
                old(self).counter,
                template.reserve_size as nat,
            ),
            job@.blob_hex == hex_of_bytes(
                splice_bytes(
                    bytes_of_hex(template.blocktemplate_blob@),
                    template.reserved_offset as int,
                    job@.reserved_value,
                ),
            ),
            bytes_of_hex(job@.blob_hex).subrange(
                template.reserved_offset as int,
                template.reserved_offset + template.reserve_size,
            ) == job@.reserved_value,
            is_hex_seq(job@.target_hex),
            bytes_of_hex(job@.target_hex).len() == 32,
            le_bytes_nat(bytes_of_hex(job@.target_hex)) == spec_target(template.difficulty),
    {
        let seq = self.counter;
        self.counter = self.counter + 1;
        let job_id = format_hex16(seq);

        // Derive the reserved value from the session bytes and the counter.
        let rs = template.reserve_size as usize;
        let session_bytes = session_id.as_bytes_vec();
        let seq_bytes = u64_le_bytes(seq);
        let mut reserved: Vec<u8> = Vec::new();
        let ghost target_rv = reserved_value_of(session_id.spec_bytes(), seq, rs as nat);
        proof {
            lemma_le64_len(seq);
        }
        let mut i: usize = 0;
        while i < rs
            invariant
                i <= rs,
                session_bytes@ == session_id.spec_bytes(),
                seq_bytes@ == le64(seq),
                le64(seq).len() == 8,
                target_rv == reserved_value_of(session_id.spec_bytes(), seq, rs as nat),
                target_rv.len() == rs,
                reserved@ == target_rv.take(i as int),
            decreases rs - i,
        {
            let b: u8 = if i < session_bytes.len() {
                session_bytes[i]
            } else if i - session_bytes.len() < 8 {
                seq_bytes[i - session_bytes.len()]
            } else {
                0u8
            };
            reserved.push(b);
            proof {
                assert(b == target_rv[i as int]);
                assert(target_rv.take(i + 1) =~= target_rv.take(i as int).push(target_rv[i as int]));
            }
            i = i + 1;
        }
        proof {
            assert(target_rv.take(rs as int) =~= target_rv);
        }

        // Overwrite the reserved region of the decoded template blob.
        let mut blob: Vec<u8> = match hex_decode(template.blocktemplate_blob.as_str()) {
            Some(b) => b,
            None => Vec::new(),
        };
        let offset = template.reserved_offset;
        let ghost base = bytes_of_hex(template.blocktemplate_blob@);
        let ghost spliced = splice_bytes(base, offset as int, target_rv);
        let blob_len = blob.len();
        let mut k: usize = 0;
        while k < rs
            invariant
                k <= rs,
                blob@.len() == blob_len,
                offset + rs <= blob@.len(),
                blob@.len() == base.len(),
                reserved@ == target_rv,
                target_rv.len() == rs,
                spliced == splice_bytes(base, offset as int, target_rv),
                forall|m: int|
                    0 <= m < blob@.len() ==> blob@[m] == if offset <= m < offset + k {
                        spliced[m]
                    } else {
                        base[m]
                    },
            decreases rs - k,
        {
            let v = reserved[k];
            blob[offset + k] = v;
            k = k + 1;
        }
        proof {
            assert(blob@ =~= spliced);
        }

        // Target from difficulty.
        let target = difficulty_to_target(template.difficulty);
        let target_hex = hex_encode(target.as_slice());
        let blob_hex = hex_encode(blob.as_slice());

        let job = Job {
            job_id,
            template_id: template.template_id,
            blob_hex,
            reserved_offset: offset,
            reserved_value: reserved,
            target_hex,
            height: template.height,
            seed_hash: template.seed_hash.clone(),
            created_at: now_ms,
        };
        proof {
            lemma_hex_round_trip(spliced);
            assert(bytes_of_hex(job@.blob_hex).subrange(offset as int, offset + rs) =~= target_rv);
            lemma_hex_round_trip(target@);
            // The new identifier is fresh: every stored identifier prints a
            // smaller sequence number.
            assert forall|m: int| 0 <= m < old(self).jobs@.len() implies (#[trigger] old(
                self,
            ).jobs@[m])@.job_id != hex16(seq) by {
                lemma_issued_id_fresh(old(self).jobs@[m]@, seq);
            }
        }
        let jc = job.clone();
        self.jobs.push(job);
        proof {
            assert forall|m: int| 0 <= m < self.jobs@.len() implies id_issued(
                (#[trigger] self.jobs@[m])@,
                self.counter,
            ) by {
                if m < old(self).jobs@.len() {
                    lemma_id_issued_mono(self.jobs@[m]@, old(self).counter, self.counter);
                } else {
                    assert(seq < self.counter && self.jobs@[m]@.job_id == hex16(seq));
                }
            }
        }
        jc
    }

    /// Snapshot lookup by identifier.
    pub fn get_job(&self, job_id: &str) -> (r: Option<Job>)
        ensures
            match r {
                Some(j) => exists|i: int|
                    0 <= i < self.jobs@.len() && j@ == (#[trigger] self.jobs@[i])@ && j@.job_id
                        == job_id@,
                None => forall|i: int|
                    0 <= i < self.jobs@.len() ==> (#[trigger] self.jobs@[i])@.job_id != job_id@,
            },
    {
        let key = job_id.to_owned();
        let mut i: usize = 0;
        while i < self.jobs.len()
            invariant
                i <= self.jobs@.len(),
                key@ == job_id@,
                forall|m: int| 0 <= m < i ==> (#[trigger] self.jobs@[m])@.job_id != job_id@,
            decreases self.jobs@.len() - i,
        {
            if self.jobs[i].job_id == key {
                return Some(self.jobs[i].clone());
            }
            i = i + 1;
        }
        None
    }

    /// A job is stale iff its template has been superseded and its age at
    /// `now_ms` exceeds the grace window.
    pub fn is_stale(&self, job: &Job, current_template_id: u64, now_ms: u64) -> (r: bool)
        ensures
            r == (job.template_id != current_template_id && age_of(now_ms, job.created_at)
                > self.stale_grace_ms),
    {
        if job.template_id == current_template_id {
            return false;
        }
        if now_ms <= job.created_at {
            return false;
        }
        now_ms - job.created_at > self.stale_grace_ms
    }

    /// Drops exactly the jobs whose age at `now_ms` is `max_age_ms` or more.
    #[verifier::rlimit(30)]
    pub fn cleanup_old_jobs(&mut self, max_age_ms: u64, now_ms: u64)
        requires
            old(self).wf(),
        ensures
            final (self).wf(),
            final (self).counter == old(self).counter,
            final (self).stale_grace_ms == old(self).stale_grace_ms,
            final (self).jobs@.len() <= old(self).jobs@.len(),
            forall|i: int|
                0 <= i < final (self).jobs@.len() ==> age_of(
                    now_ms,
                    (#[trigger] final (self).jobs@[i])@.created_at,
                ) < max_age_ms,
            forall|i: int|
                0 <= i < final (self).jobs@.len() ==> present(
                    old(self).jobs@,
                    (#[trigger] final (self).jobs@[i])@,
                ),
            forall|m: int|
                0 <= m < old(self).jobs@.len() && age_of(
                    now_ms,
                    (#[trigger] old(self).jobs@[m])@.created_at,
                ) < max_age_ms ==> present(final (self).jobs@, old(self).jobs@[m]@),
    {
        let n = self.jobs.len();
        let mut kept: Vec<Job> = Vec::new();
        let ghost orig = self.jobs@;
        let mut i: usize = 0;
        while i < n
            invariant
                orig == old(self).jobs@,
                n == orig.len(),
                self.jobs@ == orig,
                i <= n,
                kept@.len() <= i,
                self.counter == old(self).counter,
                self.stale_grace_ms == old(self).stale_grace_ms,
                old(self).wf(),
                forall|a: int|
                    0 <= a < kept@.len() ==> age_of(now_ms, (#[trigger] kept@[a])@.created_at)
                        < max_age_ms,
                forall|a: int|
                    0 <= a < kept@.len() ==> present_upto(orig, i as int, (#[trigger] kept@[a])@),
                forall|m: int|
                    0 <= m < i && age_of(now_ms, (#[trigger] orig[m])@.created_at) < max_age_ms
                        ==> present(kept@, orig[m]@),
                forall|a: int, b: int|
                    0 <= a < b < kept@.len() ==> kept@[a]@.job_id != kept@[b]@.job_id,
                forall|a: int|
                    0 <= a < kept@.len() ==> id_issued((#[trigger] kept@[a])@, self.counter),
            decreases n - i,
        {
            let keep = {
                let j = &self.jobs[i];
                if now_ms <= j.created_at {
                    max_age_ms > 0
                } else {
                    now_ms - j.created_at < max_age_ms
                }
            };
            let ghost kept_pre = kept@;
            if keep {
                let jc = self.jobs[i].clone();
                proof {
                    assert forall|a: int| 0 <= a < kept@.len() implies kept@[a]@.job_id
                        != jc@.job_id by {
                        let m = choose|m: int|
                            0 <= m < i && m < orig.len() && (#[trigger] orig[m])@ == kept@[a]@;
                        assert(orig[m]@.job_id != orig[i as int]@.job_id);
                    }
                }
                kept.push(jc);
                proof {
                    assert(kept@ == kept_pre.push(jc));
                    assert(kept@[kept@.len() - 1]@ == orig[i as int]@);
                    assert forall|a: int| 0 <= a < kept@.len() implies present_upto(
                        orig,
                        i + 1,
                        (#[trigger] kept@[a])@,
                    ) by {
                        if a < kept_pre.len() {
                            lemma_present_upto_mono(orig, i as int, i + 1, kept@[a]@);
                        } else {
                            assert(0 <= i < i + 1 && i < orig.len() && orig[i as int]@
                                == kept@[a]@);
                        }
                    }
                    assert forall|m: int|
                        0 <= m < i + 1 && age_of(now_ms, (#[trigger] orig[m])@.created_at)
                            < max_age_ms implies present(kept@, orig[m]@) by {
                        if m < i {
                            lemma_present_push(kept_pre, jc, orig[m]@);
                        } else {
                            assert(kept@[kept@.len() - 1]@ == orig[m]@);
                        }
                    }
                }
            } else {
                proof {
                    assert(!(age_of(now_ms, orig[i as int]@.created_at) < max_age_ms));
                    assert forall|a: int| 0 <= a < kept@.len() implies present_upto(
                        orig,
                        i + 1,
                        (#[trigger] kept@[a])@,
                    ) by {
                        lemma_present_upto_mono(orig, i as int, i + 1, kept@[a]@);
                    }
                }
            }
            i = i + 1;
        }
        self.jobs = kept;
    }
}

/// Some stored job carries this identifier.
pub open spec fn has_job(jm: JobManager, id: Seq<char>) -> bool {
    exists|i: int| 0 <= i < jm.jobs@.len() && (#[trigger] jm.jobs@[i])@.job_id == id
}

/// The stored job carrying this identifier (unique under `wf`).
pub open spec fn job_with_id(jm: JobManager, id: Seq<char>) -> JobView {
    jm.jobs@[choose|i: int| 0 <= i < jm.jobs@.len() && (#[trigger] jm.jobs@[i])@.job_id == id]@
}

/// Under `wf`, `job_with_id` picks exactly the stored job at any index that
/// carries the identifier.
pub proof fn lemma_job_with_id(jm: JobManager, i: int)
    requires
        jm.wf(),
        0 <= i < jm.jobs@.len(),
    ensures
        has_job(jm, jm.jobs@[i]@.job_id),
        job_with_id(jm, jm.jobs@[i]@.job_id) == jm.jobs@[i]@,
{
    let id = jm.jobs@[i]@.job_id;
    assert(0 <= i < jm.jobs@.len() && jm.jobs@[i]@.job_id == id);
    let k = choose|k: int| 0 <= k < jm.jobs@.len() && (#[trigger] jm.jobs@[k])@.job_id == id;
    if k != i {
        lemma_job_ids_unique(jm, k, i);
    }
}

/// Within one registry no two stored jobs share an identifier.
pub proof fn lemma_job_ids_unique(m: JobManager, i: int, j: int)
    requires
        m.wf(),
        0 <= i < m.jobs@.len(),
        0 <= j < m.jobs@.len(),
        i != j,
    ensures
        m.jobs@[i]@.job_id != m.jobs@[j]@.job_id,
{
}

/// Reserved values differ whenever the (session, sequence) pairs differ,
/// provided the reserved region is large enough to hold both parts and the
/// session identifiers share one length (the coordinator's UUID strings do).
/// A shorter region can truncate the distinguishing bytes away.
pub proof fn lemma_reserved_value_unique(
    sb1: Seq<u8>,
    s1: u64,
    sb2: Seq<u8>,
    s2: u64,
    reserve_size: nat,
)
    requires
        sb1.len() == sb2.len(),
        reserve_size >= sb1.len() + 8,
        sb1 != sb2 || s1 != s2,
    ensures
        reserved_value_of(sb1, s1, reserve_size) != reserved_value_of(sb2, s2, reserve_size),
{
    let r1 = reserved_value_of(sb1, s1, reserve_size);
    let r2 = reserved_value_of(sb2, s2, reserve_size);
    lemma_le64_len(s1);
    lemma_le64_len(s2);
    if sb1 != sb2 {
        assert(!(sb1 =~= sb2));
        let k = choose|k: int| 0 <= k < sb1.len() && sb1[k] != sb2[k];
        assert(r1[k] != r2[k]);
    } else {
        lemma_le64_injective(s1, s2);
        assert(!(le64(s1) =~= le64(s2)));
        let k = choose|k: int| 0 <= k < 8 && le64(s1)[k] != le64(s2)[k];
        assert(r1[sb1.len() + k] != r2[sb1.len() + k]);
    }
}

} // verus!
