//! Structural validation of submissions and the target check.
//!
//! The proof-of-work hash itself comes from a RandomX virtual machine that
//! runs outside the library; the functions here decide everything around it:
//! whether the cached VM must be rebuilt for a seed, whether a submitted blob
//! is structurally valid, and whether a computed hash meets the target.
use crate::error::CoordinatorError;
use crate::hexfmt::{bytes_of_hex, hex_decode, is_hex_seq};
use crate::jobs::Job;
use crate::target::{check_meets_target, le_bytes_nat};
use vstd::prelude::*;
use vstd::string::StringExecFns;
use vstd::string::StrSliceExecFns;

verus! {

/// Shortest blob the coordinator accepts, in bytes.
pub const MIN_BLOB_LEN: usize = 76;

/// The submission validator: the minimum blob length and the seed hash the
/// proof-of-work verifier is currently keyed to (empty before the first
/// build).
pub struct SubmissionValidator {
    pub min_blob_len: usize,
    pub current_seed_hash: String,
}

impl SubmissionValidator {
    pub fn new() -> (r: SubmissionValidator)
        ensures
            r.min_blob_len == MIN_BLOB_LEN,
            r.current_seed_hash@ == Seq::<char>::empty(),
    {
        SubmissionValidator { min_blob_len: MIN_BLOB_LEN, current_seed_hash: String::new() }
    }

    /// The rebuild decision: the proof-of-work verifier must be rebuilt for
    /// `seed_hash` exactly when it differs from the cached seed.  Read-only:
    /// the cached seed moves only through `record_rebuilt`, after the caller
    /// performed the rebuild and it succeeded, so a failed rebuild leaves the
    /// next submission retrying.
    pub fn needs_rebuild(&self, seed_hash: &str) -> (r: bool)
        ensures
            r == (self.current_seed_hash@ != seed_hash@),
    {
        let seed = seed_hash.to_owned();
        !(self.current_seed_hash == seed)
    }

    /// A rebuild for `seed_hash` succeeded: record it as the cached seed, so
    /// later submissions under the same seed skip the rebuild.
    pub fn record_rebuilt(&mut self, seed_hash: &str)
        ensures
            final (self).current_seed_hash@ == seed_hash@,
            final (self).min_blob_len == old(self).min_blob_len,
    {
        self.current_seed_hash = seed_hash.to_owned();
    }

    /// Decodes and checks a submitted blob against a job: well-formed hex,
    /// long enough, reserved region inside it and equal byte-for-byte to the
    /// job's reserved value.  Each failure carries its specific reason.
    pub fn validate_blob(&self, blob_hex: &str, job: &Job) -> (r: Result<
        Vec<u8>,
        CoordinatorError,
    >)
        ensures
            ({
                let blob = bytes_of_hex(blob_hex@);
                let off = job.reserved_offset as int;
                let rlen = job.reserved_value@.len() as int;
                if !is_hex_seq(blob_hex@) {
                    r matches Err(e) && e matches CoordinatorError::Validation(m) && m@
                        == "Invalid hex"@
                } else if blob.len() < self.min_blob_len {
                    r matches Err(e) && e matches CoordinatorError::Validation(m) && m@
                        == "Blob too short"@
                } else if off + rlen > blob.len() {
                    r matches Err(e) && e matches CoordinatorError::Validation(m) && m@
                        == "Invalid blob structure"@
                } else if blob.subrange(off, off + rlen) != job.reserved_value@ {
                    r matches Err(e) && e matches CoordinatorError::Validation(m) && m@
                        == "Reserved value mismatch"@
                } else {
                    r matches Ok(b) && b@ == blob
                }
            }),
    {
        let blob = match hex_decode(blob_hex) {
            Some(b) => b,
            None => {
                return Err(CoordinatorError::Validation(String::from_str("Invalid hex")));
            },
        };
        if blob.len() < self.min_blob_len {
            return Err(CoordinatorError::Validation(String::from_str("Blob too short")));
        }
        let offset = job.reserved_offset;
        let rlen = job.reserved_value.len();
        if offset > blob.len() || rlen > blob.len() - offset {
            return Err(CoordinatorError::Validation(String::from_str("Invalid blob structure")));
        }
        let blob_len = blob.len();
        let mut i: usize = 0;
        while i < rlen
            invariant
                is_hex_seq(blob_hex@),
                blob@ == bytes_of_hex(blob_hex@),
                blob@.len() >= self.min_blob_len,
                offset == job.reserved_offset,
                rlen == job.reserved_value@.len(),
                blob@.len() == blob_len,
                offset + rlen <= blob_len,
                i <= rlen,
                forall|m: int|
                    0 <= m < i ==> blob@[offset + m] == (#[trigger] job.reserved_value@[m]),
            decreases rlen - i,
        {
            if blob[offset + i] != job.reserved_value[i] {
                proof {
                    assert(blob@.subrange(
                        offset as int,
                        offset + rlen,
                    )[i as int] != job.reserved_value@[i as int]);
                }
                return Err(CoordinatorError::Validation(
                    String::from_str("Reserved value mismatch"),
                ));
            }
            i = i + 1;
        }
        proof {
            assert(blob@.subrange(offset as int, offset + rlen) =~= job.reserved_value@);
        }
        Ok(blob)
    }

    /// Little-endian numeric comparison of a hash against a target.
    pub fn check_meets_target(&self, hash: &[u8; 32], target: &[u8; 32]) -> (r: bool)
        ensures
            r == (le_bytes_nat(hash@) <= le_bytes_nat(target@)),
    {
        check_meets_target(hash, target)
    }
}

} // verus!
