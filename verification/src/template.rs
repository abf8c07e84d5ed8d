//! Block-template snapshots and the decision core of the template manager:
//! assigning monotonically increasing template identifiers and deciding when
//! a daemon poll must trigger a refresh.
use crate::hexfmt::{bytes_of_hex, is_hex_seq};
use crate::rpc::BlockTemplate;
use vstd::prelude::*;

verus! {

/// Immutable snapshot of one block template, under a coordinator-assigned
/// monotonic identifier.  Times are milliseconds.
pub struct TemplateState {
    pub template_id: u64,
    pub height: u64,
    pub prev_hash: String,
    pub blocktemplate_blob: String,
    pub blockhashing_blob: String,
    pub difficulty: u64,
    pub reserved_offset: usize,
    pub reserve_size: u8,
    pub seed_hash: String,
    pub created_at: u64,
}

impl TemplateState {
    /// The template blob decodes, and the reserved region lies inside it.
    pub open spec fn wf(self) -> bool {
        &&& is_hex_seq(self.blocktemplate_blob@)
        &&& self.reserved_offset + self.reserve_size <= bytes_of_hex(
            self.blocktemplate_blob@,
        ).len()
    }

    /// Builds a snapshot from a daemon reply, under the given identifier.
    pub fn from_rpc(template: BlockTemplate, template_id: u64, reserve_size: u8, now_ms: u64) -> (r:
        TemplateState)
        ensures
            r.template_id == template_id,
            r.height == template.height,
            r.prev_hash == template.prev_hash,
            r.blocktemplate_blob == template.blocktemplate_blob,
            r.blockhashing_blob == template.blockhashing_blob,
            r.difficulty == template.difficulty,
            r.reserved_offset == template.reserved_offset,
            r.reserve_size == reserve_size,
            r.seed_hash == template.seed_hash,
            r.created_at == now_ms,
    {
        TemplateState {
            template_id,
            height: template.height,
            prev_hash: template.prev_hash,
            blocktemplate_blob: template.blocktemplate_blob,
            blockhashing_blob: template.blockhashing_blob,
            difficulty: template.difficulty,
            reserved_offset: template.reserved_offset,
            reserve_size,
            seed_hash: template.seed_hash,
            created_at: now_ms,
        }
    }
}

/// Decision core of the template manager: the monotonic template counter and
/// the last height seen from the daemon.  The surrounding poll loop performs
/// the RPC calls and publishes what `publish` builds.
pub struct TemplateTracker {
    pub template_counter: u64,
    pub last_height: u64,
    pub reserve_size: u8,
}

impl TemplateTracker {
    pub fn new(reserve_size: u8) -> (r: TemplateTracker)
        ensures
            r.template_counter == 0,
            r.last_height == 0,
            r.reserve_size == reserve_size,
    {
        TemplateTracker { template_counter: 0, last_height: 0, reserve_size }
    }

    /// A daemon poll reported `height`: refresh exactly when it moved, and
    /// remember it.
    pub fn observe_height(&mut self, height: u64) -> (refresh: bool)
        ensures
            refresh == (height != old(self).last_height),
            final (self).last_height == if refresh {
                height
            } else {
                old(self).last_height
            },
            final (self).template_counter == old(self).template_counter,
            final (self).reserve_size == old(self).reserve_size,
    {
        if height != self.last_height {
            self.last_height = height;
            true
        } else {
            false
        }
    }

    /// A fresh template arrived: assign it the next identifier.  Identifiers
    /// increase strictly across the tracker's lifetime.
    pub fn publish(&mut self, template: BlockTemplate, now_ms: u64) -> (r: TemplateState)
        requires
            old(self).template_counter < u64::MAX,
        ensures
            final (self).template_counter == old(self).template_counter + 1,
            final (self).last_height == old(self).last_height,
            final (self).reserve_size == old(self).reserve_size,
            r.template_id == final (self).template_counter,
            r.height == template.height,
            r.prev_hash == template.prev_hash,
            r.blocktemplate_blob == template.blocktemplate_blob,
            r.blockhashing_blob == template.blockhashing_blob,
            r.difficulty == template.difficulty,
            r.reserved_offset == template.reserved_offset,
            r.reserve_size == old(self).reserve_size,
            r.seed_hash == template.seed_hash,
            r.created_at == now_ms,
    {
        self.template_counter = self.template_counter + 1;
        TemplateState::from_rpc(template, self.template_counter, self.reserve_size, now_ms)
    }
}

} // verus!
