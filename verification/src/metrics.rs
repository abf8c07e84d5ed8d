//! Operational counters and their text exposition.
use crate::strutil::{dec_u64, write_u64};
use vstd::prelude::*;
use vstd::string::StringExecFns;

verus! {

/// The coordinator's counters.  Increments saturate at the type's maximum
/// rather than wrap.
pub struct Metrics {
    pub connections_total: u64,
    pub connections_active: u64,
    pub messages_received: u64,
    pub submissions_total: u64,
    pub submissions_accepted: u64,
    pub submissions_rejected: u64,
    pub submissions_stale: u64,
    pub jobs_created: u64,
    pub templates_received: u64,
    pub rate_limits_hit: u64,
}

/// `n + 1`, stopping at the maximum.
pub open spec fn inc1(n: u64) -> u64 {
    if n < u64::MAX {
        (n + 1) as u64
    } else {
        n
    }
}

/// `n - 1`, stopping at zero.
pub open spec fn dec1(n: u64) -> u64 {
    if n > 0 {
        (n - 1) as u64
    } else {
        0
    }
}

impl Metrics {
    pub fn new() -> (r: Metrics)
        ensures
            r == (Metrics {
                connections_total: 0u64,
                connections_active: 0u64,
                messages_received: 0u64,
                submissions_total: 0u64,
                submissions_accepted: 0u64,
                submissions_rejected: 0u64,
                submissions_stale: 0u64,
                jobs_created: 0u64,
                templates_received: 0u64,
                rate_limits_hit: 0u64,
            }),
    {
        Metrics {
            connections_total: 0,
            connections_active: 0,
            messages_received: 0,
            submissions_total: 0,
            submissions_accepted: 0,
            submissions_rejected: 0,
            submissions_stale: 0,
            jobs_created: 0,
            templates_received: 0,
            rate_limits_hit: 0,
        }
    }

    /// A connection opened: one more total, one more active.
    pub fn inc_connections(&mut self)
        ensures
            *final (self) == (Metrics {
                connections_total: inc1(old(self).connections_total),
                connections_active: inc1(old(self).connections_active),
                ..*old(self)
            }),
    {
        self.connections_total = saturating_inc(self.connections_total);
        self.connections_active = saturating_inc(self.connections_active);
    }

    /// A connection closed: one fewer active.
    pub fn dec_connections(&mut self)
        ensures
            *final (self) == (Metrics {
                connections_active: dec1(old(self).connections_active),
                ..*old(self)
            }),
    {
        if self.connections_active > 0 {
            self.connections_active = self.connections_active - 1;
        }
    }

    pub fn inc_messages(&mut self)
        ensures
            *final (self) == (Metrics {
                messages_received: inc1(old(self).messages_received),
                ..*old(self)
            }),
    {
        self.messages_received = saturating_inc(self.messages_received);
    }

    pub fn inc_submissions(&mut self)
        ensures
            *final (self) == (Metrics {
                submissions_total: inc1(old(self).submissions_total),
                ..*old(self)
            }),
    {
        self.submissions_total = saturating_inc(self.submissions_total);
    }

    pub fn inc_accepted(&mut self)
        ensures
            *final (self) == (Metrics {
                submissions_accepted: inc1(old(self).submissions_accepted),
                ..*old(self)
            }),
    {
        self.submissions_accepted = saturating_inc(self.submissions_accepted);
    }

    pub fn inc_rejected(&mut self)
        ensures
            *final (self) == (Metrics {
                submissions_rejected: inc1(old(self).submissions_rejected),
                ..*old(self)
            }),
    {
        self.submissions_rejected = saturating_inc(self.submissions_rejected);
    }

    pub fn inc_stale(&mut self)
        ensures
            *final (self) == (Metrics {
                submissions_stale: inc1(old(self).submissions_stale),
                ..*old(self)
            }),
    {
        self.submissions_stale = saturating_inc(self.submissions_stale);
    }

    pub fn inc_jobs(&mut self)
        ensures
            *final (self) == (Metrics { jobs_created: inc1(old(self).jobs_created), ..*old(self) }),
    {
        self.jobs_created = saturating_inc(self.jobs_created);
    }

    pub fn inc_templates(&mut self)
        ensures
            *final (self) == (Metrics {
                templates_received: inc1(old(self).templates_received),
                ..*old(self)
            }),
    {
        self.templates_received = saturating_inc(self.templates_received);
    }

    pub fn inc_rate_limits(&mut self)
        ensures
            *final (self) == (Metrics {
                rate_limits_hit: inc1(old(self).rate_limits_hit),
                ..*old(self)
            }),
    {
        self.rate_limits_hit = saturating_inc(self.rate_limits_hit);
    }

    /// The counters in Prometheus text form.
    pub fn format_prometheus(&self) -> (r: String)
        ensures
            r@ == spec_prometheus(*self),
    {
        let mut out = String::new();
        proof {
            assert(Seq::<char>::empty() + "# HELP coordinator_connections_total Total connections\n# TYPE coordinator_connections_total counter\ncoordinator_connections_total "@
                =~= "# HELP coordinator_connections_total Total connections\n# TYPE coordinator_connections_total counter\ncoordinator_connections_total "@);
        }
        out.append(
            "# HELP coordinator_connections_total Total connections\n# TYPE coordinator_connections_total counter\ncoordinator_connections_total ",
        );
        write_u64(&mut out, self.connections_total);
        out.append(
            "\n# HELP coordinator_connections_active Active connections\n# TYPE coordinator_connections_active gauge\ncoordinator_connections_active ",
        );
        write_u64(&mut out, self.connections_active);
        out.append(
            "\n# HELP coordinator_messages_received Total messages received\n# TYPE coordinator_messages_received counter\ncoordinator_messages_received ",
        );
        write_u64(&mut out, self.messages_received);
        out.append(
            "\n# HELP coordinator_submissions_total Total submissions\n# TYPE coordinator_submissions_total counter\ncoordinator_submissions_total ",
        );
        write_u64(&mut out, self.submissions_total);
        out.append(
            "\n# HELP coordinator_submissions_accepted Accepted submissions\n# TYPE coordinator_submissions_accepted counter\ncoordinator_submissions_accepted ",
        );
        write_u64(&mut out, self.submissions_accepted);
        out.append(
            "\n# HELP coordinator_submissions_rejected Rejected submissions\n# TYPE coordinator_submissions_rejected counter\ncoordinator_submissions_rejected ",
        );
        write_u64(&mut out, self.submissions_rejected);
        out.append(
            "\n# HELP coordinator_submissions_stale Stale submissions\n# TYPE coordinator_submissions_stale counter\ncoordinator_submissions_stale ",
        );
        write_u64(&mut out, self.submissions_stale);
        out.append(
            "\n# HELP coordinator_jobs_created Jobs created\n# TYPE coordinator_jobs_created counter\ncoordinator_jobs_created ",
        );
        write_u64(&mut out, self.jobs_created);
        out.append(
            "\n# HELP coordinator_templates_received Templates received\n# TYPE coordinator_templates_received counter\ncoordinator_templates_received ",
        );
        write_u64(&mut out, self.templates_received);
        out.append(
            "\n# HELP coordinator_rate_limits_hit Rate limits triggered\n# TYPE coordinator_rate_limits_hit counter\ncoordinator_rate_limits_hit ",
        );
        write_u64(&mut out, self.rate_limits_hit);
        out.append("\n");
        out
    }
}

fn saturating_inc(n: u64) -> (r: u64)
    ensures
        r == inc1(n),
{
    if n < u64::MAX {
        n + 1
    } else {
        n
    }
}

/// The exact text `format_prometheus` produces.
pub open spec fn spec_prometheus(m: Metrics) -> Seq<char> {
    Seq::<char>::empty()
        + "# HELP coordinator_connections_total Total connections\n# TYPE coordinator_connections_total counter\ncoordinator_connections_total "@
        + dec_u64(m.connections_total as nat)
        + "\n# HELP coordinator_connections_active Active connections\n# TYPE coordinator_connections_active gauge\ncoordinator_connections_active "@
        + dec_u64(m.connections_active as nat)
        + "\n# HELP coordinator_messages_received Total messages received\n# TYPE coordinator_messages_received counter\ncoordinator_messages_received "@
        + dec_u64(m.messages_received as nat)
        + "\n# HELP coordinator_submissions_total Total submissions\n# TYPE coordinator_submissions_total counter\ncoordinator_submissions_total "@
        + dec_u64(m.submissions_total as nat)
        + "\n# HELP coordinator_submissions_accepted Accepted submissions\n# TYPE coordinator_submissions_accepted counter\ncoordinator_submissions_accepted "@
        + dec_u64(m.submissions_accepted as nat)
        + "\n# HELP coordinator_submissions_rejected Rejected submissions\n# TYPE coordinator_submissions_rejected counter\ncoordinator_submissions_rejected "@
        + dec_u64(m.submissions_rejected as nat)
        + "\n# HELP coordinator_submissions_stale Stale submissions\n# TYPE coordinator_submissions_stale counter\ncoordinator_submissions_stale "@
        + dec_u64(m.submissions_stale as nat)
        + "\n# HELP coordinator_jobs_created Jobs created\n# TYPE coordinator_jobs_created counter\ncoordinator_jobs_created "@
        + dec_u64(m.jobs_created as nat)
        + "\n# HELP coordinator_templates_received Templates received\n# TYPE coordinator_templates_received counter\ncoordinator_templates_received "@
        + dec_u64(m.templates_received as nat)
        + "\n# HELP coordinator_rate_limits_hit Rate limits triggered\n# TYPE coordinator_rate_limits_hit counter\ncoordinator_rate_limits_hit "@
        + dec_u64(m.rate_limits_hit as nat) + "\n"@
}

} // verus!
