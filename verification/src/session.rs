//! Session records and the session registry: per-connection state, per-IP and
//! total connection caps, rate-limit bookkeeping, and idle eviction.
use crate::jobs::age_of;
use crate::ratelimit::{evict_expired, RateLimiter, SessionLimits};
use vstd::prelude::*;

verus! {

/// Relies on uuid's `Uuid::new_v4` and its `Display` impl (lower-case
/// hyphenated form): the printed identifier is 36 ASCII characters.  The
/// identifier itself is random; nothing more is assumed of it.
#[verifier::external_body]
fn new_session_id() -> (r: String)
    ensures
        r@.len() == 36,
        r.is_ascii(),
{
    uuid::Uuid::new_v4().to_string()
}

#[derive(Clone, Copy, PartialEq, Eq, Structural, Debug)]
pub enum SessionState {
    Connected,
    Ready,
    Closed,
}

/// One live connection's state.  Times are milliseconds.
pub struct Session {
    pub id: String,
    pub ip: u128,
    pub state: SessionState,
    pub client_version: Option<String>,
    pub threads: u8,
    pub current_job_id: Option<String>,
    pub current_reserved_value: Option<Vec<u8>>,
    pub connected_at: u64,
    pub last_activity: u64,
    pub limits: SessionLimits,
}

/// The mathematical content of a rate limiter.
pub ghost struct RateLimiterView {
    pub window_ms: u64,
    pub max_count: u32,
    pub timestamps: Seq<u64>,
    pub last_ms: u64,
}

impl View for RateLimiter {
    type V = RateLimiterView;

    open spec fn view(&self) -> RateLimiterView {
        RateLimiterView {
            window_ms: self.window_ms,
            max_count: self.max_count,
            timestamps: self.timestamps@,
            last_ms: self.last_ms,
        }
    }
}

/// The effective clock of a limiter consulted at `now_ms`: time never runs
/// backwards past an already recorded admission.
pub open spec fn limiter_clamped(l: RateLimiterView, now_ms: u64) -> u64 {
    if now_ms >= l.last_ms {
        now_ms
    } else {
        l.last_ms
    }
}

/// Whether a check at `now_ms` admits: after eviction the store is below
/// capacity.
pub open spec fn limiter_admits(l: RateLimiterView, now_ms: u64) -> bool {
    evict_expired(l.timestamps, limiter_clamped(l, now_ms), l.window_ms).len() < l.max_count
}

/// The stored timestamps after a check at `now_ms`: the in-window admissions,
/// with the event appended when it was admitted.
pub open spec fn limiter_store_after(l: RateLimiterView, now_ms: u64) -> Seq<u64> {
    let kept = evict_expired(l.timestamps, limiter_clamped(l, now_ms), l.window_ms);
    if kept.len() < l.max_count {
        kept.push(limiter_clamped(l, now_ms))
    } else {
        kept
    }
}

/// The limiter's clock floor after a check at `now_ms`.
pub open spec fn limiter_last_after(l: RateLimiterView, now_ms: u64) -> u64 {
    if limiter_admits(l, now_ms) {
        limiter_clamped(l, now_ms)
    } else {
        l.last_ms
    }
}

/// The mathematical content of a session.
pub ghost struct SessionView {
    pub id: Seq<char>,
    pub ip: u128,
    pub state: SessionState,
    pub client_version: Option<Seq<char>>,
    pub threads: u8,
    pub current_job_id: Option<Seq<char>>,
    pub current_reserved_value: Option<Seq<u8>>,
    pub connected_at: u64,
    pub last_activity: u64,
    pub messages: RateLimiterView,
    pub submits: RateLimiterView,
}

impl View for Session {
    type V = SessionView;

    open spec fn view(&self) -> SessionView {
        SessionView {
            id: self.id@,
            ip: self.ip,
            state: self.state,
            client_version: match self.client_version {
                Some(v) => Some(v@),
                None => None,
            },
            threads: self.threads,
            current_job_id: match self.current_job_id {
                Some(v) => Some(v@),
                None => None,
            },
            current_reserved_value: match self.current_reserved_value {
                Some(v) => Some(v@),
                None => None,
            },
            connected_at: self.connected_at,
            last_activity: self.last_activity,
            messages: self.limits.messages@,
            submits: self.limits.submits@,
        }
    }
}

impl Session {
    pub open spec fn wf(self) -> bool {
        self.limits.wf()
    }

    /// A fresh `Connected` session from `ip`, under a new random identifier.
    pub fn new(ip: u128, messages_per_second: u32, submits_per_minute: u32, now_ms: u64) -> (r:
        Session)
        ensures
            r.wf(),
            r@.id.len() == 36,
            r@.ip == ip,
            r@.state == SessionState::Connected,
            r@.client_version is None,
            r@.threads == 1,
            r@.current_job_id is None,
            r@.current_reserved_value is None,
            r@.connected_at == now_ms,
            r@.last_activity == now_ms,
            r@.messages.max_count == messages_per_second,
            r@.messages.window_ms == 1000,
            r@.messages.timestamps == Seq::<u64>::empty(),
            r@.submits.max_count == submits_per_minute,
            r@.submits.window_ms == 60000,
            r@.submits.timestamps == Seq::<u64>::empty(),
    {
        Session {
            id: new_session_id(),
            ip,
            state: SessionState::Connected,
            client_version: None,
            threads: 1,
            current_job_id: None,
            current_reserved_value: None,
            connected_at: now_ms,
            last_activity: now_ms,
            limits: SessionLimits::new(messages_per_second, submits_per_minute),
        }
    }

    /// A valid Hello arrived: record the client and enter `Ready`.
    pub fn set_ready(&mut self, client_version: String, threads: u8)
        ensures
            final (self)@ == (SessionView {
                state: SessionState::Ready,
                client_version: Some(client_version@),
                threads,
                ..old(self)@
            }),
    {
        self.client_version = Some(client_version);
        self.threads = threads;
        self.state = SessionState::Ready;
    }

    /// A new job was handed to this session.
    pub fn update_job(&mut self, job_id: String, reserved_value: Vec<u8>, now_ms: u64)
        ensures
            final (self)@ == (SessionView {
                current_job_id: Some(job_id@),
                current_reserved_value: Some(reserved_value@),
                last_activity: now_ms,
                ..old(self)@
            }),
    {
        self.current_job_id = Some(job_id);
        self.current_reserved_value = Some(reserved_value);
        self.last_activity = now_ms;
    }

    /// Record activity.
    pub fn touch(&mut self, now_ms: u64)
        ensures
            final (self)@ == (SessionView { last_activity: now_ms, ..old(self)@ }),
    {
        self.last_activity = now_ms;
    }

    /// Consult the per-second message limiter.
    pub fn check_message_limit(&mut self, now_ms: u64) -> (r: bool)
        requires
            old(self).wf(),
        ensures
            final (self).wf(),
            r == limiter_admits(old(self)@.messages, now_ms),
            final (self)@ == (SessionView { messages: final (self)@.messages, ..old(self)@ }),
            final (self)@.messages == (RateLimiterView {
                timestamps: limiter_store_after(old(self)@.messages, now_ms),
                last_ms: limiter_last_after(old(self)@.messages, now_ms),
                ..old(self)@.messages
            }),
    {
        self.limits.messages.check(now_ms)
    }

    /// Consult the per-minute submit limiter.
    pub fn check_submit_limit(&mut self, now_ms: u64) -> (r: bool)
        requires
            old(self).wf(),
        ensures
            final (self).wf(),
            r == limiter_admits(old(self)@.submits, now_ms),
            final (self)@ == (SessionView { submits: final (self)@.submits, ..old(self)@ }),
            final (self)@.submits == (RateLimiterView {
                timestamps: limiter_store_after(old(self)@.submits, now_ms),
                last_ms: limiter_last_after(old(self)@.submits, now_ms),
                ..old(self)@.submits
            }),
    {
        self.limits.submits.check(now_ms)
    }
}

fn clone_u64s(v: &Vec<u64>) -> (r: Vec<u64>)
    ensures
        r@ == v@,
{
    let mut out: Vec<u64> = Vec::new();
    let mut i: usize = 0;
    while i < v.len()
        invariant
            i <= v@.len(),
            out@ == v@.take(i as int),
        decreases v@.len() - i,
    {
        out.push(v[i]);
        proof {
            assert(v@.take(i + 1) =~= v@.take(i as int).push(v@[i as int]));
        }
        i = i + 1;
    }
    proof {
        assert(v@.take(v@.len() as int) =~= v@);
    }
    out
}

impl Clone for RateLimiter {
    fn clone(&self) -> (r: RateLimiter)
        ensures
            r@ == self@,
    {
        RateLimiter {
            window_ms: self.window_ms,
            max_count: self.max_count,
            timestamps: clone_u64s(&self.timestamps),
            last_ms: self.last_ms,
        }
    }
}

impl Clone for Session {
    fn clone(&self) -> (r: Session)
        ensures
            r@ == self@,
    {
        Session {
            id: self.id.clone(),
            ip: self.ip,
            state: self.state,
            client_version: match &self.client_version {
                Some(v) => Some(v.clone()),
                None => None,
            },
            threads: self.threads,
            current_job_id: match &self.current_job_id {
                Some(v) => Some(v.clone()),
                None => None,
            },
            current_reserved_value: match &self.current_reserved_value {
                Some(v) => Some(crate::strutil::clone_bytes(v)),
                None => None,
            },
            connected_at: self.connected_at,
            last_activity: self.last_activity,
            limits: SessionLimits {
                messages: self.limits.messages.clone(),
                submits: self.limits.submits.clone(),
            },
        }
    }
}

/// How many stored sessions carry this address.
pub open spec fn ip_count(s: Seq<Session>, ip: u128) -> nat
    decreases s.len(),
{
    if s.len() == 0 {
        0
    } else {
        ip_count(s.drop_last(), ip) + if s.last()@.ip == ip {
            1nat
        } else {
            0nat
        }
    }
}

/// First index whose session carries `id`, or -1.
pub open spec fn find_session(s: Seq<Session>, id: Seq<char>) -> int
    decreases s.len(),
{
    if s.len() == 0 {
        -1
    } else if s[0]@.id == id {
        0
    } else {
        let r = find_session(s.drop_first(), id);
        if r == -1 {
            -1
        } else {
            r + 1
        }
    }
}

proof fn lemma_find_session_at(s: Seq<Session>, id: Seq<char>, i: int)
    requires
        0 <= i < s.len(),
        s[i]@.id == id,
        forall|m: int| 0 <= m < i ==> (#[trigger] s[m])@.id != id,
    ensures
        find_session(s, id) == i,
    decreases s.len(),
{
    if i > 0 {
        let t = s.drop_first();
        assert(forall|m: int| 0 <= m < i - 1 ==> (#[trigger] t[m])@.id != id);
        lemma_find_session_at(t, id, i - 1);
    }
}

proof fn lemma_find_session_none(s: Seq<Session>, id: Seq<char>)
    requires
        forall|m: int| 0 <= m < s.len() ==> (#[trigger] s[m])@.id != id,
    ensures
        find_session(s, id) == -1,
    decreases s.len(),
{
    if s.len() > 0 {
        lemma_find_session_none(s.drop_first(), id);
    }
}

/// What a found index means: the session there carries the identifier and
/// no earlier one does.
pub proof fn lemma_find_session_props(s: Seq<Session>, id: Seq<char>)
    ensures
        find_session(s, id) == -1 || (0 <= find_session(s, id) < s.len() && s[find_session(
            s,
            id,
        )]@.id == id && forall|m: int|
            0 <= m < find_session(s, id) ==> (#[trigger] s[m])@.id != id),
    decreases s.len(),
{
    if s.len() > 0 && s[0]@.id != id {
        lemma_find_session_props(s.drop_first(), id);
        let r = find_session(s.drop_first(), id);
        if r != -1 {
            assert(forall|m: int| 0 <= m < r + 1 ==> (#[trigger] s[m])@.id != id) by {
                assert(forall|m: int|
                    1 <= m < r + 1 ==> (#[trigger] s[m])@ == s.drop_first()[m - 1]@);
            }
        }
    }
}

/// The found index depends only on the stored identifiers.
pub proof fn lemma_find_session_stable(s1: Seq<Session>, s2: Seq<Session>, id: Seq<char>)
    requires
        s1.len() == s2.len(),
        forall|m: int| 0 <= m < s1.len() ==> (#[trigger] s2[m])@.id == s1[m]@.id,
    ensures
        find_session(s2, id) == find_session(s1, id),
    decreases s1.len(),
{
    if s1.len() > 0 {
        assert(s2[0]@.id == s1[0]@.id);
        assert(forall|m: int|
            0 <= m < s1.drop_first().len() ==> (#[trigger] s2.drop_first()[m])@.id
                == s1.drop_first()[m]@.id) by {
            assert(forall|m: int|
                0 <= m < s1.drop_first().len() ==> (#[trigger] s2.drop_first()[m])@ == s2[m + 1]@
                    && s1.drop_first()[m]@ == s1[m + 1]@);
        }
        lemma_find_session_stable(s1.drop_first(), s2.drop_first(), id);
    }
}

/// The session registry with its admission caps.
pub struct SessionManager {
    pub sessions: Vec<Session>,
    pub max_per_ip: usize,
    pub max_total: usize,
    pub messages_per_second: u32,
    pub submits_per_minute: u32,
}

impl SessionManager {
    pub open spec fn wf(self) -> bool {
        forall|i: int| 0 <= i < self.sessions@.len() ==> (#[trigger] self.sessions@[i]).wf()
    }

    /// The registry's configuration, unchanged by every operation.
    pub open spec fn same_config(self, o: SessionManager) -> bool {
        &&& self.max_per_ip == o.max_per_ip
        &&& self.max_total == o.max_total
        &&& self.messages_per_second == o.messages_per_second
        &&& self.submits_per_minute == o.submits_per_minute
    }

    pub fn new(
        max_per_ip: usize,
        max_total: usize,
        messages_per_second: u32,
        submits_per_minute: u32,
    ) -> (r: SessionManager)
        ensures
            r.wf(),
            r.sessions@.len() == 0,
            r.max_per_ip == max_per_ip,
            r.max_total == max_total,
            r.messages_per_second == messages_per_second,
            r.submits_per_minute == submits_per_minute,
    {
        SessionManager {
            sessions: Vec::new(),
            max_per_ip,
            max_total,
            messages_per_second,
            submits_per_minute,
        }
    }

    /// Admits a new connection from `ip` iff the total cap and the per-IP cap
    /// both leave room; on admission the new `Connected` session is stored
    /// and returned.
    pub fn create_session(&mut self, ip: u128, now_ms: u64) -> (r: Option<Session>)
        requires
            old(self).wf(),
        ensures
            final (self).wf(),
            final (self).same_config(*old(self)),
            r is None <==> (old(self).sessions@.len() >= old(self).max_total || ip_count(
                old(self).sessions@,
                ip,
            ) >= old(self).max_per_ip),
            r is None ==> final (self).sessions@ == old(self).sessions@,
            r matches Some(s) ==> {
                &&& final (self).sessions@.len() == old(self).sessions@.len() + 1
                &&& (forall|i: int|
                    0 <= i < old(self).sessions@.len() ==> final (self).sessions@[i] == old(
                        self,
                    ).sessions@[i])
                &&& final (self).sessions@.last()@ == s@
                &&& s@.ip == ip
                &&& s@.state == SessionState::Connected
                &&& s@.connected_at == now_ms
                &&& s@.last_activity == now_ms
                &&& s@.threads == 1
                &&& s@.client_version is None
                &&& s@.current_job_id is None
                &&& s@.id.len() == 36
                &&& s@.messages.max_count == old(self).messages_per_second
                &&& s@.messages.timestamps == Seq::<u64>::empty()
                &&& s@.submits.max_count == old(self).submits_per_minute
                &&& s@.submits.timestamps == Seq::<u64>::empty()
            },
    {
        if self.sessions.len() >= self.max_total {
            return None;
        }
        let count = self.count_ip(ip);
        if count >= self.max_per_ip {
            return None;
        }
        let s = Session::new(ip, self.messages_per_second, self.submits_per_minute, now_ms);
        let sc = s.clone();
        self.sessions.push(s);
        proof {
            assert(sc.wf()) by {
                assert(sc@.messages.timestamps == Seq::<u64>::empty());
            }
        }
        Some(sc)
    }

    fn count_ip(&self, ip: u128) -> (r: usize)
        ensures
            r == ip_count(self.sessions@, ip),
    {
        let mut count: usize = 0;
        let mut i: usize = 0;
        while i < self.sessions.len()
            invariant
                i <= self.sessions@.len(),
                count == ip_count(self.sessions@.take(i as int), ip),
                count <= i,
            decreases self.sessions@.len() - i,
        {
            proof {
                let t = self.sessions@.take(i + 1);
                assert(t.drop_last() =~= self.sessions@.take(i as int));
                assert(t.last() == self.sessions@[i as int]);
            }
            if self.sessions[i].ip == ip {
                count = count + 1;
            }
            i = i + 1;
        }
        proof {
            assert(self.sessions@.take(self.sessions@.len() as int) =~= self.sessions@);
        }
        count
    }

    /// Snapshot of the session with this identifier, if present.
    pub fn get_session(&self, id: &str) -> (r: Option<Session>)
        ensures
            match r {
                Some(s) => find_session(self.sessions@, id@) >= 0 && s@ == self.sessions@[
                    find_session(self.sessions@, id@)
                ]@,
                None => find_session(self.sessions@, id@) == -1,
            },
    {
        let key = id.to_owned();
        let mut i: usize = 0;
        while i < self.sessions.len()
            invariant
                i <= self.sessions@.len(),
                key@ == id@,
                forall|m: int| 0 <= m < i ==> (#[trigger] self.sessions@[m])@.id != id@,
            decreases self.sessions@.len() - i,
        {
            if self.sessions[i].id == key {
                proof {
                    lemma_find_session_at(self.sessions@, id@, i as int);
                }
                return Some(self.sessions[i].clone());
            }
            i = i + 1;
        }
        proof {
            lemma_find_session_none(self.sessions@, id@);
        }
        None
    }

    /// A valid Hello arrived on the session with this identifier.
    pub fn set_ready(&mut self, id: &str, client_version: String, threads: u8)
        requires
            old(self).wf(),
        ensures
            final (self).wf(),
            final (self).same_config(*old(self)),
            final (self).sessions@.len() == old(self).sessions@.len(),
            ({
                let fi = find_session(old(self).sessions@, id@);
                if fi == -1 {
                    final (self).sessions@ == old(self).sessions@
                } else {
                    &&& (forall|j: int|
                        0 <= j < old(self).sessions@.len() && j != fi ==> final (self).sessions@[j] == old(self).sessions@[j])
                    &&& final (self).sessions@[fi]@ == SessionView {
                        state: SessionState::Ready,
                        client_version: Some(client_version@),
                        threads,
                        ..old(self).sessions@[fi]@
                    }
                }
            }),
    {
        let n = self.sessions.len();
        let ghost orig = self.sessions@;
        let mut i: usize = 0;
        while i < n
            invariant
                orig == old(self).sessions@,
                n == orig.len(),
                self.sessions@ == orig,
                i <= n,
                self.same_config(*old(self)),
                self.wf(),
                forall|m: int| 0 <= m < i ==> (#[trigger] orig[m])@.id != id@,
            decreases n - i,
        {
            if compare_str(&self.sessions[i].id, id) {
                proof {
                    lemma_find_session_at(orig, id@, i as int);
                }
                let mut s = self.sessions.remove(i);
                s.set_ready(client_version, threads);
                proof {
                    assert(s.wf()) by {
                        assert(s@.messages == orig[i as int]@.messages);
                        assert(s@.submits == orig[i as int]@.submits);
                        assert(orig[i as int].wf());
                    }
                }
                self.sessions.insert(i, s);
                proof {
                    assert(self.sessions@ =~= orig.update(i as int, self.sessions@[i as int]));
                    assert forall|m: int|
                        0 <= m < self.sessions@.len() implies (#[trigger] self.sessions@[m]).wf() by {
                        if m != i as int {
                            assert(self.sessions@[m] == orig[m]);
                        }
                    }
                }
                return ;
            }
            i = i + 1;
        }
        proof {
            lemma_find_session_none(orig, id@);
        }
    }

    /// A new job was handed to the session with this identifier.
    pub fn update_job_for(&mut self, id: &str, job_id: String, reserved_value: Vec<u8>, now_ms: u64)
        requires
            old(self).wf(),
        ensures
            final (self).wf(),
            final (self).same_config(*old(self)),
            final (self).sessions@.len() == old(self).sessions@.len(),
            ({
                let fi = find_session(old(self).sessions@, id@);
                if fi == -1 {
                    final (self).sessions@ == old(self).sessions@
                } else {
                    &&& (forall|j: int|
                        0 <= j < old(self).sessions@.len() && j != fi ==> final (self).sessions@[j] == old(self).sessions@[j])
                    &&& final (self).sessions@[fi]@ == SessionView {
                        current_job_id: Some(job_id@),
                        current_reserved_value: Some(reserved_value@),
                        last_activity: now_ms,
                        ..old(self).sessions@[fi]@
                    }
                }
            }),
    {
        let n = self.sessions.len();
        let ghost orig = self.sessions@;
        let mut i: usize = 0;
        while i < n
            invariant
                orig == old(self).sessions@,
                n == orig.len(),
                self.sessions@ == orig,
                i <= n,
                self.same_config(*old(self)),
                self.wf(),
                forall|m: int| 0 <= m < i ==> (#[trigger] orig[m])@.id != id@,
            decreases n - i,
        {
            if compare_str(&self.sessions[i].id, id) {
                proof {
                    lemma_find_session_at(orig, id@, i as int);
                }
                let mut s = self.sessions.remove(i);
                s.update_job(job_id, reserved_value, now_ms);
                proof {
                    assert(s.wf()) by {
                        assert(s@.messages == orig[i as int]@.messages);
                        assert(s@.submits == orig[i as int]@.submits);
                        assert(orig[i as int].wf());
                    }
                }
                self.sessions.insert(i, s);
                proof {
                    assert(self.sessions@ =~= orig.update(i as int, self.sessions@[i as int]));
                    assert forall|m: int|
                        0 <= m < self.sessions@.len() implies (#[trigger] self.sessions@[m]).wf() by {
                        if m != i as int {
                            assert(self.sessions@[m] == orig[m]);
                        }
                    }
                }
                return ;
            }
            i = i + 1;
        }
        proof {
            lemma_find_session_none(orig, id@);
        }
    }

    /// Record activity on the session with this identifier.
    pub fn touch(&mut self, id: &str, now_ms: u64)
        requires
            old(self).wf(),
        ensures
            final (self).wf(),
            final (self).same_config(*old(self)),
            final (self).sessions@.len() == old(self).sessions@.len(),
            ({
                let fi = find_session(old(self).sessions@, id@);
                if fi == -1 {
                    final (self).sessions@ == old(self).sessions@
                } else {
                    &&& (forall|j: int|
                        0 <= j < old(self).sessions@.len() && j != fi ==> final (self).sessions@[j] == old(self).sessions@[j])
                    &&& final (self).sessions@[fi]@ == SessionView {
                        last_activity: now_ms,
                        ..old(self).sessions@[fi]@
                    }
                }
            }),
    {
        let n = self.sessions.len();
        let ghost orig = self.sessions@;
        let mut i: usize = 0;
        while i < n
            invariant
                orig == old(self).sessions@,
                n == orig.len(),
                self.sessions@ == orig,
                i <= n,
                self.same_config(*old(self)),
                self.wf(),
                forall|m: int| 0 <= m < i ==> (#[trigger] orig[m])@.id != id@,
            decreases n - i,
        {
            if compare_str(&self.sessions[i].id, id) {
                proof {
                    lemma_find_session_at(orig, id@, i as int);
                }
                let mut s = self.sessions.remove(i);
                s.touch(now_ms);
                proof {
                    assert(s.wf()) by {
                        assert(s@.messages == orig[i as int]@.messages);
                        assert(s@.submits == orig[i as int]@.submits);
                        assert(orig[i as int].wf());
                    }
                }
                self.sessions.insert(i, s);
                proof {
                    assert(self.sessions@ =~= orig.update(i as int, self.sessions@[i as int]));
                    assert forall|m: int|
                        0 <= m < self.sessions@.len() implies (#[trigger] self.sessions@[m]).wf() by {
                        if m != i as int {
                            assert(self.sessions@[m] == orig[m]);
                        }
                    }
                }
                return ;
            }
            i = i + 1;
        }
        proof {
            lemma_find_session_none(orig, id@);
        }
    }

    /// Consult the message limiter of the session with this identifier;
    /// denies when the session is missing.
    pub fn check_message_limit(&mut self, id: &str, now_ms: u64) -> (r: bool)
        requires
            old(self).wf(),
        ensures
            final (self).wf(),
            final (self).same_config(*old(self)),
            final (self).sessions@.len() == old(self).sessions@.len(),
            ({
                let fi = find_session(old(self).sessions@, id@);
                if fi == -1 {
                    final (self).sessions@ == old(self).sessions@ && r == false
                } else {
                    let l = old(self).sessions@[fi]@.messages;
                    &&& (forall|j: int|
                        0 <= j < old(self).sessions@.len() && j != fi ==> final (self).sessions@[j] == old(self).sessions@[j])
                    &&& r == limiter_admits(l, now_ms)
                    &&& final (self).sessions@[fi]@ == SessionView {
                        messages: final (self).sessions@[fi]@.messages,
                        ..old(self).sessions@[fi]@
                    }
                    &&& final (self).sessions@[fi]@.messages == RateLimiterView {
                        timestamps: limiter_store_after(l, now_ms),
                        last_ms: limiter_last_after(l, now_ms),
                        ..l
                    }
                }
            }),
    {
        let n = self.sessions.len();
        let ghost orig = self.sessions@;
        let mut i: usize = 0;
        while i < n
            invariant
                orig == old(self).sessions@,
                n == orig.len(),
                self.sessions@ == orig,
                i <= n,
                self.same_config(*old(self)),
                self.wf(),
                forall|m: int| 0 <= m < i ==> (#[trigger] orig[m])@.id != id@,
            decreases n - i,
        {
            if compare_str(&self.sessions[i].id, id) {
                proof {
                    lemma_find_session_at(orig, id@, i as int);
                }
                let mut s = self.sessions.remove(i);
                let r = s.check_message_limit(now_ms);
                self.sessions.insert(i, s);
                proof {
                    assert(self.sessions@ =~= orig.update(i as int, self.sessions@[i as int]));
                    assert forall|m: int|
                        0 <= m < self.sessions@.len() implies (#[trigger] self.sessions@[m]).wf() by {
                        if m != i as int {
                            assert(self.sessions@[m] == orig[m]);
                        }
                    }
                }
                return r;
            }
            i = i + 1;
        }
        proof {
            lemma_find_session_none(orig, id@);
        }
        false
    }

    /// Consult the submit limiter of the session with this identifier;
    /// denies when the session is missing.
    pub fn check_submit_limit(&mut self, id: &str, now_ms: u64) -> (r: bool)
        requires
            old(self).wf(),
        ensures
            final (self).wf(),
            final (self).same_config(*old(self)),
            final (self).sessions@.len() == old(self).sessions@.len(),
            ({
                let fi = find_session(old(self).sessions@, id@);
                if fi == -1 {
                    final (self).sessions@ == old(self).sessions@ && r == false
                } else {
                    let l = old(self).sessions@[fi]@.submits;
                    &&& (forall|j: int|
                        0 <= j < old(self).sessions@.len() && j != fi ==> final (self).sessions@[j] == old(self).sessions@[j])
                    &&& r == limiter_admits(l, now_ms)
                    &&& final (self).sessions@[fi]@ == SessionView {
                        submits: final (self).sessions@[fi]@.submits,
                        ..old(self).sessions@[fi]@
                    }
                    &&& final (self).sessions@[fi]@.submits == RateLimiterView {
                        timestamps: limiter_store_after(l, now_ms),
                        last_ms: limiter_last_after(l, now_ms),
                        ..l
                    }
                }
            }),
    {
        let n = self.sessions.len();
        let ghost orig = self.sessions@;
        let mut i: usize = 0;
        while i < n
            invariant
                orig == old(self).sessions@,
                n == orig.len(),
                self.sessions@ == orig,
                i <= n,
                self.same_config(*old(self)),
                self.wf(),
                forall|m: int| 0 <= m < i ==> (#[trigger] orig[m])@.id != id@,
            decreases n - i,
        {
            if compare_str(&self.sessions[i].id, id) {
                proof {
                    lemma_find_session_at(orig, id@, i as int);
                }
                let mut s = self.sessions.remove(i);
                let r = s.check_submit_limit(now_ms);
                self.sessions.insert(i, s);
                proof {
                    assert(self.sessions@ =~= orig.update(i as int, self.sessions@[i as int]));
                    assert forall|m: int|
                        0 <= m < self.sessions@.len() implies (#[trigger] self.sessions@[m]).wf() by {
                        if m != i as int {
                            assert(self.sessions@[m] == orig[m]);
                        }
                    }
                }
                return r;
            }
            i = i + 1;
        }
        proof {
            lemma_find_session_none(orig, id@);
        }
        false
    }

    /// Removes the session with this identifier, if present.
    pub fn remove_session(&mut self, id: &str)
        requires
            old(self).wf(),
        ensures
            final (self).wf(),
            final (self).same_config(*old(self)),
            ({
                let fi = find_session(old(self).sessions@, id@);
                if fi == -1 {
                    final (self).sessions@ == old(self).sessions@
                } else {
                    final (self).sessions@ == old(self).sessions@.remove(fi)
                }
            }),
    {
        let n = self.sessions.len();
        let ghost orig = self.sessions@;
        let mut i: usize = 0;
        while i < n
            invariant
                orig == old(self).sessions@,
                n == orig.len(),
                self.sessions@ == orig,
                i <= n,
                self.same_config(*old(self)),
                self.wf(),
                forall|m: int| 0 <= m < i ==> (#[trigger] orig[m])@.id != id@,
            decreases n - i,
        {
            if compare_str(&self.sessions[i].id, id) {
                proof {
                    lemma_find_session_at(orig, id@, i as int);
                }
                self.sessions.remove(i);
                proof {
                    assert forall|m: int|
                        0 <= m < self.sessions@.len() implies (#[trigger] self.sessions@[m]).wf() by {
                        if m < i as int {
                            assert(self.sessions@[m] == orig[m]);
                        } else {
                            assert(self.sessions@[m] == orig[m + 1]);
                        }
                    }
                }
                return ;
            }
            i = i + 1;
        }
        proof {
            lemma_find_session_none(orig, id@);
        }
    }

    /// How many sessions are live.
    pub fn active_count(&self) -> (r: usize)
        ensures
            r == self.sessions@.len(),
    {
        self.sessions.len()
    }

    /// Removes every session idle for longer than `max_idle_ms`; returns how
    /// many were removed.
    #[verifier::rlimit(30)]
    pub fn cleanup_idle(&mut self, max_idle_ms: u64, now_ms: u64) -> (removed: usize)
        requires
            old(self).wf(),
        ensures
            final (self).wf(),
            final (self).same_config(*old(self)),
            final (self).sessions@.len() <= old(self).sessions@.len(),
            removed == old(self).sessions@.len() - final (self).sessions@.len(),
            forall|i: int|
                0 <= i < final (self).sessions@.len() ==> age_of(
                    now_ms,
                    (#[trigger] final (self).sessions@[i])@.last_activity,
                ) <= max_idle_ms,
            forall|i: int|
                0 <= i < final (self).sessions@.len() ==> session_present(
                    old(self).sessions@,
                    (#[trigger] final (self).sessions@[i])@,
                ),
            forall|m: int|
                0 <= m < old(self).sessions@.len() && age_of(
                    now_ms,
                    (#[trigger] old(self).sessions@[m])@.last_activity,
                ) <= max_idle_ms ==> session_present(final (self).sessions@, old(self).sessions@[m]@),
    {
        let n = self.sessions.len();
        let mut kept: Vec<Session> = Vec::new();
        let ghost orig = self.sessions@;
        let mut i: usize = 0;
        while i < n
            invariant
                orig == old(self).sessions@,
                n == orig.len(),
                self.sessions@ == orig,
                i <= n,
                kept@.len() <= i,
                old(self).wf(),
                self.same_config(*old(self)),
                forall|a: int|
                    0 <= a < kept@.len() ==> age_of(now_ms, (#[trigger] kept@[a])@.last_activity)
                        <= max_idle_ms,
                forall|a: int| 0 <= a < kept@.len() ==> (#[trigger] kept@[a]).wf(),
                forall|a: int|
                    0 <= a < kept@.len() ==> session_present_upto(
                        orig,
                        i as int,
                        (#[trigger] kept@[a])@,
                    ),
                forall|m: int|
                    0 <= m < i && age_of(now_ms, (#[trigger] orig[m])@.last_activity)
                        <= max_idle_ms ==> session_present(kept@, orig[m]@),
            decreases n - i,
        {
            let keep = {
                let s = &self.sessions[i];
                if now_ms <= s.last_activity {
                    true
                } else {
                    now_ms - s.last_activity <= max_idle_ms
                }
            };
            let ghost kept_pre = kept@;
            if keep {
                let sc = self.sessions[i].clone();
                proof {
                    assert(sc.wf()) by {
                        assert(sc@.messages.timestamps == orig[i as int]@.messages.timestamps);
                        assert(sc@.submits.timestamps == orig[i as int]@.submits.timestamps);
                        assert(orig[i as int].wf());
                    }
                }
                kept.push(sc);
                proof {
                    assert(kept@ == kept_pre.push(sc));
                    assert(kept@[kept@.len() - 1]@ == orig[i as int]@);
                    assert forall|a: int| 0 <= a < kept@.len() implies session_present_upto(
                        orig,
                        i + 1,
                        (#[trigger] kept@[a])@,
                    ) by {
                        if a < kept_pre.len() {
                            lemma_session_present_upto_mono(orig, i as int, i + 1, kept@[a]@);
                        } else {
                            assert(0 <= i < i + 1 && i < orig.len() && orig[i as int]@
                                == kept@[a]@);
                        }
                    }
                    assert forall|m: int|
                        0 <= m < i + 1 && age_of(now_ms, (#[trigger] orig[m])@.last_activity)
                            <= max_idle_ms implies session_present(kept@, orig[m]@) by {
                        if m < i {
                            lemma_session_present_push(kept_pre, sc, orig[m]@);
                        } else {
                            assert(kept@[kept@.len() - 1]@ == orig[m]@);
                        }
                    }
                }
            } else {
                proof {
                    assert(!(age_of(now_ms, orig[i as int]@.last_activity) <= max_idle_ms));
                    assert forall|a: int| 0 <= a < kept@.len() implies session_present_upto(
                        orig,
                        i + 1,
                        (#[trigger] kept@[a])@,
                    ) by {
                        lemma_session_present_upto_mono(orig, i as int, i + 1, kept@[a]@);
                    }
                }
            }
            i = i + 1;
        }
        let removed = n - kept.len();
        self.sessions = kept;
        removed
    }
}

/// Some index of `s` (below `bound`) holds a session whose content is `v`.
pub open spec fn session_present_upto(s: Seq<Session>, bound: int, v: SessionView) -> bool {
    exists|m: int| 0 <= m < bound && m < s.len() && (#[trigger] s[m])@ == v
}

/// Some index of `s` holds a session whose content is `v`.
pub open spec fn session_present(s: Seq<Session>, v: SessionView) -> bool {
    session_present_upto(s, s.len() as int, v)
}

proof fn lemma_session_present_upto_mono(s: Seq<Session>, b1: int, b2: int, v: SessionView)
    requires
        session_present_upto(s, b1, v),
        b1 <= b2,
    ensures
        session_present_upto(s, b2, v),
{
    let m = choose|m: int| 0 <= m < b1 && m < s.len() && (#[trigger] s[m])@ == v;
    assert(0 <= m < b2 && m < s.len() && s[m]@ == v);
}

proof fn lemma_session_present_push(s: Seq<Session>, x: Session, v: SessionView)
    requires
        session_present(s, v),
    ensures
        session_present(s.push(x), v),
{
    let m = choose|m: int| 0 <= m < s.len() && (#[trigger] s[m])@ == v;
    assert(s.push(x)[m]@ == v);
}

/// String equality by content.
fn compare_str(a: &String, b: &str) -> (r: bool)
    ensures
        r == (a@ == b@),
{
    let bo = b.to_owned();
    *a == bo
}

} // verus!
