//! Adaptive per-user rate limiter with escalating cooldowns.
//!
//! Each user has a history of recently admitted message instants, a violation
//! count, and an optional cooldown expiry. A call is admitted when no cooldown
//! is active and fewer than `max_messages` admitted instants remain inside the
//! sliding window; a rejection escalates the cooldown geometrically, capped at
//! `max_cooldown`. The cooldown multiplier is the exact rational
//! `mul_num / mul_den`, applied in integer milliseconds.

use vstd::prelude::*;

use crate::{sat_add, sat_add_s, Millis};

verus! {

// ---------------------------------------------------------------------------
// Policy
// ---------------------------------------------------------------------------

/// Immutable policy parameters, fixed for the limiter's lifetime.
pub struct LimiterPolicy {
    /// Most admitted messages allowed inside one window.
    pub max_messages: usize,
    /// Length of the sliding window.
    pub window: Millis,
    /// Cooldown after the first violation, before escalation.
    pub base_cooldown: Millis,
    /// Upper cap on every computed cooldown.
    pub max_cooldown: Millis,
    /// Numerator of the cooldown multiplier.
    pub mul_num: u64,
    /// Denominator of the cooldown multiplier; at least one.
    pub mul_den: u64,
    /// Quiet time after the last admitted message before the violation count
    /// may reset.
    pub violation_reset: Millis,
}

impl LimiterPolicy {
    pub open spec fn wf(self) -> bool {
        self.mul_den >= 1
    }
}

/// One escalation step: multiply by `mul_num / mul_den`, then cap.
pub open spec fn escalate(p: LimiterPolicy, x: u64) -> u64 {
    let grown = (x * p.mul_num) / (p.mul_den as int);
    if grown >= p.max_cooldown {
        p.max_cooldown
    } else {
        grown as u64
    }
}

/// Cooldown for a given violation count: the base cooldown escalated once per
/// violation, always capped at `max_cooldown`.
pub open spec fn cooldown_ms(p: LimiterPolicy, v: u64) -> u64
    decreases v,
{
    if v == 0 {
        if p.base_cooldown >= p.max_cooldown {
            p.max_cooldown
        } else {
            p.base_cooldown
        }
    } else {
        escalate(p, cooldown_ms(p, (v - 1) as u64))
    }
}

// ---------------------------------------------------------------------------
// Per-user model
// ---------------------------------------------------------------------------

/// Mathematical model of one user's rate state.
pub ghost struct UserModel {
    /// Admitted instants still considered recent.
    pub history: Seq<Millis>,
    /// Violations since the last reset.
    pub violations: u64,
    /// Instant at which the current cooldown ends, if one was ever set.
    pub cooldown_until: Option<Millis>,
}

/// The state a user is in before their first message.
pub open spec fn fresh_user() -> UserModel {
    UserModel { history: Seq::empty(), violations: 0, cooldown_until: None }
}

/// An instant stays in the history while it is at most one window old.
pub open spec fn kept(t: Millis, window: Millis, now: Millis) -> bool {
    t + window >= now
}

/// The history with every instant older than one window removed.
pub open spec fn prune(h: Seq<Millis>, window: Millis, now: Millis) -> Seq<Millis>
    decreases h.len(),
{
    if h.len() == 0 {
        Seq::empty()
    } else {
        let rest = prune(h.drop_last(), window, now);
        if kept(h.last(), window, now) {
            rest.push(h.last())
        } else {
            rest
        }
    }
}

/// A cooldown is active while `now` lies strictly before its expiry.
pub open spec fn cooldown_active(st: UserModel, now: Millis) -> bool {
    match st.cooldown_until {
        Some(until) => now < until,
        None => false,
    }
}

/// After a cooldown has elapsed, the violation count resets once the quiet
/// time since the user's last admitted message exceeds the reset duration.
pub open spec fn should_reset(p: LimiterPolicy, st: UserModel, now: Millis) -> bool {
    st.cooldown_until is Some && st.history.len() > 0 && st.history.last() + p.violation_reset
        < now
}

/// Outcome of one limiter call: the user's next state and the verdict.
pub ghost struct StepResult {
    pub state: UserModel,
    pub admitted: bool,
}

/// The limiter's policy as one pure transition per call.
pub open spec fn limiter_step(p: LimiterPolicy, st: UserModel, now: Millis) -> StepResult {
    if cooldown_active(st, now) {
        StepResult { state: st, admitted: false }
    } else {
        let violations0 = if should_reset(p, st, now) {
            0u64
        } else {
            st.violations
        };
        let h = prune(st.history, p.window, now);
        if h.len() >= p.max_messages {
            let v = if violations0 < u64::MAX {
                (violations0 + 1) as u64
            } else {
                violations0
            };
            StepResult {
                state: UserModel {
                    history: h,
                    violations: v,
                    cooldown_until: Some(sat_add_s(now, cooldown_ms(p, v))),
                },
                admitted: false,
            }
        } else {
            StepResult {
                state: UserModel {
                    history: h.push(now),
                    violations: violations0,
                    cooldown_until: st.cooldown_until,
                },
                admitted: true,
            }
        }
    }
}

// ---------------------------------------------------------------------------
// Per-user executable state
// ---------------------------------------------------------------------------

/// Executable per-user state; its view is a `UserModel`.
pub struct UserState {
    pub history: Vec<Millis>,
    pub violations: u64,
    pub cooldown_until: Option<Millis>,
}

impl View for UserState {
    type V = UserModel;

    open spec fn view(&self) -> UserModel {
        UserModel {
            history: self.history@,
            violations: self.violations,
            cooldown_until: self.cooldown_until,
        }
    }
}

// ---------------------------------------------------------------------------
// The user table, backed by a hashbrown map
// ---------------------------------------------------------------------------

/// Map from user id to rate state. The backing map cannot be declared to the
/// verifier (its allocator type parameter is not supported), so it lives in an
/// opaque struct whose contents are named by `table_view` and reached only
/// through the contracted operations below.
#[verifier::external_body]
pub struct UserTable {
    inner: hashbrown::HashMap<u64, UserState>,
}

/// The entries the table currently holds.
pub uninterp spec fn table_view(t: UserTable) -> Map<u64, UserState>;

impl View for UserTable {
    type V = Map<u64, UserState>;

    open spec fn view(&self) -> Map<u64, UserState> {
        table_view(*self)
    }
}

/// The contents of a table no user has been entered in.
pub open spec fn empty_table() -> Map<u64, UserState> {
    Map::empty()
}

/// Relies on hashbrown::HashMap::new: the new map is empty.
#[verifier::external_body]
fn table_new() -> (fresh: UserTable)
    ensures
        table_view(fresh) == empty_table(),
{
    UserTable { inner: hashbrown::HashMap::new() }
}

/// Relies on hashbrown::HashMap::get: returns the value stored under the key,
/// if any.
#[verifier::external_body]
fn table_get<'a>(t: &'a UserTable, k: u64) -> (r: Option<&'a UserState>)
    ensures
        match r {
            Some(v) => t@.contains_key(k) && *v == t@[k],
            None => !t@.contains_key(k),
        },
{
    t.inner.get(&k)
}

/// Relies on hashbrown::HashMap::remove: takes the value stored under the key
/// out of the map, if any.
#[verifier::external_body]
fn table_remove(t: &mut UserTable, k: u64) -> (r: Option<UserState>)
    ensures
        match r {
            Some(v) => old(t)@.contains_key(k) && v == old(t)@[k] && final(t)@ == old(
                t,
            )@.remove(k),
            None => !old(t)@.contains_key(k) && final(t)@ == old(t)@,
        },
{
    t.inner.remove(&k)
}

/// Relies on hashbrown::HashMap::insert: stores the value under the key,
/// replacing any previous value.
#[verifier::external_body]
fn table_insert(t: &mut UserTable, k: u64, v: UserState)
    ensures
        final(t)@ == old(t)@.insert(k, v),
{
    t.inner.insert(k, v);
}

// ---------------------------------------------------------------------------
// The limiter
// ---------------------------------------------------------------------------

pub struct RateLimiter {
    pub policy: LimiterPolicy,
    pub users: UserTable,
}

impl RateLimiter {
    pub open spec fn wf(self) -> bool {
        self.policy.wf()
    }

    pub open spec fn spec_policy(self) -> LimiterPolicy {
        self.policy
    }

    /// The model of one user: their stored state, or the fresh state before
    /// their first message.
    pub open spec fn user_model(self, user_id: u64) -> UserModel {
        if self.users@.contains_key(user_id) {
            self.users@[user_id]@
        } else {
            fresh_user()
        }
    }

    /// A limiter with the given policy and no users yet.
    pub fn new(
        max_messages: usize,
        window: Millis,
        base_cooldown: Millis,
        max_cooldown: Millis,
        mul_num: u64,
        mul_den: u64,
        violation_reset: Millis,
    ) -> (r: RateLimiter)
        requires
            mul_den >= 1,
        ensures
            r.wf(),
            r.spec_policy() == (LimiterPolicy {
                max_messages,
                window,
                base_cooldown,
                max_cooldown,
                mul_num,
                mul_den,
                violation_reset,
            }),
            r.users@ == empty_table(),
            forall|u: u64| r.user_model(u) == fresh_user(),
    {
        RateLimiter {
            policy: LimiterPolicy {
                max_messages,
                window,
                base_cooldown,
                max_cooldown,
                mul_num,
                mul_den,
                violation_reset,
            },
            users: table_new(),
        }
    }

    /// Admit or reject a message from `user_id` arriving at `now`; one
    /// `limiter_step` of that user's state, all other users untouched.
    pub fn check_rate_limit(&mut self, user_id: u64, now: Millis) -> (admitted: bool)
        requires
            old(self).wf(),
        ensures
            final(self).wf(),
            final(self).spec_policy() == old(self).spec_policy(),
            final(self).user_model(user_id) == limiter_step(
                old(self).spec_policy(),
                old(self).user_model(user_id),
                now,
            ).state,
            admitted == limiter_step(
                old(self).spec_policy(),
                old(self).user_model(user_id),
                now,
            ).admitted,
            forall|u: u64| u != user_id ==> final(self).user_model(u) == old(self).user_model(u),
    {
        let st: UserState = match table_remove(&mut self.users, user_id) {
            Some(s) => s,
            None => UserState { history: Vec::new(), violations: 0, cooldown_until: None },
        };
        let ghost st0 = st@;
        if cooldown_is_active(&st, now) {
            table_insert(&mut self.users, user_id, st);
            return false;
        }
        let violations0: u64 = if reset_is_due(&self.policy, &st, now) {
            0
        } else {
            st.violations
        };
        let h = prune_history(&st.history, self.policy.window, now);
        if h.len() >= self.policy.max_messages {
            let v: u64 = if violations0 < u64::MAX {
                violations0 + 1
            } else {
                violations0
            };
            let cd = cooldown_for(&self.policy, v);
            let until = sat_add(now, cd);
            let next = UserState { history: h, violations: v, cooldown_until: Some(until) };
            assert(next@ == limiter_step(self.policy, st0, now).state);
            table_insert(&mut self.users, user_id, next);
            false
        } else {
            let mut h = h;
            h.push(now);
            let next = UserState {
                history: h,
                violations: violations0,
                cooldown_until: st.cooldown_until,
            };
            assert(next@ == limiter_step(self.policy, st0, now).state);
            table_insert(&mut self.users, user_id, next);
            true
        }
    }

    /// Diagnostic view of one user: their violation count and, when a cooldown
    /// expiry was ever set, how much of it remains at `now`. Mutates nothing.
    pub fn get_user_state(&self, user_id: u64, now: Millis) -> (r: Option<(u64, Option<Millis>)>)
        ensures
            match r {
                Some((v, rem)) => self.users@.contains_key(user_id) && v == self
                    .user_model(user_id).violations && rem == match self.user_model(
                    user_id,
                ).cooldown_until {
                    Some(until) => Some(if now < until {
                        (until - now) as u64
                    } else {
                        0u64
                    }),
                    None => None::<u64>,
                },
                None => !self.users@.contains_key(user_id),
            },
    {
        match table_get(&self.users, user_id) {
            Some(st) => {
                let rem = match st.cooldown_until {
                    Some(until) => Some(
                        if now < until {
                            until - now
                        } else {
                            0
                        },
                    ),
                    None => None,
                };
                Some((st.violations, rem))
            },
            None => None,
        }
    }
}

// ---------------------------------------------------------------------------
// Executable helpers mirroring the model
// ---------------------------------------------------------------------------

fn cooldown_is_active(st: &UserState, now: Millis) -> (r: bool)
    ensures
        r == cooldown_active(st@, now),
{
    match st.cooldown_until {
        Some(until) => now < until,
        None => false,
    }
}

fn reset_is_due(p: &LimiterPolicy, st: &UserState, now: Millis) -> (r: bool)
    ensures
        r == should_reset(*p, st@, now),
{
    if st.cooldown_until.is_some() && st.history.len() > 0 {
        let last = st.history[st.history.len() - 1];
        if last <= u64::MAX - p.violation_reset {
            last + p.violation_reset < now
        } else {
            false
        }
    } else {
        false
    }
}

fn prune_history(h: &Vec<Millis>, window: Millis, now: Millis) -> (r: Vec<Millis>)
    ensures
        r@ == prune(h@, window, now),
{
    let mut out: Vec<Millis> = Vec::new();
    let mut i: usize = 0;
    while i < h.len()
        invariant
            i <= h.len(),
            out@ == prune(h@.subrange(0, i as int), window, now),
        decreases h.len() - i,
    {
        let t = h[i];
        let keep = if t <= u64::MAX - window {
            t + window >= now
        } else {
            true
        };
        proof {
            assert(h@.subrange(0, i + 1 as int).drop_last() =~= h@.subrange(0, i as int));
            assert(h@.subrange(0, i + 1 as int).last() == h@[i as int]);
        }
        if keep {
            out.push(t);
        }
        i = i + 1;
    }
    proof {
        assert(h@.subrange(0, h@.len() as int) =~= h@);
    }
    out
}

/// Compute `cooldown_ms` by escalating step by step, stopping early once the
/// value can no longer change.
fn cooldown_for(p: &LimiterPolicy, v: u64) -> (r: u64)
    requires
        p.wf(),
    ensures
        r == cooldown_ms(*p, v),
{
    let mut cd: u64 = if p.base_cooldown >= p.max_cooldown {
        p.max_cooldown
    } else {
        p.base_cooldown
    };
    let mut i: u64 = 0;
    while i < v
        invariant
            p.wf(),
            i <= v || (v == 0 && i == 0),
            cd == cooldown_ms(*p, i),
        decreases v - i,
    {
        let next = escalate_once(p, cd);
        if next == cd {
            proof {
                lemma_cooldown_stable(*p, i, v);
            }
            return cd;
        }
        cd = next;
        i = i + 1;
    }
    cd
}

/// One executable escalation step; exact against `escalate`.
fn escalate_once(p: &LimiterPolicy, x: u64) -> (r: u64)
    requires
        p.wf(),
    ensures
        r == escalate(*p, x),
{
    proof {
        assert((x as int) * (p.mul_num as int) <= (u64::MAX as int) * (u64::MAX as int))
            by (nonlinear_arith)
            requires
                x <= u64::MAX,
                p.mul_num <= u64::MAX,
        ;
    }
    let grown: u128 = (x as u128) * (p.mul_num as u128) / (p.mul_den as u128);
    if grown >= p.max_cooldown as u128 {
        p.max_cooldown
    } else {
        grown as u64
    }
}

/// Once an escalation step leaves the cooldown unchanged, every later
/// violation count yields the same cooldown.
proof fn lemma_cooldown_stable(p: LimiterPolicy, i: u64, v: u64)
    requires
        i <= v,
        escalate(p, cooldown_ms(p, i)) == cooldown_ms(p, i),
    ensures
        cooldown_ms(p, v) == cooldown_ms(p, i),
    decreases v - i,
{
    if i < v {
        lemma_cooldown_stable(p, i, (v - 1) as u64);
    }
}

// ---------------------------------------------------------------------------
// Laws
// ---------------------------------------------------------------------------

/// How many of the calls at the instants in `times` are admitted, starting
/// from `st`.
pub open spec fn admit_count(p: LimiterPolicy, st: UserModel, times: Seq<Millis>) -> nat
    decreases times.len(),
{
    if times.len() == 0 {
        0
    } else {
        let r = limiter_step(p, st, times[0]);
        (if r.admitted {
            1nat
        } else {
            0nat
        }) + admit_count(p, r.state, times.drop_first())
    }
}

/// Every instant in `h` is still within one window of every instant in
/// `times`.
pub open spec fn covers(h: Seq<Millis>, window: Millis, times: Seq<Millis>) -> bool {
    forall|i: int, k: int|
        0 <= i < h.len() && 0 <= k < times.len() ==> #[trigger] h[i] + window >= #[trigger] times[k]
}

/// All the instants in `times` lie within one window of each other.
pub open spec fn within_one_window(times: Seq<Millis>, window: Millis) -> bool {
    forall|i: int, j: int|
        0 <= i < times.len() && 0 <= j < times.len() ==> #[trigger] times[j] <= #[trigger] times[i]
            + window
}

/// Pruning removes nothing from a history whose every instant is recent.
proof fn lemma_prune_all_kept(h: Seq<Millis>, window: Millis, now: Millis)
    requires
        forall|i: int| 0 <= i < h.len() ==> kept(#[trigger] h[i], window, now),
    ensures
        prune(h, window, now) == h,
    decreases h.len(),
{
    if h.len() > 0 {
        lemma_prune_all_kept(h.drop_last(), window, now);
        assert(h.drop_last().push(h.last()) =~= h);
    }
}

proof fn lemma_window_admits_rec(p: LimiterPolicy, st: UserModel, times: Seq<Millis>)
    requires
        st.history.len() <= p.max_messages,
        covers(st.history, p.window, times),
        within_one_window(times, p.window),
    ensures
        admit_count(p, st, times) + st.history.len() <= p.max_messages,
    decreases times.len(),
{
    if times.len() > 0 {
        let now = times[0];
        let rest = times.drop_first();
        let r = limiter_step(p, st, now);
        assert(forall|k: int| 0 <= k < rest.len() ==> rest[k] == times[k + 1]);
        if cooldown_active(st, now) {
            lemma_window_admits_rec(p, st, rest);
        } else {
            assert(forall|i: int| 0 <= i < st.history.len() ==> kept(#[trigger] st.history[i], p.window, now));
            lemma_prune_all_kept(st.history, p.window, now);
            if st.history.len() >= p.max_messages {
                assert(r.state.history == st.history);
                lemma_window_admits_rec(p, r.state, rest);
            } else {
                let h2 = st.history.push(now);
                assert(r.state.history == h2);
                assert forall|i: int, k: int|
                    0 <= i < h2.len() && 0 <= k < rest.len() implies #[trigger] h2[i] + p.window
                    >= #[trigger] rest[k] by {
                    if i < st.history.len() {
                        assert(st.history[i] + p.window >= times[k + 1]);
                    } else {
                        assert(h2[i] == now);
                        assert(times[k + 1] <= times[0] + p.window);
                    }
                }
                lemma_window_admits_rec(p, r.state, rest);
            }
        }
    }
}

/// Law: among calls that all lie within one window of each other, a user
/// starting fresh is admitted at most `max_messages` times.
pub proof fn lemma_window_admission_bound(p: LimiterPolicy, times: Seq<Millis>)
    requires
        within_one_window(times, p.window),
    ensures
        admit_count(p, fresh_user(), times) <= p.max_messages,
{
    lemma_window_admits_rec(p, fresh_user(), times);
}

/// Law: a rejection leaves a cooldown expiry set, and every call strictly
/// before that expiry is rejected and changes nothing.
pub proof fn lemma_rejection_cooldown(p: LimiterPolicy, st: UserModel, now: Millis)
    requires
        !limiter_step(p, st, now).admitted,
    ensures
        limiter_step(p, st, now).state.cooldown_until is Some,
        forall|t: Millis|
            t < limiter_step(p, st, now).state.cooldown_until->Some_0 ==> limiter_step(
                p,
                limiter_step(p, st, now).state,
                t,
            ) == (StepResult { state: limiter_step(p, st, now).state, admitted: false }),
{
}

/// Law: a call at or after the cooldown expiry is evaluated fresh: its verdict
/// depends only on how much of the history is still inside the window.
pub proof fn lemma_expiry_fresh(p: LimiterPolicy, st: UserModel, now: Millis)
    requires
        st.cooldown_until is Some,
        now >= st.cooldown_until->Some_0,
    ensures
        limiter_step(p, st, now).admitted == (prune(st.history, p.window, now).len()
            < p.max_messages),
{
}

/// Law: a rejection that is evaluated fresh (no active cooldown) and does not
/// qualify for a violation reset strictly raises the violation count.
pub proof fn lemma_violations_strictly_increase(p: LimiterPolicy, st: UserModel, now: Millis)
    requires
        !cooldown_active(st, now),
        !should_reset(p, st, now),
        !limiter_step(p, st, now).admitted,
        st.violations < u64::MAX,
    ensures
        limiter_step(p, st, now).state.violations == st.violations + 1,
{
}

/// Law: no computed cooldown exceeds the cap.
pub proof fn lemma_cooldown_capped(p: LimiterPolicy, v: u64)
    requires
        p.wf(),
    ensures
        cooldown_ms(p, v) <= p.max_cooldown,
{
    if v > 0 {
        let x = cooldown_ms(p, (v - 1) as u64);
        lemma_escalate_in_range(p, x);
    }
}

/// The escalation of a cooldown is a well-formed duration no larger than the
/// cap.
proof fn lemma_escalate_in_range(p: LimiterPolicy, x: u64)
    requires
        p.wf(),
    ensures
        0 <= escalate(p, x) <= p.max_cooldown,
        escalate(p, x) == (x * p.mul_num) / (p.mul_den as int) || escalate(p, x)
            == p.max_cooldown,
{
    let grown = (x * p.mul_num) / (p.mul_den as int);
    assert(x * p.mul_num >= 0) by (nonlinear_arith)
        requires
            x >= 0,
            p.mul_num >= 0,
    ;
    vstd::arithmetic::div_mod::lemma_div_is_ordered(0, x * p.mul_num, p.mul_den as int);
}

/// One escalation never shrinks a cooldown that is within the cap, provided
/// the multiplier is at least one.
proof fn lemma_escalate_ge(p: LimiterPolicy, x: u64)
    requires
        p.wf(),
        p.mul_num >= p.mul_den,
        x <= p.max_cooldown,
    ensures
        escalate(p, x) >= x,
{
    let grown = (x * p.mul_num) / (p.mul_den as int);
    assert(x * p.mul_den <= x * p.mul_num) by (nonlinear_arith)
        requires
            p.mul_den <= p.mul_num,
            x >= 0,
    ;
    vstd::arithmetic::div_mod::lemma_div_is_ordered(
        x * p.mul_den,
        x * p.mul_num,
        p.mul_den as int,
    );
    vstd::arithmetic::div_mod::lemma_div_multiples_vanish(x as int, p.mul_den as int);
    assert(x * p.mul_den == (p.mul_den as int) * (x as int)) by (nonlinear_arith);
    assert((x * p.mul_den) / (p.mul_den as int) == x);
}

/// Law: with a multiplier of at least one, the computed cooldown is
/// monotonically non-decreasing in the violation count.
pub proof fn lemma_cooldown_monotone(p: LimiterPolicy, v1: u64, v2: u64)
    requires
        p.wf(),
        p.mul_num >= p.mul_den,
        v1 <= v2,
    ensures
        cooldown_ms(p, v1) <= cooldown_ms(p, v2),
    decreases v2 - v1,
{
    if v1 < v2 {
        lemma_cooldown_monotone(p, v1, (v2 - 1) as u64);
        lemma_cooldown_capped(p, (v2 - 1) as u64);
        lemma_escalate_ge(p, cooldown_ms(p, (v2 - 1) as u64));
    }
}

} // verus!
