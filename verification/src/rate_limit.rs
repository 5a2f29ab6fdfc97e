//! Per-account backoff tracking driven by upstream response classification.
//!
//! Statuses that mean the target does not exist (or the failure is not
//! transient) are not retryable and leave the tracker untouched. Throttling
//! and transient-unavailability statuses lock the account: the wait is the
//! upstream-supplied retry-after when it is present and sane; otherwise a
//! short fixed wait on the first consecutive failure, and from the second
//! consecutive failure on, the caller-supplied backoff table indexed by the
//! failure count, saturating at its last entry.

use vstd::prelude::*;

use crate::text::{opt_str_view, opt_string_view};

verus! {

/// Wait for a first consecutive failure when the upstream supplies no usable
/// retry-after value.
pub const FIRST_FAILURE_WAIT_SEC: u64 = 8;

/// Largest upstream-supplied retry-after taken at face value; anything above
/// is treated as nonsense and the backoff table is used instead.
pub const MAX_UPSTREAM_RETRY_AFTER_SEC: u64 = 86400;

/// One account's in-memory lock state. Never persisted.
pub struct RateLimitState {
    pub account_id: String,
    pub locked_until: Option<i64>,
    pub consecutive_failure_count: u64,
    pub last_status_code: u16,
    pub last_message: String,
}

/// The immutable result of classifying one upstream failure.
pub struct RateLimitInfo {
    pub account_id: String,
    pub status_code: u16,
    pub retry_after_sec: u64,
    pub message: String,
    pub context: Option<String>,
}

/// Ghost model of one account's state.
pub struct AccountModel {
    pub locked_until: Option<i64>,
    pub failures: u64,
    pub last_status: u16,
    pub last_message: Seq<char>,
}

impl RateLimitState {
    /// The ghost model of this record.
    pub open spec fn model(self) -> AccountModel {
        AccountModel {
            locked_until: self.locked_until,
            failures: self.consecutive_failure_count,
            last_status: self.last_status_code,
            last_message: self.last_message@,
        }
    }
}

/// Some position in `entries` holds `id`.
pub open spec fn has_entry(entries: Seq<RateLimitState>, id: Seq<char>) -> bool {
    exists|i: int| 0 <= i < entries.len() && #[trigger] entries[i].account_id@ == id
}

/// The position in `entries` that holds `id` (meaningful under uniqueness).
pub open spec fn entry_index(entries: Seq<RateLimitState>, id: Seq<char>) -> int {
    choose|i: int| 0 <= i < entries.len() && #[trigger] entries[i].account_id@ == id
}

/// Account identifiers appear at most once.
pub open spec fn entries_wf(entries: Seq<RateLimitState>) -> bool {
    forall|i: int, j: int|
        0 <= i < j < entries.len() ==> #[trigger] entries[i].account_id@ != #[trigger] entries[j].account_id@
}

/// The account map that a well-formed entry list denotes.
pub open spec fn entries_view(entries: Seq<RateLimitState>) -> Map<Seq<char>, AccountModel> {
    Map::new(
        |id: Seq<char>| has_entry(entries, id),
        |id: Seq<char>| entries[entry_index(entries, id)].model(),
    )
}

proof fn lemma_entry_index_of(entries: Seq<RateLimitState>, i: int)
    requires
        entries_wf(entries),
        0 <= i < entries.len(),
    ensures
        has_entry(entries, entries[i].account_id@),
        entry_index(entries, entries[i].account_id@) == i,
{
    let id = entries[i].account_id@;
    assert(has_entry(entries, id));
    let j = entry_index(entries, id);
    if j < i {
        assert(entries[j].account_id@ != entries[i].account_id@);
    } else if j > i {
        assert(entries[i].account_id@ != entries[j].account_id@);
    }
}

proof fn lemma_entries_update(entries: Seq<RateLimitState>, i: int, e: RateLimitState)
    requires
        entries_wf(entries),
        0 <= i < entries.len(),
        e.account_id@ == entries[i].account_id@,
    ensures
        entries_wf(entries.update(i, e)),
        entries_view(entries.update(i, e)) == entries_view(entries).insert(e.account_id@, e.model()),
{
    let n = entries.update(i, e);
    let id = e.account_id@;
    assert forall|k: int| 0 <= k < n.len() implies #[trigger] n[k].account_id@
        == entries[k].account_id@ by {}
    assert(entries_wf(n));
    let m1 = entries_view(n);
    let m2 = entries_view(entries).insert(id, e.model());
    assert forall|k: Seq<char>| #[trigger] m1.dom().contains(k) implies m2.dom().contains(k)
        && m1[k] == m2[k] by {
        let j = entry_index(n, k);
        assert(0 <= j < n.len() && n[j].account_id@ == k);
        if k == id {
            lemma_entry_index_of(n, i);
            assert(j == i);
        } else {
            assert(entries[j].account_id@ == k);
            lemma_entry_index_of(entries, j);
            assert(j != i);
        }
    }
    assert forall|k: Seq<char>| #[trigger] m2.dom().contains(k) implies m1.dom().contains(k) by {
        if k == id {
            assert(n[i].account_id@ == k);
        } else {
            let j = entry_index(entries, k);
            assert(n[j].account_id@ == k);
        }
    }
    assert(m1 =~= m2);
}

proof fn lemma_entries_push(entries: Seq<RateLimitState>, e: RateLimitState)
    requires
        entries_wf(entries),
        !has_entry(entries, e.account_id@),
    ensures
        entries_wf(entries.push(e)),
        entries_view(entries.push(e)) == entries_view(entries).insert(e.account_id@, e.model()),
{
    let n = entries.push(e);
    let id = e.account_id@;
    assert forall|i: int, j: int| 0 <= i < j < n.len() implies #[trigger] n[i].account_id@
        != #[trigger] n[j].account_id@ by {
        if j < n.len() - 1 {
            assert(entries[i].account_id@ != entries[j].account_id@);
        } else {
            assert(n[j] == e);
            if n[i].account_id@ == id {
                assert(entries[i].account_id@ == id);
                assert(has_entry(entries, id));
            }
        }
    }
    let m1 = entries_view(n);
    let m2 = entries_view(entries).insert(id, e.model());
    assert forall|k: Seq<char>| #[trigger] m1.dom().contains(k) implies m2.dom().contains(k)
        && m1[k] == m2[k] by {
        let j = entry_index(n, k);
        assert(0 <= j < n.len() && n[j].account_id@ == k);
        if k == id {
            lemma_entry_index_of(n, n.len() - 1 as int);
            assert(j == n.len() - 1);
        } else {
            assert(j < n.len() - 1);
            assert(entries[j].account_id@ == k);
            lemma_entry_index_of(entries, j);
        }
    }
    assert forall|k: Seq<char>| #[trigger] m2.dom().contains(k) implies m1.dom().contains(k) by {
        if k == id {
            assert(n[n.len() - 1 as int].account_id@ == k);
        } else {
            let j = entry_index(entries, k);
            assert(n[j].account_id@ == k);
        }
    }
    assert(m1 =~= m2);
}

/// Statuses that indicate throttling or transient unavailability; everything
/// else (notably not-found-class statuses) yields no decision.
pub open spec fn is_retryable_status(status: u16) -> bool {
    status == 429 || status == 500 || status == 502 || status == 503 || status == 504 || status
        == 529
}

/// An upstream-supplied retry-after that is taken at face value.
pub open spec fn sane_upstream_wait(v: u64) -> bool {
    1 <= v <= MAX_UPSTREAM_RETRY_AFTER_SEC
}

/// The wait drawn from the backoff table for an account with `prior`
/// consecutive failures so far.
pub open spec fn wait_from_steps(prior: u64, steps: Seq<u64>) -> u64 {
    if prior == 0 || steps.len() == 0 {
        FIRST_FAILURE_WAIT_SEC
    } else if prior - 1 < steps.len() {
        steps[prior - 1]
    } else {
        steps[steps.len() - 1]
    }
}

/// The effective wait for one classified retryable failure.
pub open spec fn wait_for(prior: u64, upstream: Option<u64>, steps: Seq<u64>) -> u64 {
    match upstream {
        Some(v) => if sane_upstream_wait(v) {
            v
        } else {
            wait_from_steps(prior, steps)
        },
        None => wait_from_steps(prior, steps),
    }
}

/// The failure count after one more consecutive failure.
pub open spec fn next_failures(prior: u64) -> u64 {
    if prior == u64::MAX {
        prior
    } else {
        (prior + 1) as u64
    }
}

/// The lock deadline, saturating at the largest representable time.
pub open spec fn deadline_for(now: i64, wait: u64) -> i64 {
    if now + wait <= i64::MAX {
        (now + wait) as i64
    } else {
        i64::MAX
    }
}

/// The failure count on record for an account, zero when unknown.
pub open spec fn prior_failures(m: Map<Seq<char>, AccountModel>, id: Seq<char>) -> u64 {
    if m.dom().contains(id) {
        m[id].failures
    } else {
        0
    }
}

/// The account holds a lock that has not expired at `now`.
pub open spec fn is_limited_at(m: Map<Seq<char>, AccountModel>, id: Seq<char>, now: i64) -> bool {
    m.dom().contains(id) && match m[id].locked_until {
        Some(t) => now < t,
        None => false,
    }
}

/// Seconds until the account's lock expires, zero when unlocked or unknown.
pub open spec fn remaining_wait_at(m: Map<Seq<char>, AccountModel>, id: Seq<char>, now: i64) -> u64 {
    if m.dom().contains(id) {
        match m[id].locked_until {
            Some(t) => if now < t {
                (t - now) as u64
            } else {
                0
            },
            None => 0,
        }
    } else {
        0
    }
}

/// Relies on `chrono::Utc::now`: the current Unix timestamp in seconds.
/// Nothing is assumed of its value.
#[verifier::external_body]
pub fn now_ts() -> i64 {
    chrono::Utc::now().timestamp()
}

fn retryable(status: u16) -> (b: bool)
    ensures
        b == is_retryable_status(status),
{
    status == 429 || status == 500 || status == 502 || status == 503 || status == 504 || status
        == 529
}

fn compute_wait(prior: u64, upstream_retry_after: Option<u64>, backoff_steps: &Vec<u64>) -> (w: u64)
    ensures
        w == wait_for(prior, upstream_retry_after, backoff_steps@),
{
    if let Some(v) = upstream_retry_after {
        if 1 <= v && v <= MAX_UPSTREAM_RETRY_AFTER_SEC {
            return v;
        }
    }
    if prior == 0 || backoff_steps.len() == 0 {
        FIRST_FAILURE_WAIT_SEC
    } else if prior - 1 < backoff_steps.len() as u64 {
        backoff_steps[(prior - 1) as usize]
    } else {
        backoff_steps[backoff_steps.len() - 1]
    }
}

/// The per-account backoff state machine. One record per account, account
/// identifiers unique; shared-state callers serialize access around it.
pub struct RateLimitTracker {
    entries: Vec<RateLimitState>,
}

impl View for RateLimitTracker {
    type V = Map<Seq<char>, AccountModel>;

    closed spec fn view(&self) -> Map<Seq<char>, AccountModel> {
        entries_view(self.entries@)
    }
}

impl RateLimitTracker {
    /// Account identifiers appear at most once in the backing store.
    pub closed spec fn wf(self) -> bool {
        entries_wf(self.entries@)
    }

    /// An empty tracker: no account is known or locked.
    pub fn new() -> (t: RateLimitTracker)
        ensures
            t.wf(),
            t@ == Map::<Seq<char>, AccountModel>::empty(),
    {
        let t = RateLimitTracker { entries: Vec::new() };
        proof {
            assert(t@ =~= Map::<Seq<char>, AccountModel>::empty());
        }
        t
    }

    fn find_index(&self, account_id: &str) -> (r: Option<usize>)
        requires
            self.wf(),
        ensures
            match r {
                Some(i) => i < self.entries@.len() && self.entries@[i as int].account_id@
                    == account_id@ && self@.dom().contains(account_id@) && self@[account_id@]
                    == self.entries@[i as int].model(),
                None => !self@.dom().contains(account_id@),
            },
    {
        let key = account_id.to_owned();
        let mut i: usize = 0;
        while i < self.entries.len()
            invariant
                self.wf(),
                i <= self.entries@.len(),
                key@ == account_id@,
                forall|j: int| 0 <= j < i ==> self.entries@[j].account_id@ != account_id@,
            decreases self.entries@.len() - i,
        {
            if self.entries[i].account_id == key {
                proof {
                    lemma_entry_index_of(self.entries@, i as int);
                }
                return Some(i);
            }
            i += 1;
        }
        None
    }

    /// Classifies one upstream failure at a given time. Not-retryable
    /// statuses decide nothing and change nothing; retryable ones lock the
    /// account until `now` plus the effective wait and advance its
    /// consecutive-failure count. Immediately after a retryable
    /// classification the remaining wait equals the decided one (unless the
    /// deadline saturated at the end of representable time).
    pub fn classify_at(
        &mut self,
        now: i64,
        account_id: &str,
        status_code: u16,
        upstream_retry_after: Option<u64>,
        message: &str,
        extra_context: Option<&str>,
        backoff_steps: &Vec<u64>,
    ) -> (r: Option<RateLimitInfo>)
        requires
            old(self).wf(),
        ensures
            final(self).wf(),
            !is_retryable_status(status_code) ==> r is None && final(self)@ == old(self)@,
            !is_retryable_status(status_code) ==> forall|id: Seq<char>, n: i64|
                is_limited_at(final(self)@, id, n) == is_limited_at(old(self)@, id, n),
            is_retryable_status(status_code) ==> ({
                let prior = prior_failures(old(self)@, account_id@);
                let wait = wait_for(prior, upstream_retry_after, backoff_steps@);
                &&& (r matches Some(info) && info.retry_after_sec == wait && info.account_id@
                    == account_id@ && info.status_code == status_code && info.message@ == message@
                    && opt_string_view(info.context) == opt_str_view(extra_context))
                &&& final(self)@ == old(self)@.insert(
                    account_id@,
                    AccountModel {
                        locked_until: Some(deadline_for(now, wait)),
                        failures: next_failures(prior),
                        last_status: status_code,
                        last_message: message@,
                    },
                )
                &&& (now + wait <= i64::MAX ==> remaining_wait_at(final(self)@, account_id@, now)
                    == wait)
            }),
    {
        if !retryable(status_code) {
            return None;
        }
        let found = self.find_index(account_id);
        let prior: u64 = match found {
            Some(i) => self.entries[i].consecutive_failure_count,
            None => 0,
        };
        let wait = compute_wait(prior, upstream_retry_after, backoff_steps);
        let deadline = match now.checked_add_unsigned(wait) {
            Some(d) => d,
            None => i64::MAX,
        };
        let new_entry = RateLimitState {
            account_id: account_id.to_owned(),
            locked_until: Some(deadline),
            consecutive_failure_count: if prior == u64::MAX {
                prior
            } else {
                prior + 1
            },
            last_status_code: status_code,
            last_message: message.to_owned(),
        };
        proof {
            assert(new_entry.model() == AccountModel {
                locked_until: Some(deadline_for(now, wait)),
                failures: next_failures(prior),
                last_status: status_code,
                last_message: message@,
            });
        }
        match found {
            Some(i) => {
                proof {
                    lemma_entries_update(self.entries@, i as int, new_entry);
                }
                self.entries.set(i, new_entry);
            },
            None => {
                proof {
                    lemma_entries_push(self.entries@, new_entry);
                }
                self.entries.push(new_entry);
            },
        }
        Some(
            RateLimitInfo {
                account_id: account_id.to_owned(),
                status_code: status_code,
                retry_after_sec: wait,
                message: message.to_owned(),
                context: match extra_context {
                    Some(s) => Some(s.to_owned()),
                    None => None,
                },
            },
        )
    }

    /// Classifies one upstream failure at the current time. The decision —
    /// whether a lock is taken, and the returned wait — does not depend on
    /// the clock; only the lock deadline does.
    pub fn parse_from_error(
        &mut self,
        account_id: &str,
        status_code: u16,
        upstream_retry_after: Option<u64>,
        message: &str,
        extra_context: Option<&str>,
        backoff_steps: &Vec<u64>,
    ) -> (r: Option<RateLimitInfo>)
        requires
            old(self).wf(),
        ensures
            final(self).wf(),
            !is_retryable_status(status_code) ==> r is None && final(self)@ == old(self)@,
            !is_retryable_status(status_code) ==> forall|id: Seq<char>, n: i64|
                is_limited_at(final(self)@, id, n) == is_limited_at(old(self)@, id, n),
            is_retryable_status(status_code) ==> ({
                let prior = prior_failures(old(self)@, account_id@);
                let wait = wait_for(prior, upstream_retry_after, backoff_steps@);
                &&& (r matches Some(info) && info.retry_after_sec == wait && info.account_id@
                    == account_id@ && info.status_code == status_code && info.message@ == message@
                    && opt_string_view(info.context) == opt_str_view(extra_context))
                &&& exists|d: i64|
                    final(self)@ == old(self)@.insert(
                        account_id@,
                        AccountModel {
                            locked_until: Some(d),
                            failures: next_failures(prior),
                            last_status: status_code,
                            last_message: message@,
                        },
                    )
            }),
    {
        let now = now_ts();
        self.classify_at(
            now,
            account_id,
            status_code,
            upstream_retry_after,
            message,
            extra_context,
            backoff_steps,
        )
    }

    /// The account holds an unexpired lock at the given time (the current
    /// time when no override is supplied). An unknown account is never
    /// limited, whatever the clock says.
    pub fn is_rate_limited(&self, account_id: &str, now_override: Option<i64>) -> (r: bool)
        requires
            self.wf(),
        ensures
            now_override matches Some(n) ==> r == is_limited_at(self@, account_id@, n),
            !self@.dom().contains(account_id@) ==> r == false,
            self@.dom().contains(account_id@) && self@[account_id@].locked_until is None ==> r
                == false,
    {
        let now = match now_override {
            Some(n) => n,
            None => now_ts(),
        };
        match self.find_index(account_id) {
            Some(i) => match self.entries[i].locked_until {
                Some(t) => now < t,
                None => false,
            },
            None => false,
        }
    }

    /// Seconds left on the account's lock at the given time (the current
    /// time when no override is supplied); zero when unlocked, expired or
    /// unknown.
    pub fn get_remaining_wait(&self, account_id: &str, now_override: Option<i64>) -> (r: u64)
        requires
            self.wf(),
        ensures
            now_override matches Some(n) ==> r == remaining_wait_at(self@, account_id@, n),
            !self@.dom().contains(account_id@) ==> r == 0,
            self@.dom().contains(account_id@) && self@[account_id@].locked_until is None ==> r
                == 0,
    {
        let now = match now_override {
            Some(n) => n,
            None => now_ts(),
        };
        match self.find_index(account_id) {
            Some(i) => match self.entries[i].locked_until {
                Some(t) => if now < t {
                    let diff: i128 = t as i128 - now as i128;
                    diff as u64
                } else {
                    0
                },
                None => 0,
            },
            None => 0,
        }
    }

    /// A successful upstream call clears the account's lock and resets its
    /// consecutive-failure count; afterwards the account is not limited at
    /// any time.
    pub fn record_success(&mut self, account_id: &str)
        requires
            old(self).wf(),
        ensures
            final(self).wf(),
            !old(self)@.dom().contains(account_id@) ==> final(self)@ == old(self)@,
            old(self)@.dom().contains(account_id@) ==> final(self)@ == old(self)@.insert(
                account_id@,
                AccountModel {
                    locked_until: None,
                    failures: 0,
                    last_status: old(self)@[account_id@].last_status,
                    last_message: old(self)@[account_id@].last_message,
                },
            ),
            forall|n: i64| !is_limited_at(final(self)@, account_id@, n),
    {
        match self.find_index(account_id) {
            Some(i) => {
                let new_entry = RateLimitState {
                    account_id: self.entries[i].account_id.clone(),
                    locked_until: None,
                    consecutive_failure_count: 0,
                    last_status_code: self.entries[i].last_status_code,
                    last_message: self.entries[i].last_message.clone(),
                };
                proof {
                    lemma_entries_update(self.entries@, i as int, new_entry);
                }
                self.entries.set(i, new_entry);
            },
            None => {},
        }
    }
}

/// Escalation law: with a sorted backoff table whose first step is no shorter
/// than the first-failure wait, and no upstream-supplied wait, two
/// consecutive retryable failures never shorten the wait, and the escalated
/// wait never exceeds the last configured step.
pub proof fn lemma_backoff_escalation(prior: u64, steps: Seq<u64>)
    requires
        steps.len() > 0,
        forall|i: int, j: int| 0 <= i <= j < steps.len() ==> #[trigger] steps[i] <= #[trigger] steps[j],
        FIRST_FAILURE_WAIT_SEC <= steps[0],
    ensures
        wait_for(prior, None, steps) <= wait_for(next_failures(prior), None, steps),
        wait_for(next_failures(prior), None, steps) <= steps[steps.len() - 1],
{
    let w1 = wait_for(prior, None, steps);
    let w2 = wait_for(next_failures(prior), None, steps);
    if prior == 0 {
        assert(w1 == FIRST_FAILURE_WAIT_SEC);
        assert(steps[0] <= steps[steps.len() - 1]);
    } else if prior == u64::MAX {
        assert(w1 == w2);
        if prior - 1 < steps.len() {
            assert(steps[prior - 1] <= steps[steps.len() - 1]);
        }
    } else {
        if prior < steps.len() {
            assert(steps[prior - 1] <= steps[prior as int]);
            assert(steps[prior as int] <= steps[steps.len() - 1]);
        } else {
            assert(steps[steps.len() - 1] <= steps[steps.len() - 1]);
            if prior - 1 < steps.len() {
                assert(prior - 1 == steps.len() - 1);
            }
        }
    }
}

} // verus!

