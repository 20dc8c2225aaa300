//! Data model: identities, release schedules, timelocks, and the account
//! record that owns them.

use vstd::prelude::*;

verus! {

/// An opaque fixed-length identity (public-key-like, 32 bytes as four
/// little-endian 64-bit words). The engine only ever compares identities
/// for equality; it never interprets their structure.
#[derive(Clone, Copy, PartialEq, Eq, Structural, Debug)]
pub struct Identity {
    pub w0: u64,
    pub w1: u64,
    pub w2: u64,
    pub w3: u64,
}

/// An immutable template describing how value unlocks over time, reusable
/// across many timelocks.
#[derive(Clone, Copy, PartialEq, Eq, Structural, Debug)]
pub struct ReleaseSchedule {
    /// Total number of discrete release events (>= 1), including any initial
    /// cliff release.
    pub release_count: u32,
    /// Seconds after commencement before anything unlocks (0 = immediate).
    pub delay_until_first_release_in_seconds: u32,
    /// Fraction of principal released at the first event, in basis points
    /// (0..=10000, where 10000 = 100%).
    pub initial_release_portion_in_bips: u32,
    /// Seconds between each release after the first (> 0 if `release_count`
    /// is more than 1).
    pub period_between_releases_in_seconds: u32,
}

/// 10000 basis points make 100%.
pub const BIPS_PRECISION: u32 = 10000;

/// No timelock accepts more than this many canceler identities.
pub const MAX_CANCELERS: usize = 10;

impl ReleaseSchedule {
    /// The schedule invariant established by schedule creation: at least one
    /// release, an initial portion of at most 100%, a non-zero period when
    /// there is more than one release, and a single release must release
    /// everything.
    pub open spec fn is_valid(self) -> bool {
        &&& self.release_count >= 1
        &&& self.initial_release_portion_in_bips <= BIPS_PRECISION
        &&& self.release_count > 1 ==> self.period_between_releases_in_seconds > 0
        &&& self.release_count == 1 ==> self.initial_release_portion_in_bips == BIPS_PRECISION
    }
}

/// A live grant of principal to one recipient, vesting under one
/// `ReleaseSchedule` (referenced by index into the owning account).
#[derive(Clone, Debug)]
pub struct Timelock {
    pub schedule_id: u32,
    pub commencement_timestamp: u32,
    /// Cumulative amount already paid out of this timelock.
    pub tokens_transferred: u32,
    /// Principal locked; fixed at creation.
    pub total_amount: u32,
    /// Up to `MAX_CANCELERS` identities authorized to cancel; empty means
    /// non-cancelable.
    pub cancelable_by: Vec<Identity>,
}

/// Mathematical model of a `Timelock`.
#[verifier::ext_equal]
pub struct TimelockModel {
    pub schedule_id: u32,
    pub commencement_timestamp: u32,
    pub tokens_transferred: u32,
    pub total_amount: u32,
    pub cancelable_by: Seq<Identity>,
}

impl View for Timelock {
    type V = TimelockModel;

    open spec fn view(&self) -> TimelockModel {
        TimelockModel {
            schedule_id: self.schedule_id,
            commencement_timestamp: self.commencement_timestamp,
            tokens_transferred: self.tokens_transferred,
            total_amount: self.total_amount,
            cancelable_by: self.cancelable_by@,
        }
    }
}

impl TimelockModel {
    /// The timelock invariant: what was paid out never exceeds the
    /// principal, and the canceler set is bounded.
    pub open spec fn is_wf(self) -> bool {
        &&& self.tokens_transferred <= self.total_amount
        &&& self.cancelable_by.len() <= MAX_CANCELERS
    }

    /// A timelock is exhausted once everything has been paid out; an
    /// exhausted timelock never unlocks further value.
    pub open spec fn is_exhausted(self) -> bool {
        self.tokens_transferred == self.total_amount
    }
}

/// An owned copy of a list of identities.
pub fn copied_identities(identities: &Vec<Identity>) -> (r: Vec<Identity>)
    ensures
        r@ == identities@,
{
    let mut copy: Vec<Identity> = Vec::new();
    let mut i: usize = 0;
    while i < identities.len()
        invariant
            i <= identities.len(),
            copy@ == identities@.subrange(0, i as int),
        decreases identities.len() - i,
    {
        copy.push(identities[i]);
        i = i + 1;
    }
    assert(copy@ == identities@);
    copy
}

impl Timelock {
    /// Replaces the canceler set.
    pub fn set_cancelable_by(&mut self, cancelable_by: &Vec<Identity>)
        ensures
            final(self)@ == (TimelockModel { cancelable_by: cancelable_by@, ..old(self)@ }),
    {
        self.cancelable_by = copied_identities(cancelable_by);
    }

    /// Whether `who` is authorized to cancel this timelock.
    pub fn has_cancelable_by(&self, who: &Identity) -> (r: bool)
        ensures
            r == self@.cancelable_by.contains(*who),
    {
        let mut i: usize = 0;
        while i < self.cancelable_by.len()
            invariant
                i <= self.cancelable_by.len(),
                forall|j: int| 0 <= j < i ==> self@.cancelable_by[j] != *who,
            decreases self.cancelable_by.len() - i,
        {
            if self.cancelable_by[i] == *who {
                return true;
            }
            i = i + 1;
        }
        false
    }
}

/// All timelocks granted to one recipient, in creation order; the position
/// in `timelocks` is the timelock index used in every lookup.
#[derive(Clone, Debug)]
pub struct TimelockEntry {
    pub recipient: Identity,
    pub timelocks: Vec<Timelock>,
}

/// Mathematical model of a `TimelockEntry`.
#[verifier::ext_equal]
pub struct TimelockEntryModel {
    pub recipient: Identity,
    pub timelocks: Seq<TimelockModel>,
}

impl View for TimelockEntry {
    type V = TimelockEntryModel;

    open spec fn view(&self) -> TimelockEntryModel {
        TimelockEntryModel {
            recipient: self.recipient,
            timelocks: self.timelocks@.map_values(|t: Timelock| t@),
        }
    }
}

/// One identity's auxiliary balance, used by the reserved bookkeeping
/// mappings.
#[derive(Clone, Copy, PartialEq, Eq, Structural, Debug)]
pub struct BalanceEntry {
    pub key: Identity,
    pub value: u32,
}

/// One identity's allowances towards other identities; reserved for future
/// accounting use.
#[derive(Clone, Debug)]
pub struct AllowanceEntry {
    pub owner: Identity,
    pub entries: Vec<BalanceEntry>,
}

/// Mathematical model of an `AllowanceEntry`.
#[verifier::ext_equal]
pub struct AllowanceEntryModel {
    pub owner: Identity,
    pub entries: Seq<BalanceEntry>,
}

impl View for AllowanceEntry {
    type V = AllowanceEntryModel;

    open spec fn view(&self) -> AllowanceEntryModel {
        AllowanceEntryModel { owner: self.owner, entries: self.entries@ }
    }
}

/// The persisted unit: owns every release schedule and every timelock of one
/// token lock instance. Schedules and timelocks are only ever appended, never
/// removed; timelocks are mutated only by cancellation.
#[derive(Clone, Debug)]
pub struct TokenLockAccount {
    /// Diagnostic counter, unrelated to vesting.
    pub counter: u32,
    /// Global cap on the cliff delay accepted when creating a schedule.
    pub max_release_delay: u32,
    /// Global floor on the principal accepted when funding a timelock.
    pub min_timelock_amount: u32,
    /// Insertion-ordered; referenced by index from timelocks.
    pub release_schedules: Vec<ReleaseSchedule>,
    /// Per-recipient timelock sequences; at most one entry per recipient.
    pub timelocks: Vec<TimelockEntry>,
    /// Reserved bookkeeping, not populated by any core operation.
    pub total_tokens_unlocked: Vec<BalanceEntry>,
    /// Reserved bookkeeping, not populated by any core operation.
    pub allowances: Vec<AllowanceEntry>,
}

/// Mathematical model of a `TokenLockAccount`.
#[verifier::ext_equal]
pub struct TokenLockAccountModel {
    pub counter: u32,
    pub max_release_delay: u32,
    pub min_timelock_amount: u32,
    pub release_schedules: Seq<ReleaseSchedule>,
    pub timelocks: Seq<TimelockEntryModel>,
    pub total_tokens_unlocked: Seq<BalanceEntry>,
    pub allowances: Seq<AllowanceEntryModel>,
}

impl View for TokenLockAccount {
    type V = TokenLockAccountModel;

    open spec fn view(&self) -> TokenLockAccountModel {
        TokenLockAccountModel {
            counter: self.counter,
            max_release_delay: self.max_release_delay,
            min_timelock_amount: self.min_timelock_amount,
            release_schedules: self.release_schedules@,
            timelocks: self.timelocks@.map_values(|e: TimelockEntry| e@),
            total_tokens_unlocked: self.total_tokens_unlocked@,
            allowances: self.allowances@.map_values(|a: AllowanceEntry| a@),
        }
    }
}

/// Mapping a view over a sequence commutes with updating one position.
pub broadcast proof fn lemma_map_values_update<A, B>(s: Seq<A>, i: int, v: A, f: spec_fn(A) -> B)
    requires
        0 <= i < s.len(),
    ensures
        #[trigger] s.update(i, v).map_values(f) == s.map_values(f).update(i, f(v)),
{
    assert(s.update(i, v).map_values(f) =~= s.map_values(f).update(i, f(v)));
}

/// Mapping a view over a sequence commutes with appending one element.
pub broadcast proof fn lemma_map_values_push<A, B>(s: Seq<A>, v: A, f: spec_fn(A) -> B)
    ensures
        #[trigger] s.push(v).map_values(f) == s.map_values(f).push(f(v)),
{
    assert(s.push(v).map_values(f) =~= s.map_values(f).push(f(v)));
}

/// Index of the first entry for `who`, or -1 when `who` has no entry.
pub open spec fn find_recipient(entries: Seq<TimelockEntryModel>, who: Identity) -> int
    decreases entries.len(),
{
    if entries.len() == 0 {
        -1
    } else if entries[0].recipient == who {
        0
    } else {
        let tail = find_recipient(entries.subrange(1, entries.len() as int), who);
        if tail < 0 {
            -1
        } else {
            tail + 1
        }
    }
}

/// What `find_recipient` returns: a position in range; the entry there (if
/// any) belongs to `who` and is the first that does; -1 means no entry does.
pub proof fn lemma_find_recipient(entries: Seq<TimelockEntryModel>, who: Identity)
    ensures
        -1 <= find_recipient(entries, who) < entries.len(),
        find_recipient(entries, who) >= 0 ==> entries[find_recipient(entries, who)].recipient
            == who,
        forall|i: int|
            0 <= i < entries.len() && i < find_recipient(entries, who)
                ==> (#[trigger] entries[i]).recipient != who,
        find_recipient(entries, who) == -1 ==> forall|i: int|
            0 <= i < entries.len() ==> (#[trigger] entries[i]).recipient != who,
    decreases entries.len(),
{
    if entries.len() == 0 {
    } else if entries[0].recipient == who {
    } else {
        let tail = entries.subrange(1, entries.len() as int);
        lemma_find_recipient(tail, who);
        let r = find_recipient(entries, who);
        let rt = find_recipient(tail, who);
        assert forall|i: int| 0 <= i < entries.len() && i < r implies (#[trigger] entries[i]).recipient
            != who by {
            if i >= 1 {
                assert(entries[i] == tail[i - 1]);
                assert(i - 1 < rt);
            }
        }
        if r == -1 {
            assert forall|i: int| 0 <= i < entries.len() implies (#[trigger] entries[i]).recipient
                != who by {
                if i >= 1 {
                    assert(entries[i] == tail[i - 1]);
                    assert(tail[i - 1].recipient != who);
                }
            }
        }
    }
}

/// The converse characterization: the first position whose entry belongs to
/// `who` is exactly what `find_recipient` returns.
pub proof fn lemma_find_recipient_is_first(
    entries: Seq<TimelockEntryModel>,
    who: Identity,
    k: int,
)
    requires
        0 <= k < entries.len(),
        entries[k].recipient == who,
        forall|i: int| 0 <= i < k ==> (#[trigger] entries[i]).recipient != who,
    ensures
        find_recipient(entries, who) == k,
    decreases entries.len(),
{
    if k == 0 {
    } else {
        let tail = entries.subrange(1, entries.len() as int);
        assert(forall|i: int| 0 <= i < tail.len() ==> #[trigger] tail[i] == entries[i + 1]);
        lemma_find_recipient_is_first(tail, who, k - 1);
    }
}

/// The timelock stored for `who` at `idx`, if any.
pub open spec fn timelock_model_at(
    m: TokenLockAccountModel,
    who: Identity,
    idx: int,
) -> Option<TimelockModel> {
    let e = find_recipient(m.timelocks, who);
    if e >= 0 && 0 <= idx < m.timelocks[e].timelocks.len() {
        Some(m.timelocks[e].timelocks[idx])
    } else {
        None
    }
}

impl TokenLockAccountModel {
    /// The account invariant: every schedule is valid, every timelock is
    /// well formed and references an existing schedule, and no recipient has
    /// more than one entry.
    pub open spec fn is_wf(self) -> bool {
        &&& forall|i: int|
            0 <= i < self.release_schedules.len()
                ==> (#[trigger] self.release_schedules[i]).is_valid()
        &&& forall|e: int, i: int|
            #![auto]
            0 <= e < self.timelocks.len() && 0 <= i < self.timelocks[e].timelocks.len() ==> {
                &&& self.timelocks[e].timelocks[i].is_wf()
                &&& self.timelocks[e].timelocks[i].schedule_id < self.release_schedules.len()
            }
        &&& forall|e1: int, e2: int|
            #![auto]
            0 <= e1 < e2 < self.timelocks.len()
                ==> self.timelocks[e1].recipient != self.timelocks[e2].recipient
    }
}

/// The account model after appending `tl` to `to`'s timelock sequence
/// (creating the sequence when `to` has none yet): the shape `add_timelock`
/// leaves behind.
pub open spec fn added_timelock_model(
    m: TokenLockAccountModel,
    to: Identity,
    tl: TimelockModel,
) -> TokenLockAccountModel {
    let e = find_recipient(m.timelocks, to);
    if e >= 0 {
        TokenLockAccountModel {
            timelocks: m.timelocks.update(e, TimelockEntryModel {
                recipient: m.timelocks[e].recipient,
                timelocks: m.timelocks[e].timelocks.push(tl),
            }),
            ..m
        }
    } else {
        TokenLockAccountModel {
            timelocks: m.timelocks.push(TimelockEntryModel { recipient: to, timelocks: seq![tl] }),
            ..m
        }
    }
}

/// The index `add_timelock` hands back for the appended timelock.
pub open spec fn added_timelock_index(m: TokenLockAccountModel, to: Identity) -> int {
    let e = find_recipient(m.timelocks, to);
    if e >= 0 {
        m.timelocks[e].timelocks.len() as int
    } else {
        0
    }
}

/// Appending a well-formed timelock that references an existing schedule
/// preserves the account invariant.
pub proof fn lemma_wf_after_add_timelock(
    m: TokenLockAccountModel,
    to: Identity,
    tl: TimelockModel,
)
    requires
        m.is_wf(),
        tl.is_wf(),
        tl.schedule_id < m.release_schedules.len(),
    ensures
        added_timelock_model(m, to, tl).is_wf(),
{
    lemma_find_recipient(m.timelocks, to);
    let e = find_recipient(m.timelocks, to);
    let nm = added_timelock_model(m, to, tl);
    assert forall|e2: int, i2: int|
        0 <= e2 < nm.timelocks.len() && 0 <= i2 < nm.timelocks[e2].timelocks.len() implies {
        &&& (#[trigger] nm.timelocks[e2].timelocks[i2]).is_wf()
        &&& nm.timelocks[e2].timelocks[i2].schedule_id < nm.release_schedules.len()
    } by {
        if e2 < m.timelocks.len() && (e < 0 || e2 != e || i2 < m.timelocks[e2].timelocks.len()) {
            assert(m.timelocks[e2].timelocks[i2].is_wf());
            assert(m.timelocks[e2].timelocks[i2].schedule_id < m.release_schedules.len());
        }
    }
    assert forall|a: int, b: int| 0 <= a < b < nm.timelocks.len() implies (
    #[trigger] nm.timelocks[a]).recipient != (#[trigger] nm.timelocks[b]).recipient by {
        if b < m.timelocks.len() {
            assert(m.timelocks[a].recipient != m.timelocks[b].recipient);
        } else {
            assert(m.timelocks[a].recipient != to);
        }
    }
}

/// The account model after replacing `to`'s timelock at `idx` with `tl`:
/// the shape a mutable lookup followed by an overwrite leaves behind.
pub open spec fn updated_timelock_model(
    m: TokenLockAccountModel,
    to: Identity,
    idx: int,
    tl: TimelockModel,
) -> TokenLockAccountModel {
    let e = find_recipient(m.timelocks, to);
    TokenLockAccountModel {
        timelocks: m.timelocks.update(e, TimelockEntryModel {
            recipient: m.timelocks[e].recipient,
            timelocks: m.timelocks[e].timelocks.update(idx, tl),
        }),
        ..m
    }
}

/// Overwriting a present timelock with a well-formed one that references an
/// existing schedule preserves the account invariant.
pub proof fn lemma_wf_after_update_timelock(
    m: TokenLockAccountModel,
    to: Identity,
    idx: int,
    tl: TimelockModel,
)
    requires
        m.is_wf(),
        tl.is_wf(),
        tl.schedule_id < m.release_schedules.len(),
        timelock_model_at(m, to, idx) is Some,
    ensures
        updated_timelock_model(m, to, idx, tl).is_wf(),
{
    lemma_find_recipient(m.timelocks, to);
    let e = find_recipient(m.timelocks, to);
    let nm = updated_timelock_model(m, to, idx, tl);
    assert forall|e2: int, i2: int|
        0 <= e2 < nm.timelocks.len() && 0 <= i2 < nm.timelocks[e2].timelocks.len() implies {
        &&& (#[trigger] nm.timelocks[e2].timelocks[i2]).is_wf()
        &&& nm.timelocks[e2].timelocks[i2].schedule_id < nm.release_schedules.len()
    } by {
        if e2 != e || i2 != idx {
            assert(m.timelocks[e2].timelocks[i2].is_wf());
            assert(m.timelocks[e2].timelocks[i2].schedule_id < m.release_schedules.len());
        }
    }
    assert forall|a: int, b: int| 0 <= a < b < nm.timelocks.len() implies (
    #[trigger] nm.timelocks[a]).recipient != (#[trigger] nm.timelocks[b]).recipient by {
        assert(m.timelocks[a].recipient != m.timelocks[b].recipient);
    }
}

impl TokenLockAccount {
    /// A fresh account record with the global caps preset and no schedules
    /// or timelocks.
    pub fn new(max_release_delay: u32, min_timelock_amount: u32) -> (account: Self)
        ensures
            account@ == (TokenLockAccountModel {
                counter: 0,
                max_release_delay,
                min_timelock_amount,
                release_schedules: Seq::empty(),
                timelocks: Seq::empty(),
                total_tokens_unlocked: Seq::empty(),
                allowances: Seq::empty(),
            }),
            account@.is_wf(),
    {
        let account = TokenLockAccount {
            counter: 0,
            max_release_delay,
            min_timelock_amount,
            release_schedules: Vec::new(),
            timelocks: Vec::new(),
            total_tokens_unlocked: Vec::new(),
            allowances: Vec::new(),
        };
        proof {
            assert(account@.timelocks =~= Seq::<TimelockEntryModel>::empty());
            assert(account@.allowances =~= Seq::<AllowanceEntryModel>::empty());
        }
        account
    }

    /// Position of `addr`'s entry in `timelocks`, if it has one.
    fn find_recipient_index(&self, addr: &Identity) -> (r: Option<usize>)
        ensures
            match r {
                Some(e) => e < self.timelocks.len()
                    && find_recipient(self@.timelocks, *addr) == e as int,
                None => find_recipient(self@.timelocks, *addr) == -1,
            },
    {
        let mut i: usize = 0;
        while i < self.timelocks.len()
            invariant
                i <= self.timelocks.len(),
                forall|j: int| 0 <= j < i ==> (#[trigger] self@.timelocks[j]).recipient != *addr,
            decreases self.timelocks.len() - i,
        {
            if self.timelocks[i].recipient == *addr {
                proof {
                    lemma_find_recipient_is_first(self@.timelocks, *addr, i as int);
                }
                return Some(i);
            }
            i = i + 1;
        }
        proof {
            lemma_find_recipient(self@.timelocks, *addr);
        }
        None
    }

    /// Decides the account invariant for a record of unknown provenance,
    /// such as one just decoded from bytes.
    pub fn is_well_formed(&self) -> (r: bool)
        ensures
            r == self@.is_wf(),
    {
        let mut i: usize = 0;
        while i < self.release_schedules.len()
            invariant
                i <= self.release_schedules.len(),
                forall|j: int|
                    0 <= j < i ==> (#[trigger] self@.release_schedules[j]).is_valid(),
            decreases self.release_schedules.len() - i,
        {
            let rs = self.release_schedules[i];
            let valid = rs.release_count >= 1 && rs.initial_release_portion_in_bips
                <= BIPS_PRECISION && (rs.release_count <= 1
                || rs.period_between_releases_in_seconds > 0) && (rs.release_count != 1
                || rs.initial_release_portion_in_bips == BIPS_PRECISION);
            if !valid {
                proof {
                    assert(!self@.release_schedules[i as int].is_valid());
                }
                return false;
            }
            i = i + 1;
        }
        let mut e: usize = 0;
        while e < self.timelocks.len()
            invariant
                e <= self.timelocks.len(),
                forall|j: int, k: int|
                    #![auto]
                    0 <= j < e && 0 <= k < self@.timelocks[j].timelocks.len() ==> {
                        &&& self@.timelocks[j].timelocks[k].is_wf()
                        &&& self@.timelocks[j].timelocks[k].schedule_id
                            < self@.release_schedules.len()
                    },
                forall|j: int, k: int|
                    #![auto]
                    0 <= j < e && j < k < self@.timelocks.len() ==> self@.timelocks[j].recipient
                        != self@.timelocks[k].recipient,
            decreases self.timelocks.len() - e,
        {
            let entry = &self.timelocks[e];
            let mut k: usize = 0;
            while k < entry.timelocks.len()
                invariant
                    k <= entry.timelocks.len(),
                    entry@ == self@.timelocks[e as int],
                    e < self.timelocks.len(),
                    forall|j: int|
                        #![auto]
                        0 <= j < k ==> {
                            &&& self@.timelocks[e as int].timelocks[j].is_wf()
                            &&& self@.timelocks[e as int].timelocks[j].schedule_id
                                < self@.release_schedules.len()
                        },
                decreases entry.timelocks.len() - k,
            {
                let t = &entry.timelocks[k];
                let ok = t.tokens_transferred <= t.total_amount && t.cancelable_by.len()
                    <= MAX_CANCELERS && (t.schedule_id as usize)
                    < self.release_schedules.len();
                if !ok {
                    proof {
                        assert(!(self@.timelocks[e as int].timelocks[k as int].is_wf()
                            && self@.timelocks[e as int].timelocks[k as int].schedule_id
                            < self@.release_schedules.len()));
                    }
                    return false;
                }
                k = k + 1;
            }
            let mut e2: usize = e + 1;
            while e2 < self.timelocks.len()
                invariant
                    e < e2 <= self.timelocks.len(),
                    e < self.timelocks.len(),
                    forall|j: int|
                        #![auto]
                        e < j < e2 ==> self@.timelocks[e as int].recipient
                            != self@.timelocks[j].recipient,
                decreases self.timelocks.len() - e2,
            {
                if self.timelocks[e].recipient == self.timelocks[e2].recipient {
                    proof {
                        assert(self@.timelocks[e as int].recipient == self@.timelocks[
                            e2 as int
                        ].recipient);
                    }
                    return false;
                }
                e2 = e2 + 1;
            }
            e = e + 1;
        }
        true
    }

    /// Appends a schedule and returns its index. No validation happens here:
    /// that is the caller's responsibility.
    pub fn add_release_schedule(&mut self, release_schedule: ReleaseSchedule) -> (idx: usize)
        ensures
            idx == old(self)@.release_schedules.len(),
            final(self)@ == (TokenLockAccountModel {
                release_schedules: old(self)@.release_schedules.push(release_schedule),
                ..old(self)@
            }),
    {
        self.release_schedules.push(release_schedule);
        self.release_schedules.len() - 1
    }

    /// Appends a timelock to `addr`'s sequence, creating the sequence when
    /// `addr` has none yet, and returns the new timelock's index.
    pub fn add_timelock(&mut self, addr: &Identity, time_lock: Timelock) -> (idx: usize)
        ensures
            ({
                let e = find_recipient(old(self)@.timelocks, *addr);
                if e >= 0 {
                    &&& idx == old(self)@.timelocks[e].timelocks.len()
                    &&& final(self)@ == (TokenLockAccountModel {
                        timelocks: old(self)@.timelocks.update(e, TimelockEntryModel {
                            recipient: old(self)@.timelocks[e].recipient,
                            timelocks: old(self)@.timelocks[e].timelocks.push(time_lock@),
                        }),
                        ..old(self)@
                    })
                } else {
                    &&& idx == 0
                    &&& final(self)@ == (TokenLockAccountModel {
                        timelocks: old(self)@.timelocks.push(TimelockEntryModel {
                            recipient: *addr,
                            timelocks: seq![time_lock@],
                        }),
                        ..old(self)@
                    })
                }
            }),
    {
        broadcast use lemma_map_values_update, lemma_map_values_push;

        let found = self.find_recipient_index(addr);
        match found {
            Some(e) => {
                let ghost old_model = self@;
                let entry = &mut self.timelocks[e];
                entry.timelocks.push(time_lock);
                let idx = entry.timelocks.len() - 1;
                proof {
                    assert(self@.timelocks =~~= old_model.timelocks.update(
                        e as int,
                        TimelockEntryModel {
                            recipient: old_model.timelocks[e as int].recipient,
                            timelocks: old_model.timelocks[e as int].timelocks.push(time_lock@),
                        },
                    ));
                }
                idx
            },
            None => {
                let ghost old_model = self@;
                let mut timelocks_for_addr: Vec<Timelock> = Vec::new();
                timelocks_for_addr.push(time_lock);
                let entry = TimelockEntry { recipient: *addr, timelocks: timelocks_for_addr };
                self.timelocks.push(entry);
                proof {
                    assert(self@.timelocks =~~= old_model.timelocks.push(
                        TimelockEntryModel { recipient: *addr, timelocks: seq![time_lock@] },
                    ));
                }
                0
            },
        }
    }

    /// Structural lookup of `addr`'s timelock at `idx`; absent when the
    /// recipient is unknown or the index is out of range.
    pub fn get_timelock(&self, addr: &Identity, idx: usize) -> (r: Option<&Timelock>)
        ensures
            (r is Some) == (timelock_model_at(self@, *addr, idx as int) is Some),
            r is Some ==> r.unwrap()@ == timelock_model_at(self@, *addr, idx as int).unwrap(),
    {
        let found = self.find_recipient_index(addr);
        match found {
            Some(e) => {
                let entry = &self.timelocks[e];
                if idx < entry.timelocks.len() {
                    Some(&entry.timelocks[idx])
                } else {
                    None
                }
            },
            None => None,
        }
    }

    /// Mutable lookup of `addr`'s timelock at `idx`. The timelock must be
    /// present; `get_timelock` answers whether it is.
    pub fn get_timelock_mut(&mut self, addr: &Identity, idx: usize) -> (t: &mut Timelock)
        requires
            timelock_model_at(old(self)@, *addr, idx as int) is Some,
        ensures
            ({
                let e = find_recipient(old(self)@.timelocks, *addr);
                &&& (*t)@ == old(self)@.timelocks[e].timelocks[idx as int]
                &&& final(self)@ == (TokenLockAccountModel {
                    timelocks: old(self)@.timelocks.update(e, TimelockEntryModel {
                        recipient: old(self)@.timelocks[e].recipient,
                        timelocks: old(self)@.timelocks[e].timelocks.update(
                            idx as int,
                            (*final(t))@,
                        ),
                    }),
                    ..old(self)@
                })
            }),
    {
        broadcast use lemma_map_values_update;

        let found = self.find_recipient_index(addr);
        let e = match found {
            Some(e) => e,
            None => {
                // never reached: the precondition says the timelock exists
                proof {
                    assert(false);
                }
                0
            },
        };
        let entry = &mut self.timelocks[e];
        &mut entry.timelocks[idx]
    }
}

} // verus!
