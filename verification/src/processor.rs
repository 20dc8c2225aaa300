//! Funding / cancellation workflow: validates inputs, orchestrates ledger
//! mutation, and enforces authorization and cancellation semantics. Every
//! validation failure is reported before any mutation: an operation either
//! applies in full or not at all.

use vstd::prelude::*;
use crate::calculator::{calculate_unlocked, unlocked_amount};
use crate::instruction::{TokenLockInstruction, TokenLockInstructionModel};
use crate::types::{
    added_timelock_index, added_timelock_model, find_recipient, lemma_find_recipient,
    lemma_find_recipient_is_first, lemma_wf_after_add_timelock, lemma_wf_after_update_timelock,
    timelock_model_at, updated_timelock_model, Identity, ReleaseSchedule, Timelock,
    TimelockEntryModel, TimelockModel, TokenLockAccount, TokenLockAccountModel, BIPS_PRECISION,
    MAX_CANCELERS,
};

verus! {

/// Why an operation was rejected. Every failure is a permanent rejection of
/// that call with those arguments; nothing is retryable.
#[derive(Clone, Copy, PartialEq, Eq, Structural, Debug)]
pub enum TokenLockError {
    /// Malformed schedule or funding parameters.
    InvalidArgument,
    /// A referenced schedule, timelock or recipient is absent.
    NotFound,
    /// The caller is not in the timelock's canceler set.
    Unauthorized,
    /// The timelock's locked balance is already zero.
    NothingToCancel,
}

/// One invocation's state handler: the caller's identity and the current
/// time as supplied by the hosting environment, the in-memory account
/// record, and whether this invocation mutated it (so the host knows to
/// persist it back).
pub struct Processor {
    /// Identity on whose behalf this invocation runs.
    pub account_key: Identity,
    /// The externally supplied current timestamp; the engine never reads a
    /// clock itself.
    pub current_time: u32,
    /// The account record being operated on.
    pub account_info: TokenLockAccount,
    /// Whether the record needs to be written back.
    pub modified: bool,
}

/// Total amount this timelock has unlocked up to `now` (0 when absent).
pub open spec fn total_unlocked_to_date_model(
    m: TokenLockAccountModel,
    who: Identity,
    idx: int,
    now: u32,
) -> int {
    match timelock_model_at(m, who, idx) {
        Some(tl) => {
            let s = m.release_schedules[tl.schedule_id as int];
            unlocked_amount(
                tl.commencement_timestamp,
                now,
                tl.total_amount,
                s.release_count,
                s.delay_until_first_release_in_seconds,
                s.initial_release_portion_in_bips,
                s.period_between_releases_in_seconds,
            )
        },
        None => 0,
    }
}

/// Unlocked-but-unpaid balance of the timelock, floored at zero.
pub open spec fn unlocked_balance_model(
    m: TokenLockAccountModel,
    who: Identity,
    idx: int,
    now: u32,
) -> int {
    match timelock_model_at(m, who, idx) {
        Some(tl) => if tl.is_exhausted() {
            0
        } else {
            let u = total_unlocked_to_date_model(m, who, idx, now);
            if u >= tl.tokens_transferred {
                u - tl.tokens_transferred
            } else {
                0
            }
        },
        None => 0,
    }
}

/// Still-locked balance of the timelock, floored at zero.
pub open spec fn locked_balance_model(
    m: TokenLockAccountModel,
    who: Identity,
    idx: int,
    now: u32,
) -> int {
    match timelock_model_at(m, who, idx) {
        Some(tl) => if tl.is_exhausted() {
            0
        } else {
            tl.total_amount - total_unlocked_to_date_model(m, who, idx, now)
        },
        None => 0,
    }
}

/// The first funding rule (beyond the canceler-count cap) that the given
/// parameters violate, if any: the amount must reach the account's floor,
/// the schedule must exist, and the amount must afford at least one token
/// unit per release event.
pub open spec fn fund_error(
    m: TokenLockAccountModel,
    amount: u32,
    schedule_id: u32,
) -> Option<TokenLockError> {
    if amount < m.min_timelock_amount {
        Some(TokenLockError::InvalidArgument)
    } else if schedule_id >= m.release_schedules.len() {
        Some(TokenLockError::NotFound)
    } else if amount < m.release_schedules[schedule_id as int].release_count {
        Some(TokenLockError::InvalidArgument)
    } else {
        None
    }
}

/// The first rule that a `fund_release_schedule` call violates, if any.
pub open spec fn fund_release_schedule_error(
    m: TokenLockAccountModel,
    cancelers: Seq<Identity>,
    amount: u32,
    schedule_id: u32,
) -> Option<TokenLockError> {
    if cancelers.len() > MAX_CANCELERS {
        Some(TokenLockError::InvalidArgument)
    } else {
        fund_error(m, amount, schedule_id)
    }
}

/// The reason a `cancel_timelock` call fails, if any: the timelock must
/// exist, the caller must be one of its cancelers, and some value must
/// still be locked.
pub open spec fn cancel_error(
    m: TokenLockAccountModel,
    caller: Identity,
    target: Identity,
    idx: int,
    now: u32,
) -> Option<TokenLockError> {
    match timelock_model_at(m, target, idx) {
        None => Some(TokenLockError::NotFound),
        Some(tl) => if !tl.cancelable_by.contains(caller) {
            Some(TokenLockError::Unauthorized)
        } else if locked_balance_model(m, target, idx, now) == 0 {
            Some(TokenLockError::NothingToCancel)
        } else {
            None
        },
    }
}

/// Whether schedule parameters violate one of the creation rules.
pub open spec fn schedule_params_invalid(
    m: TokenLockAccountModel,
    release_count: u32,
    delay: u32,
    initial_bips: u32,
    period: u32,
) -> bool {
    ||| delay > m.max_release_delay
    ||| release_count < 1
    ||| initial_bips > BIPS_PRECISION
    ||| release_count > 1 && period == 0
    ||| release_count == 1 && initial_bips < BIPS_PRECISION
}

impl Processor {
    /// Diagnostic counter increment; not part of the vesting engine proper.
    /// The counter wraps around at its maximum.
    pub fn process_greeting(&mut self) -> (r: Result<(), TokenLockError>)
        ensures
            r is Ok,
            final(self).account_info@ == (TokenLockAccountModel {
                counter: ((old(self).account_info@.counter + 1) % 0x1_0000_0000) as u32,
                ..old(self).account_info@
            }),
            final(self).modified,
            final(self).account_key == old(self).account_key,
            final(self).current_time == old(self).current_time,
            old(self).account_info@.is_wf() ==> final(self).account_info@.is_wf(),
    {
        if self.account_info.counter == u32::MAX {
            self.account_info.counter = 0;
        } else {
            self.account_info.counter = self.account_info.counter + 1;
        }
        self.modified = true;
        Ok(())
    }

    /// Validates schedule parameters in order and appends the schedule on
    /// success; fails with `InvalidArgument` on the first violated rule and
    /// then mutates nothing.
    pub fn process_create_release_schedule(
        &mut self,
        release_count: u32,
        delay_until_first_release_in_seconds: u32,
        initial_release_portion_in_bips: u32,
        period_between_releases_in_seconds: u32,
    ) -> (r: Result<(), TokenLockError>)
        ensures
            (r is Err) == schedule_params_invalid(
                old(self).account_info@,
                release_count,
                delay_until_first_release_in_seconds,
                initial_release_portion_in_bips,
                period_between_releases_in_seconds,
            ),
            r is Err ==> r == Result::<(), TokenLockError>::Err(TokenLockError::InvalidArgument)
                && final(self).account_info@ == old(self).account_info@
                && final(self).modified == old(self).modified,
            r is Ok ==> final(self).account_info@ == (TokenLockAccountModel {
                release_schedules: old(self).account_info@.release_schedules.push(
                    ReleaseSchedule {
                        release_count,
                        delay_until_first_release_in_seconds,
                        initial_release_portion_in_bips,
                        period_between_releases_in_seconds,
                    },
                ),
                ..old(self).account_info@
            }) && final(self).modified,
            final(self).account_key == old(self).account_key,
            final(self).current_time == old(self).current_time,
            old(self).account_info@.is_wf() ==> final(self).account_info@.is_wf(),
    {
        if delay_until_first_release_in_seconds > self.account_info.max_release_delay {
            return Err(TokenLockError::InvalidArgument);
        }
        if release_count < 1 {
            return Err(TokenLockError::InvalidArgument);
        }
        if initial_release_portion_in_bips > BIPS_PRECISION {
            return Err(TokenLockError::InvalidArgument);
        }
        if release_count > 1 && period_between_releases_in_seconds == 0 {
            return Err(TokenLockError::InvalidArgument);
        }
        if release_count == 1 && initial_release_portion_in_bips < BIPS_PRECISION {
            return Err(TokenLockError::InvalidArgument);
        }
        let schedule = ReleaseSchedule {
            release_count,
            delay_until_first_release_in_seconds,
            initial_release_portion_in_bips,
            period_between_releases_in_seconds,
        };
        let ghost old_model = self.account_info@;
        self.account_info.add_release_schedule(schedule);
        self.modified = true;
        proof {
            if old_model.is_wf() {
                assert forall|i: int|
                    0 <= i < self.account_info@.release_schedules.len() implies (
                #[trigger] self.account_info@.release_schedules[i]).is_valid() by {
                    if i < old_model.release_schedules.len() {
                        assert(old_model.release_schedules[i].is_valid());
                    }
                }
            }
        }
        Ok(())
    }

    /// Creates and appends the timelock for a funding request once the
    /// canceler list has been checked; validates the amount against the
    /// account floor and the referenced schedule.
    fn fund(
        &mut self,
        to: &Identity,
        amount: u32,
        commencement_timestamp: u32,
        schedule_id: u32,
    ) -> (r: Result<usize, TokenLockError>)
        requires
            old(self).account_info@.is_wf(),
        ensures
            match fund_error(old(self).account_info@, amount, schedule_id) {
                Some(err) => r == Result::<usize, TokenLockError>::Err(err)
                    && final(self).account_info@ == old(self).account_info@
                    && final(self).modified == old(self).modified,
                None => {
                    &&& r matches Ok(i) && i as int == added_timelock_index(
                        old(self).account_info@,
                        *to,
                    )
                    &&& final(self).account_info@ == added_timelock_model(
                        old(self).account_info@,
                        *to,
                        TimelockModel {
                            schedule_id,
                            commencement_timestamp,
                            tokens_transferred: 0,
                            total_amount: amount,
                            cancelable_by: Seq::empty(),
                        },
                    )
                    &&& final(self).modified
                },
            },
            final(self).account_key == old(self).account_key,
            final(self).current_time == old(self).current_time,
            final(self).account_info@.is_wf(),
    {
        if amount < self.account_info.min_timelock_amount {
            return Err(TokenLockError::InvalidArgument);
        }
        let schedule_count = self.account_info.release_schedules.len();
        if schedule_id as usize >= schedule_count {
            return Err(TokenLockError::NotFound);
        }
        if amount < self.account_info.release_schedules[schedule_id as usize].release_count {
            return Err(TokenLockError::InvalidArgument);
        }
        let timelock = Timelock {
            schedule_id,
            commencement_timestamp,
            tokens_transferred: 0,
            total_amount: amount,
            cancelable_by: Vec::new(),
        };
        let ghost old_model = self.account_info@;
        let idx = self.account_info.add_timelock(to, timelock);
        self.modified = true;
        proof {
            lemma_find_recipient(old_model.timelocks, *to);
            lemma_wf_after_add_timelock(
                old_model,
                *to,
                TimelockModel {
                    schedule_id,
                    commencement_timestamp,
                    tokens_transferred: 0,
                    total_amount: amount,
                    cancelable_by: Seq::empty(),
                },
            );
        }
        Ok(idx)
    }

    /// Funds the programmatic release of tokens to recipient `to` under the
    /// schedule `schedule_id`, starting at `commencement_timestamp`, with an
    /// optional set of identities allowed to cancel the grant. The custody
    /// transfer of `amount` itself is the hosting environment's business and
    /// is assumed already settled when this succeeds.
    pub fn fund_release_schedule(
        &mut self,
        to: &Identity,
        amount: u32,
        commencement_timestamp: u32,
        schedule_id: u32,
        cancelable_by: &Vec<Identity>,
    ) -> (r: Result<(), TokenLockError>)
        requires
            old(self).account_info@.is_wf(),
        ensures
            match fund_release_schedule_error(
                old(self).account_info@,
                cancelable_by@,
                amount,
                schedule_id,
            ) {
                Some(err) => r == Result::<(), TokenLockError>::Err(err)
                    && final(self).account_info@ == old(self).account_info@
                    && final(self).modified == old(self).modified,
                None => {
                    &&& r is Ok
                    &&& final(self).account_info@ == added_timelock_model(
                        old(self).account_info@,
                        *to,
                        TimelockModel {
                            schedule_id,
                            commencement_timestamp,
                            tokens_transferred: 0,
                            total_amount: amount,
                            cancelable_by: cancelable_by@,
                        },
                    )
                    &&& final(self).modified
                },
            },
            final(self).account_key == old(self).account_key,
            final(self).current_time == old(self).current_time,
            final(self).account_info@.is_wf(),
    {
        if cancelable_by.len() > MAX_CANCELERS {
            return Err(TokenLockError::InvalidArgument);
        }
        let ghost m = self.account_info@;
        let ghost tl_final = TimelockModel {
            schedule_id,
            commencement_timestamp,
            tokens_transferred: 0,
            total_amount: amount,
            cancelable_by: cancelable_by@,
        };
        let timelock_id = match self.fund(to, amount, commencement_timestamp, schedule_id) {
            Ok(idx) => idx,
            Err(err) => {
                return Err(err);
            },
        };
        proof {
            lemma_find_recipient(m.timelocks, *to);
            let e = find_recipient(m.timelocks, *to);
            let m1 = self.account_info@;
            if e >= 0 {
                assert forall|i: int| 0 <= i < e implies (#[trigger] m1.timelocks[i]).recipient
                    != *to by {
                    assert(m.timelocks[i].recipient != *to);
                }
                lemma_find_recipient_is_first(m1.timelocks, *to, e);
            } else {
                assert forall|i: int|
                    0 <= i < m.timelocks.len() implies (#[trigger] m1.timelocks[i]).recipient
                    != *to by {
                    assert(m.timelocks[i].recipient != *to);
                }
                lemma_find_recipient_is_first(m1.timelocks, *to, m.timelocks.len() as int);
            }
        }
        let ghost m1 = self.account_info@;
        let has_cancelers = cancelable_by.len() > 0;
        if has_cancelers {
            let cancelers = crate::types::copied_identities(cancelable_by);
            let t = self.account_info.get_timelock_mut(to, timelock_id);
            t.cancelable_by = cancelers;
        }
        proof {
            let e = find_recipient(m.timelocks, *to);
            if has_cancelers {
                if e >= 0 {
                    assert(self.account_info@.timelocks =~~= m.timelocks.update(
                        e,
                        TimelockEntryModel {
                            recipient: m.timelocks[e].recipient,
                            timelocks: m.timelocks[e].timelocks.push(tl_final),
                        },
                    ));
                } else {
                    assert(self.account_info@.timelocks =~~= m.timelocks.push(
                        TimelockEntryModel { recipient: *to, timelocks: seq![tl_final] },
                    ));
                }
            } else {
                assert(cancelable_by@ =~= Seq::<Identity>::empty());
            }
            lemma_wf_after_add_timelock(m, *to, tl_final);
        }
        Ok(())
    }

    /// Cancels a cancelable timelock: the still-locked value is reclaimed
    /// (conceptually to `reclaim_token_to`) and the unlocked remainder goes
    /// to the recipient — both transfers are the hosting environment's
    /// business — and the timelock is marked permanently exhausted.
    /// Irreversible: a canceled timelock cannot unlock further value.
    pub fn cancel_timelock(
        &mut self,
        target: &Identity,
        timelock_index: u32,
        reclaim_token_to: &Identity,
    ) -> (r: Result<(), TokenLockError>)
        requires
            old(self).account_info@.is_wf(),
        ensures
            match cancel_error(
                old(self).account_info@,
                old(self).account_key,
                *target,
                timelock_index as int,
                old(self).current_time,
            ) {
                Some(err) => r == Result::<(), TokenLockError>::Err(err)
                    && final(self).account_info@ == old(self).account_info@
                    && final(self).modified == old(self).modified,
                None => {
                    &&& r is Ok
                    &&& final(self).account_info@ == updated_timelock_model(
                        old(self).account_info@,
                        *target,
                        timelock_index as int,
                        TimelockModel {
                            tokens_transferred: timelock_model_at(
                                old(self).account_info@,
                                *target,
                                timelock_index as int,
                            ).unwrap().total_amount,
                            ..timelock_model_at(
                                old(self).account_info@,
                                *target,
                                timelock_index as int,
                            ).unwrap()
                        },
                    )
                    &&& final(self).modified
                },
            },
            final(self).account_key == old(self).account_key,
            final(self).current_time == old(self).current_time,
            final(self).account_info@.is_wf(),
    {
        let can_cancel = match self.account_info.get_timelock(target, timelock_index as usize) {
            Some(timelock) => timelock.has_cancelable_by(&self.account_key),
            None => {
                return Err(TokenLockError::NotFound);
            },
        };
        if !can_cancel {
            return Err(TokenLockError::Unauthorized);
        }
        let canceled_amount = self.locked_balance_of_timelock(target, timelock_index);
        if canceled_amount == 0 {
            return Err(TokenLockError::NothingToCancel);
        }
        let ghost m = self.account_info@;
        proof {
            lemma_find_recipient(m.timelocks, *target);
        }
        let t = self.account_info.get_timelock_mut(target, timelock_index as usize);
        let total = t.total_amount;
        t.tokens_transferred = total;
        self.modified = true;
        proof {
            lemma_wf_after_update_timelock(
                m,
                *target,
                timelock_index as int,
                TimelockModel {
                    tokens_transferred: timelock_model_at(
                        m,
                        *target,
                        timelock_index as int,
                    ).unwrap().total_amount,
                    ..timelock_model_at(m, *target, timelock_index as int).unwrap()
                },
            );
        }
        Ok(())
    }

    /// Dispatches one decoded operation to the matching workflow step. The
    /// hosting environment decodes the request and the account record, runs
    /// this, and persists the record back only when `modified` reports so.
    pub fn process_instruction(&mut self, instruction: &TokenLockInstruction) -> (r: Result<
        (),
        TokenLockError,
    >)
        requires
            old(self).account_info@.is_wf(),
        ensures
            final(self).account_key == old(self).account_key,
            final(self).current_time == old(self).current_time,
            final(self).account_info@.is_wf(),
            (match instruction@ {
                TokenLockInstructionModel::Greeting => r is Ok && final(self).modified && final(self).account_info@ == (TokenLockAccountModel {
                    counter: ((old(self).account_info@.counter + 1) % 0x1_0000_0000) as u32,
                    ..old(self).account_info@
                }),
                TokenLockInstructionModel::CreateReleaseSchedule(a, b, c, d) => {
                    if schedule_params_invalid(old(self).account_info@, a, b, c, d) {
                        r == Result::<(), TokenLockError>::Err(TokenLockError::InvalidArgument)
                            && final(self).account_info@ == old(self).account_info@
                            && final(self).modified == old(self).modified
                    } else {
                        r is Ok && final(self).modified && final(self).account_info@ == (
                        TokenLockAccountModel {
                            release_schedules: old(self).account_info@.release_schedules.push(
                                ReleaseSchedule {
                                    release_count: a,
                                    delay_until_first_release_in_seconds: b,
                                    initial_release_portion_in_bips: c,
                                    period_between_releases_in_seconds: d,
                                },
                            ),
                            ..old(self).account_info@
                        })
                    }
                },
                TokenLockInstructionModel::FundReleaseSchedule {
                    to,
                    amount,
                    commencement_timestamp,
                    schedule_id,
                    cancelable_by,
                } => {
                    match fund_release_schedule_error(
                        old(self).account_info@,
                        cancelable_by,
                        amount,
                        schedule_id,
                    ) {
                        Some(err) => r == Result::<(), TokenLockError>::Err(err) && final(self).account_info@ == old(self).account_info@ && final(self).modified == old(self).modified,
                        None => r is Ok && final(self).modified && final(self).account_info@
                            == added_timelock_model(
                            old(self).account_info@,
                            to,
                            TimelockModel {
                                schedule_id,
                                commencement_timestamp,
                                tokens_transferred: 0,
                                total_amount: amount,
                                cancelable_by,
                            },
                        ),
                    }
                },
                TokenLockInstructionModel::CancelTimelock {
                    target,
                    timelock_index,
                    reclaim_token_to,
                } => {
                    match cancel_error(
                        old(self).account_info@,
                        old(self).account_key,
                        target,
                        timelock_index as int,
                        old(self).current_time,
                    ) {
                        Some(err) => r == Result::<(), TokenLockError>::Err(err) && final(self).account_info@ == old(self).account_info@ && final(self).modified == old(self).modified,
                        None => r is Ok && final(self).modified && final(self).account_info@
                            == updated_timelock_model(
                            old(self).account_info@,
                            target,
                            timelock_index as int,
                            TimelockModel {
                                tokens_transferred: timelock_model_at(
                                    old(self).account_info@,
                                    target,
                                    timelock_index as int,
                                ).unwrap().total_amount,
                                ..timelock_model_at(
                                    old(self).account_info@,
                                    target,
                                    timelock_index as int,
                                ).unwrap()
                            },
                        ),
                    }
                },
            }),
    {
        match instruction {
            TokenLockInstruction::Greeting => self.process_greeting(),
            TokenLockInstruction::CreateReleaseSchedule(a, b, c, d) =>
                self.process_create_release_schedule(*a, *b, *c, *d),
            TokenLockInstruction::FundReleaseSchedule {
                to,
                amount,
                commencement_timestamp,
                schedule_id,
                cancelable_by,
            } => self.fund_release_schedule(
                to,
                *amount,
                *commencement_timestamp,
                *schedule_id,
                cancelable_by,
            ),
            TokenLockInstruction::CancelTimelock {
                target,
                timelock_index,
                reclaim_token_to,
            } => self.cancel_timelock(target, *timelock_index, reclaim_token_to),
        }
    }

    /// Total amount unlocked to date for `who`'s timelock at
    /// `timelock_index`, by the vesting calculator, at the invocation's
    /// current time; 0 when the timelock is absent.
    pub fn total_unlocked_to_date_of_timelock(&self, who: &Identity, timelock_index: u32) -> (r:
        u32)
        requires
            self.account_info@.is_wf(),
        ensures
            r == total_unlocked_to_date_model(
                self.account_info@,
                *who,
                timelock_index as int,
                self.current_time,
            ),
            timelock_model_at(self.account_info@, *who, timelock_index as int) matches Some(tl)
                ==> r <= tl.total_amount,
    {
        match self.account_info.get_timelock(who, timelock_index as usize) {
            Some(timelock) => {
                proof {
                    let m = self.account_info@;
                    lemma_find_recipient(m.timelocks, *who);
                    let e = find_recipient(m.timelocks, *who);
                    let tl = m.timelocks[e].timelocks[timelock_index as int];
                    assert(tl.is_wf() && tl.schedule_id < m.release_schedules.len());
                    assert(m.release_schedules[tl.schedule_id as int].is_valid());
                }
                let schedule = self.account_info.release_schedules[timelock.schedule_id as usize];
                calculate_unlocked(
                    timelock.commencement_timestamp,
                    self.current_time,
                    timelock.total_amount,
                    &schedule,
                )
            },
            None => 0,
        }
    }

    /// Unlocked-but-unpaid balance of `who`'s timelock at `timelock_index`:
    /// what the calculator has released so far minus what was already paid
    /// out, floored at zero; 0 when absent or exhausted.
    pub fn unlocked_balance_of_timelock(&self, who: &Identity, timelock_index: u32) -> (r: u32)
        requires
            self.account_info@.is_wf(),
        ensures
            r == unlocked_balance_model(
                self.account_info@,
                *who,
                timelock_index as int,
                self.current_time,
            ),
    {
        match self.account_info.get_timelock(who, timelock_index as usize) {
            Some(timelock) => {
                proof {
                    lemma_find_recipient(self.account_info@.timelocks, *who);
                }
                if timelock.total_amount <= timelock.tokens_transferred {
                    0
                } else {
                    let transferred = timelock.tokens_transferred;
                    let unlocked = self.total_unlocked_to_date_of_timelock(who, timelock_index);
                    if unlocked >= transferred {
                        unlocked - transferred
                    } else {
                        0
                    }
                }
            },
            None => 0,
        }
    }

    /// Still-locked balance of `who`'s timelock at `timelock_index`: the
    /// principal minus what the calculator has released so far; 0 when
    /// absent or exhausted.
    pub fn locked_balance_of_timelock(&self, who: &Identity, timelock_index: u32) -> (r: u32)
        requires
            self.account_info@.is_wf(),
        ensures
            r == locked_balance_model(
                self.account_info@,
                *who,
                timelock_index as int,
                self.current_time,
            ),
    {
        match self.account_info.get_timelock(who, timelock_index as usize) {
            Some(timelock) => {
                proof {
                    lemma_find_recipient(self.account_info@.timelocks, *who);
                }
                if timelock.total_amount <= timelock.tokens_transferred {
                    0
                } else {
                    let total = timelock.total_amount;
                    let unlocked = self.total_unlocked_to_date_of_timelock(who, timelock_index);
                    assert(unlocked <= total);
                    total - unlocked
                }
            },
            None => 0,
        }
    }
}

} // verus!
