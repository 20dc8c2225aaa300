//! Operation requests: the tagged union the external dispatcher hands to
//! the workflow, and its deterministic wire format (a one-byte tag followed
//! by the payload fields in declaration order).

use vstd::prelude::*;
use crate::codec::{
    dec_identity, dec_identity_list, dec_u32, enc_identity, enc_identity_list, enc_u32,
    push_identity, push_identity_list, push_u32, read_identity, read_identity_list, read_u32,
};
use crate::types::Identity;

verus! {

/// One incoming operation.
#[derive(Clone, Debug)]
pub enum TokenLockInstruction {
    /// Diagnostic counter increment.
    Greeting,
    /// Create a release schedule: release count, cliff delay in seconds,
    /// initial release portion in bips, period between releases in seconds.
    CreateReleaseSchedule(u32, u32, u32, u32),
    /// Fund a timelock for a recipient.
    FundReleaseSchedule {
        to: Identity,
        amount: u32,
        commencement_timestamp: u32,
        schedule_id: u32,
        cancelable_by: Vec<Identity>,
    },
    /// Cancel a cancelable timelock.
    CancelTimelock { target: Identity, timelock_index: u32, reclaim_token_to: Identity },
}

/// Mathematical model of a `TokenLockInstruction`.
#[verifier::ext_equal]
pub enum TokenLockInstructionModel {
    Greeting,
    CreateReleaseSchedule(u32, u32, u32, u32),
    FundReleaseSchedule {
        to: Identity,
        amount: u32,
        commencement_timestamp: u32,
        schedule_id: u32,
        cancelable_by: Seq<Identity>,
    },
    CancelTimelock { target: Identity, timelock_index: u32, reclaim_token_to: Identity },
}

impl View for TokenLockInstruction {
    type V = TokenLockInstructionModel;

    open spec fn view(&self) -> TokenLockInstructionModel {
        match self {
            TokenLockInstruction::Greeting => TokenLockInstructionModel::Greeting,
            TokenLockInstruction::CreateReleaseSchedule(a, b, c, d) =>
                TokenLockInstructionModel::CreateReleaseSchedule(*a, *b, *c, *d),
            TokenLockInstruction::FundReleaseSchedule {
                to,
                amount,
                commencement_timestamp,
                schedule_id,
                cancelable_by,
            } => TokenLockInstructionModel::FundReleaseSchedule {
                to: *to,
                amount: *amount,
                commencement_timestamp: *commencement_timestamp,
                schedule_id: *schedule_id,
                cancelable_by: cancelable_by@,
            },
            TokenLockInstruction::CancelTimelock {
                target,
                timelock_index,
                reclaim_token_to,
            } => TokenLockInstructionModel::CancelTimelock {
                target: *target,
                timelock_index: *timelock_index,
                reclaim_token_to: *reclaim_token_to,
            },
        }
    }
}

/// An instruction whose canceler count fits the 32-bit count prefix.
pub open spec fn encodable_instruction(m: TokenLockInstructionModel) -> bool {
    match m {
        TokenLockInstructionModel::FundReleaseSchedule { cancelable_by, .. } =>
            cancelable_by.len() <= 0xffff_ffff,
        _ => true,
    }
}

/// The wire bytes of an operation: a one-byte tag, then its payload fields.
pub open spec fn enc_instruction(m: TokenLockInstructionModel) -> Seq<u8> {
    match m {
        TokenLockInstructionModel::Greeting => seq![0u8],
        TokenLockInstructionModel::CreateReleaseSchedule(a, b, c, d) => seq![1u8] + enc_u32(a)
            + enc_u32(b) + enc_u32(c) + enc_u32(d),
        TokenLockInstructionModel::FundReleaseSchedule {
            to,
            amount,
            commencement_timestamp,
            schedule_id,
            cancelable_by,
        } => seq![2u8] + enc_identity(to) + enc_u32(amount) + enc_u32(commencement_timestamp)
            + enc_u32(schedule_id) + enc_identity_list(cancelable_by),
        TokenLockInstructionModel::CancelTimelock {
            target,
            timelock_index,
            reclaim_token_to,
        } => seq![3u8] + enc_identity(target) + enc_u32(timelock_index) + enc_identity(
            reclaim_token_to,
        ),
    }
}

/// Reads an operation at `i`.
pub open spec fn dec_instruction(s: Seq<u8>, i: int) -> Option<(TokenLockInstructionModel, int)> {
    if 0 <= i < s.len() {
        if s[i] == 0u8 {
            Some((TokenLockInstructionModel::Greeting, i + 1))
        } else if s[i] == 1u8 {
            match dec_u32(s, i + 1) {
                Some((a, j0)) => match dec_u32(s, j0) {
                    Some((b, j1)) => match dec_u32(s, j1) {
                        Some((c, j2)) => match dec_u32(s, j2) {
                            Some((d, j3)) => Some(
                                (TokenLockInstructionModel::CreateReleaseSchedule(a, b, c, d), j3),
                            ),
                            None => None,
                        },
                        None => None,
                    },
                    None => None,
                },
                None => None,
            }
        } else if s[i] == 2u8 {
            match dec_identity(s, i + 1) {
                Some((to, j0)) => match dec_u32(s, j0) {
                    Some((amount, j1)) => match dec_u32(s, j1) {
                        Some((commencement_timestamp, j2)) => match dec_u32(s, j2) {
                            Some((schedule_id, j3)) => match dec_identity_list(s, j3) {
                                Some((cancelable_by, j4)) => Some(
                                    (
                                        TokenLockInstructionModel::FundReleaseSchedule {
                                            to,
                                            amount,
                                            commencement_timestamp,
                                            schedule_id,
                                            cancelable_by,
                                        },
                                        j4,
                                    ),
                                ),
                                None => None,
                            },
                            None => None,
                        },
                        None => None,
                    },
                    None => None,
                },
                None => None,
            }
        } else if s[i] == 3u8 {
            match dec_identity(s, i + 1) {
                Some((target, j0)) => match dec_u32(s, j0) {
                    Some((timelock_index, j1)) => match dec_identity(s, j1) {
                        Some((reclaim_token_to, j2)) => Some(
                            (
                                TokenLockInstructionModel::CancelTimelock {
                                    target,
                                    timelock_index,
                                    reclaim_token_to,
                                },
                                j2,
                            ),
                        ),
                        None => None,
                    },
                    None => None,
                },
                None => None,
            }
        } else {
            None
        }
    } else {
        None
    }
}

/// Decodes a whole buffer as one operation; the operation must take up the
/// buffer exactly.
pub open spec fn decode_instruction_bytes(s: Seq<u8>) -> Option<TokenLockInstructionModel> {
    match dec_instruction(s, 0) {
        Some((m, j)) => if j == s.len() {
            Some(m)
        } else {
            None
        },
        None => None,
    }
}

/// Serializes an operation into its wire bytes.
pub fn encode_instruction(instruction: &TokenLockInstruction) -> (r: Vec<u8>)
    requires
        encodable_instruction(instruction@),
    ensures
        r@ == enc_instruction(instruction@),
{
    let mut out: Vec<u8> = Vec::new();
    match instruction {
        TokenLockInstruction::Greeting => {
            out.push(0u8);
            proof {
                assert(out@ =~= enc_instruction(instruction@));
            }
        },
        TokenLockInstruction::CreateReleaseSchedule(a, b, c, d) => {
            out.push(1u8);
            push_u32(&mut out, *a);
            push_u32(&mut out, *b);
            push_u32(&mut out, *c);
            push_u32(&mut out, *d);
            proof {
                assert(out@ =~= enc_instruction(instruction@));
            }
        },
        TokenLockInstruction::FundReleaseSchedule {
            to,
            amount,
            commencement_timestamp,
            schedule_id,
            cancelable_by,
        } => {
            out.push(2u8);
            push_identity(&mut out, to);
            push_u32(&mut out, *amount);
            push_u32(&mut out, *commencement_timestamp);
            push_u32(&mut out, *schedule_id);
            push_identity_list(&mut out, cancelable_by);
            proof {
                assert(out@ =~= enc_instruction(instruction@));
            }
        },
        TokenLockInstruction::CancelTimelock { target, timelock_index, reclaim_token_to } => {
            out.push(3u8);
            push_identity(&mut out, target);
            push_u32(&mut out, *timelock_index);
            push_identity(&mut out, reclaim_token_to);
            proof {
                assert(out@ =~= enc_instruction(instruction@));
            }
        },
    }
    out
}

/// Deserializes an operation; it must take up the buffer exactly.
pub fn decode_instruction(s: &Vec<u8>) -> (r: Option<TokenLockInstruction>)
    ensures
        match r {
            Some(instruction) => decode_instruction_bytes(s@) == Some(instruction@),
            None => decode_instruction_bytes(s@) is None,
        },
{
    if s.len() == 0 {
        return None;
    }
    let tag = s[0];
    if tag == 0u8 {
        if s.len() != 1 {
            return None;
        }
        Some(TokenLockInstruction::Greeting)
    } else if tag == 1u8 {
        let (a, j0) = match read_u32(s, 1) {
            Some(x) => x,
            None => {
                return None;
            },
        };
        let (b, j1) = match read_u32(s, j0) {
            Some(x) => x,
            None => {
                return None;
            },
        };
        let (c, j2) = match read_u32(s, j1) {
            Some(x) => x,
            None => {
                return None;
            },
        };
        let (d, j3) = match read_u32(s, j2) {
            Some(x) => x,
            None => {
                return None;
            },
        };
        if j3 != s.len() {
            return None;
        }
        Some(TokenLockInstruction::CreateReleaseSchedule(a, b, c, d))
    } else if tag == 2u8 {
        let (to, j0) = match read_identity(s, 1) {
            Some(x) => x,
            None => {
                return None;
            },
        };
        let (amount, j1) = match read_u32(s, j0) {
            Some(x) => x,
            None => {
                return None;
            },
        };
        let (commencement_timestamp, j2) = match read_u32(s, j1) {
            Some(x) => x,
            None => {
                return None;
            },
        };
        let (schedule_id, j3) = match read_u32(s, j2) {
            Some(x) => x,
            None => {
                return None;
            },
        };
        let (cancelable_by, j4) = match read_identity_list(s, j3) {
            Some(x) => x,
            None => {
                return None;
            },
        };
        if j4 != s.len() {
            return None;
        }
        Some(
            TokenLockInstruction::FundReleaseSchedule {
                to,
                amount,
                commencement_timestamp,
                schedule_id,
                cancelable_by,
            },
        )
    } else if tag == 3u8 {
        let (target, j0) = match read_identity(s, 1) {
            Some(x) => x,
            None => {
                return None;
            },
        };
        let (timelock_index, j1) = match read_u32(s, j0) {
            Some(x) => x,
            None => {
                return None;
            },
        };
        let (reclaim_token_to, j2) = match read_identity(s, j1) {
            Some(x) => x,
            None => {
                return None;
            },
        };
        if j2 != s.len() {
            return None;
        }
        Some(TokenLockInstruction::CancelTimelock { target, timelock_index, reclaim_token_to })
    } else {
        None
    }
}

impl TokenLockInstruction {
    /// The wire bytes of a `Greeting` request.
    pub fn greeting() -> (r: Vec<u8>)
        ensures
            r@ == enc_instruction(TokenLockInstructionModel::Greeting),
    {
        let data = TokenLockInstruction::Greeting;
        encode_instruction(&data)
    }

    /// The wire bytes of a `CreateReleaseSchedule` request.
    #[allow(non_snake_case)]
    pub fn createReleaseSchedule(
        release_count: u32,
        delay_until_first_release_in_seconds: u32,
        initial_release_portion_in_bips: u32,
        period_between_releases_in_seconds: u32,
    ) -> (r: Vec<u8>)
        ensures
            r@ == enc_instruction(
                TokenLockInstructionModel::CreateReleaseSchedule(
                    release_count,
                    delay_until_first_release_in_seconds,
                    initial_release_portion_in_bips,
                    period_between_releases_in_seconds,
                ),
            ),
    {
        let data = TokenLockInstruction::CreateReleaseSchedule(
            release_count,
            delay_until_first_release_in_seconds,
            initial_release_portion_in_bips,
            period_between_releases_in_seconds,
        );
        encode_instruction(&data)
    }
}

} // verus!
