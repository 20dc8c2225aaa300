use tokenlock::codec::{decode_account, encode_account};
use tokenlock::instruction::{decode_instruction, encode_instruction, TokenLockInstruction};
use tokenlock::processor::Processor;
use tokenlock::types::{Identity, TokenLockAccount};

fn id(n: u64) -> Identity {
    Identity { w0: n, w1: 0, w2: 0, w3: 0 }
}

#[test]
fn pack_unpack() {
    let mint = TokenLockInstruction::Greeting;
    let packed = encode_instruction(&mint);
    assert_eq!(hex::encode(packed), "00");
}

#[test]
fn create_release_schedule_request_bytes() {
    let packed = TokenLockInstruction::createReleaseSchedule(2, 3, 4, 5);
    assert_eq!(hex::encode(packed), "0102000000030000000400000005000000");
}

#[test]
fn greeting_request_bytes() {
    assert_eq!(TokenLockInstruction::greeting(), vec![0u8]);
}

#[test]
fn account_round_trip() {
    // a record with one schedule and one timelock with a non-empty canceler
    // set
    let account = TokenLockAccount::new(3650, 100);
    let mut p = Processor { account_key: id(1), current_time: 0, account_info: account, modified: false };
    assert_eq!(p.process_create_release_schedule(4, 100, 2500, 100), Ok(()));
    assert_eq!(p.fund_release_schedule(&id(2), 1000, 7, 0, &vec![id(1), id(9)]), Ok(()));
    assert_eq!(p.process_greeting(), Ok(()));

    let bytes = encode_account(&p.account_info);
    let decoded = decode_account(&bytes).expect("decodes");

    assert_eq!(decoded.counter, 1);
    assert_eq!(decoded.max_release_delay, 3650);
    assert_eq!(decoded.min_timelock_amount, 100);
    assert_eq!(decoded.release_schedules.len(), 1);
    assert_eq!(decoded.release_schedules[0].release_count, 4);
    assert_eq!(decoded.release_schedules[0].delay_until_first_release_in_seconds, 100);
    assert_eq!(decoded.release_schedules[0].initial_release_portion_in_bips, 2500);
    assert_eq!(decoded.release_schedules[0].period_between_releases_in_seconds, 100);
    assert_eq!(decoded.timelocks.len(), 1);
    assert_eq!(decoded.timelocks[0].recipient, id(2));
    assert_eq!(decoded.timelocks[0].timelocks.len(), 1);
    let t = &decoded.timelocks[0].timelocks[0];
    assert_eq!(t.schedule_id, 0);
    assert_eq!(t.commencement_timestamp, 7);
    assert_eq!(t.tokens_transferred, 0);
    assert_eq!(t.total_amount, 1000);
    assert_eq!(t.cancelable_by, vec![id(1), id(9)]);
    assert!(decoded.total_tokens_unlocked.is_empty());
    assert!(decoded.allowances.is_empty());

    // the encoding is deterministic: re-encoding the decoded record gives
    // the same bytes
    assert_eq!(encode_account(&decoded), bytes);
}

#[test]
fn empty_account_round_trip() {
    let account = TokenLockAccount::new(1, 2);
    let bytes = encode_account(&account);
    // three u32 fields and four empty count prefixes
    assert_eq!(bytes.len(), 28);
    let decoded = decode_account(&bytes).expect("decodes");
    assert_eq!(decoded.counter, 0);
    assert_eq!(decoded.max_release_delay, 1);
    assert_eq!(decoded.min_timelock_amount, 2);
    assert!(decoded.release_schedules.is_empty());
    assert!(decoded.timelocks.is_empty());
}

#[test]
fn truncated_account_is_rejected() {
    let account = TokenLockAccount::new(1, 2);
    let mut bytes = encode_account(&account);
    bytes.pop();
    assert!(decode_account(&bytes).is_none());
    // trailing garbage is rejected too
    let mut bytes = encode_account(&account);
    bytes.push(0);
    assert!(decode_account(&bytes).is_none());
}

#[test]
fn instruction_round_trip() {
    let ops = vec![
        TokenLockInstruction::Greeting,
        TokenLockInstruction::CreateReleaseSchedule(4, 100, 2500, 100),
        TokenLockInstruction::FundReleaseSchedule {
            to: id(2),
            amount: 1000,
            commencement_timestamp: 7,
            schedule_id: 0,
            cancelable_by: vec![id(1), id(9)],
        },
        TokenLockInstruction::CancelTimelock {
            target: id(2),
            timelock_index: 0,
            reclaim_token_to: id(1),
        },
    ];
    for op in ops {
        let bytes = encode_instruction(&op);
        let back = decode_instruction(&bytes).expect("decodes");
        // compare via re-encoding: the wire form is canonical
        assert_eq!(encode_instruction(&back), bytes);
    }
    assert!(decode_instruction(&vec![4u8]).is_none());
    assert!(decode_instruction(&vec![]).is_none());
    assert!(decode_instruction(&vec![0u8, 0u8]).is_none());
}

#[test]
fn dispatch_runs_operations() {
    let account = TokenLockAccount::new(3650, 100);
    let mut p = Processor { account_key: id(1), current_time: 0, account_info: account, modified: false };
    let create = TokenLockInstruction::CreateReleaseSchedule(4, 100, 2500, 100);
    assert_eq!(p.process_instruction(&create), Ok(()));
    let fund = TokenLockInstruction::FundReleaseSchedule {
        to: id(2),
        amount: 1000,
        commencement_timestamp: 0,
        schedule_id: 0,
        cancelable_by: vec![id(1)],
    };
    assert_eq!(p.process_instruction(&fund), Ok(()));
    let cancel = TokenLockInstruction::CancelTimelock {
        target: id(2),
        timelock_index: 0,
        reclaim_token_to: id(1),
    };
    assert_eq!(p.process_instruction(&cancel), Ok(()));
    let t = p.account_info.get_timelock(&id(2), 0).expect("timelock exists");
    assert_eq!(t.tokens_transferred, 1000);
    assert_eq!(p.process_instruction(&TokenLockInstruction::Greeting), Ok(()));
    assert_eq!(p.account_info.counter, 1);
}
