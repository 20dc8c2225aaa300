//! Deterministic, length-prefixed binary codec for the account record and
//! the operation requests. Fields are laid out in declaration order,
//! integers little-endian, sequences prefixed by a 32-bit count, mappings as
//! count-prefixed key/value pairs, so that any two conforming parties
//! serialize identical states identically.

use vstd::prelude::*;
use crate::types::{
    AllowanceEntry, AllowanceEntryModel, BalanceEntry, Identity, ReleaseSchedule, Timelock,
    TimelockEntry, TimelockEntryModel, TimelockModel, TokenLockAccount, TokenLockAccountModel,
};

verus! {

/// The bytes of `b` stand in `s` at position `i`.
pub open spec fn has_at(s: Seq<u8>, i: int, b: Seq<u8>) -> bool {
    &&& 0 <= i
    &&& i + b.len() <= s.len()
    &&& s.subrange(i, i + b.len()) == b
}

/// A prefix of a concatenation stands where the concatenation stands, and
/// the suffix right after it.
pub proof fn lemma_has_at_concat(s: Seq<u8>, i: int, a: Seq<u8>, b: Seq<u8>)
    requires
        has_at(s, i, a + b),
    ensures
        has_at(s, i, a),
        has_at(s, i + a.len(), b),
{
    assert(s.subrange(i, i + a.len()) =~= a) by {
        assert forall|k: int| 0 <= k < a.len() implies s.subrange(i, i + a.len())[k] == a[k] by {
            assert((a + b)[k] == a[k]);
            assert(s.subrange(i, i + (a + b).len() as int)[k] == (a + b)[k]);
        }
    }
    assert(s.subrange(i + a.len(), i + a.len() + b.len()) =~= b) by {
        assert forall|k: int|
            0 <= k < b.len() implies s.subrange(i + a.len(), i + a.len() + b.len())[k] == b[k] by {
            assert((a + b)[a.len() + k] == b[k]);
            assert(s.subrange(i, i + (a + b).len() as int)[a.len() + k] == (a + b)[a.len() + k]);
        }
    }
}

/// Little-endian bytes of a 32-bit integer.
pub open spec fn enc_u32(x: u32) -> Seq<u8> {
    seq![
        (x & 0xff) as u8,
        ((x >> 8) & 0xff) as u8,
        ((x >> 16) & 0xff) as u8,
        ((x >> 24) & 0xff) as u8,
    ]
}

/// The 32-bit integer with the given little-endian bytes.
pub open spec fn u32_from_bytes(b0: u8, b1: u8, b2: u8, b3: u8) -> u32 {
    (b0 as u32) | ((b1 as u32) << 8) | ((b2 as u32) << 16) | ((b3 as u32) << 24)
}

/// Reassembling the four little-endian bytes of a 32-bit integer gives the
/// integer back.
pub proof fn lemma_u32_bytes_round_trip(x: u32)
    ensures
        u32_from_bytes(
            (x & 0xff) as u8,
            ((x >> 8) & 0xff) as u8,
            ((x >> 16) & 0xff) as u8,
            ((x >> 24) & 0xff) as u8,
        ) == x,
{
    assert(((x & 0xff) as u8 as u32) | (((x >> 8) & 0xff) as u8 as u32) << 8 | (((x >> 16)
        & 0xff) as u8 as u32) << 16 | (((x >> 24) & 0xff) as u8 as u32) << 24 == x)
        by (bit_vector);
}

/// Reads a 32-bit integer at `i`.
pub open spec fn dec_u32(s: Seq<u8>, i: int) -> Option<(u32, int)> {
    if 0 <= i && i + 4 <= s.len() {
        Some((u32_from_bytes(s[i], s[i + 1], s[i + 2], s[i + 3]), i + 4))
    } else {
        None
    }
}

/// Where an encoded 32-bit integer stands, decoding reads it back.
pub proof fn lemma_dec_u32_at(s: Seq<u8>, i: int, x: u32)
    requires
        has_at(s, i, enc_u32(x)),
    ensures
        dec_u32(s, i) == Some((x, i + 4)),
{
    assert(s.subrange(i, i + 4)[0] == s[i]);
    assert(s.subrange(i, i + 4)[1] == s[i + 1]);
    assert(s.subrange(i, i + 4)[2] == s[i + 2]);
    assert(s.subrange(i, i + 4)[3] == s[i + 3]);
    lemma_u32_bytes_round_trip(x);
}

/// Little-endian bytes of a 64-bit integer: low word then high word.
pub open spec fn enc_u64(x: u64) -> Seq<u8> {
    enc_u32((x & 0xffff_ffff) as u32) + enc_u32((x >> 32) as u32)
}

/// Reads a 64-bit integer at `i`.
pub open spec fn dec_u64(s: Seq<u8>, i: int) -> Option<(u64, int)> {
    match dec_u32(s, i) {
        Some((lo, j)) => match dec_u32(s, j) {
            Some((hi, k)) => Some(((lo as u64) | ((hi as u64) << 32), k)),
            None => None,
        },
        None => None,
    }
}

/// Where an encoded 64-bit integer stands, decoding reads it back.
pub proof fn lemma_dec_u64_at(s: Seq<u8>, i: int, x: u64)
    requires
        has_at(s, i, enc_u64(x)),
    ensures
        dec_u64(s, i) == Some((x, i + 8)),
{
    let lo = (x & 0xffff_ffff) as u32;
    let hi = (x >> 32) as u32;
    lemma_has_at_concat(s, i, enc_u32(lo), enc_u32(hi));
    lemma_dec_u32_at(s, i, lo);
    lemma_dec_u32_at(s, i + 4, hi);
    assert((((x & 0xffff_ffff) as u32) as u64) | ((((x >> 32) as u32) as u64) << 32) == x)
        by (bit_vector);
}

/// The 32 bytes of an identity: its four 64-bit words, little-endian.
pub open spec fn enc_identity(id: Identity) -> Seq<u8> {
    enc_u64(id.w0) + enc_u64(id.w1) + enc_u64(id.w2) + enc_u64(id.w3)
}

/// Reads an identity at `i`.
pub open spec fn dec_identity(s: Seq<u8>, i: int) -> Option<(Identity, int)> {
    match dec_u64(s, i) {
        Some((w0, j0)) => match dec_u64(s, j0) {
            Some((w1, j1)) => match dec_u64(s, j1) {
                Some((w2, j2)) => match dec_u64(s, j2) {
                    Some((w3, j3)) => Some((Identity { w0, w1, w2, w3 }, j3)),
                    None => None,
                },
                None => None,
            },
            None => None,
        },
        None => None,
    }
}

/// Where an encoded identity stands, decoding reads it back.
pub proof fn lemma_dec_identity_at(s: Seq<u8>, i: int, id: Identity)
    requires
        has_at(s, i, enc_identity(id)),
    ensures
        dec_identity(s, i) == Some((id, i + 32)),
{
    lemma_has_at_concat(s, i, enc_u64(id.w0) + enc_u64(id.w1) + enc_u64(id.w2), enc_u64(id.w3));
    lemma_has_at_concat(s, i, enc_u64(id.w0) + enc_u64(id.w1), enc_u64(id.w2));
    lemma_has_at_concat(s, i, enc_u64(id.w0), enc_u64(id.w1));
    lemma_dec_u64_at(s, i, id.w0);
    lemma_dec_u64_at(s, i + 8, id.w1);
    lemma_dec_u64_at(s, i + 16, id.w2);
    lemma_dec_u64_at(s, i + 24, id.w3);
}

/// The 16 bytes of a release schedule: its four fields in declaration order.
pub open spec fn enc_schedule(rs: ReleaseSchedule) -> Seq<u8> {
    enc_u32(rs.release_count) + enc_u32(rs.delay_until_first_release_in_seconds) + enc_u32(
        rs.initial_release_portion_in_bips,
    ) + enc_u32(rs.period_between_releases_in_seconds)
}

/// Reads a release schedule at `i`.
pub open spec fn dec_schedule(s: Seq<u8>, i: int) -> Option<(ReleaseSchedule, int)> {
    match dec_u32(s, i) {
        Some((release_count, j0)) => match dec_u32(s, j0) {
            Some((delay, j1)) => match dec_u32(s, j1) {
                Some((bips, j2)) => match dec_u32(s, j2) {
                    Some((period, j3)) => Some(
                        (
                            ReleaseSchedule {
                                release_count,
                                delay_until_first_release_in_seconds: delay,
                                initial_release_portion_in_bips: bips,
                                period_between_releases_in_seconds: period,
                            },
                            j3,
                        ),
                    ),
                    None => None,
                },
                None => None,
            },
            None => None,
        },
        None => None,
    }
}

/// Where an encoded schedule stands, decoding reads it back.
pub proof fn lemma_dec_schedule_at(s: Seq<u8>, i: int, rs: ReleaseSchedule)
    requires
        has_at(s, i, enc_schedule(rs)),
    ensures
        dec_schedule(s, i) == Some((rs, i + 16)),
{
    let a = enc_u32(rs.release_count);
    let b = enc_u32(rs.delay_until_first_release_in_seconds);
    let c = enc_u32(rs.initial_release_portion_in_bips);
    let d = enc_u32(rs.period_between_releases_in_seconds);
    lemma_has_at_concat(s, i, a + b + c, d);
    lemma_has_at_concat(s, i, a + b, c);
    lemma_has_at_concat(s, i, a, b);
    lemma_dec_u32_at(s, i, rs.release_count);
    lemma_dec_u32_at(s, i + 4, rs.delay_until_first_release_in_seconds);
    lemma_dec_u32_at(s, i + 8, rs.initial_release_portion_in_bips);
    lemma_dec_u32_at(s, i + 12, rs.period_between_releases_in_seconds);
}

/// The bytes of consecutive identities.
pub open spec fn enc_identity_seq(items: Seq<Identity>) -> Seq<u8>
    decreases items.len(),
{
    if items.len() == 0 {
        Seq::empty()
    } else {
        enc_identity(items[0]) + enc_identity_seq(items.drop_first())
    }
}

/// Appending an identity appends its bytes.
pub proof fn lemma_enc_identity_seq_push(items: Seq<Identity>, x: Identity)
    ensures
        enc_identity_seq(items.push(x)) == enc_identity_seq(items) + enc_identity(x),
    decreases items.len(),
{
    if items.len() == 0 {
        assert(items.push(x).drop_first() =~= Seq::<Identity>::empty());
        assert(enc_identity_seq(items.push(x).drop_first()) =~= Seq::<u8>::empty());
        assert(enc_identity_seq(items) =~= Seq::<u8>::empty());
        assert(enc_identity_seq(items.push(x)) =~= enc_identity_seq(items) + enc_identity(x));
    } else {
        assert(items.push(x).drop_first() =~= items.drop_first().push(x));
        lemma_enc_identity_seq_push(items.drop_first(), x);
        assert((enc_identity(items[0]) + enc_identity_seq(items.drop_first())) + enc_identity(x)
            =~= enc_identity(items[0]) + (enc_identity_seq(items.drop_first()) + enc_identity(x)));
    }
}

/// Reads `n` consecutive identities at `i`.
pub open spec fn dec_identity_seq(s: Seq<u8>, i: int, n: nat) -> Option<(Seq<Identity>, int)>
    decreases n,
{
    if n == 0 {
        Some((Seq::empty(), i))
    } else {
        match dec_identity(s, i) {
            Some((v, j)) => match dec_identity_seq(s, j, (n - 1) as nat) {
                Some((vs, k)) => Some((seq![v] + vs, k)),
                None => None,
            },
            None => None,
        }
    }
}

/// Where encoded consecutive identities stand, decoding reads them back.
pub proof fn lemma_dec_identity_seq_at(s: Seq<u8>, i: int, items: Seq<Identity>)
    requires
        has_at(s, i, enc_identity_seq(items)),
    ensures
        dec_identity_seq(s, i, items.len()) == Some(
            (items, i + enc_identity_seq(items).len() as int),
        ),
    decreases items.len(),
{
    if items.len() == 0 {
        assert(items =~= Seq::<Identity>::empty());
    } else {
        lemma_has_at_concat(s, i, enc_identity(items[0]), enc_identity_seq(items.drop_first()));
        lemma_dec_identity_at(s, i, items[0]);
        lemma_dec_identity_seq_at(s, i + 32, items.drop_first());
        assert(seq![items[0]] + items.drop_first() =~= items);
    }
}

/// A count-prefixed identity list.
pub open spec fn enc_identity_list(items: Seq<Identity>) -> Seq<u8> {
    enc_u32(items.len() as u32) + enc_identity_seq(items)
}

/// Reads a count-prefixed identity list at `i`.
pub open spec fn dec_identity_list(s: Seq<u8>, i: int) -> Option<(Seq<Identity>, int)> {
    match dec_u32(s, i) {
        Some((n, j)) => dec_identity_seq(s, j, n as nat),
        None => None,
    }
}

/// Where an encoded identity list stands, decoding reads it back.
pub proof fn lemma_dec_identity_list_at(s: Seq<u8>, i: int, items: Seq<Identity>)
    requires
        has_at(s, i, enc_identity_list(items)),
        items.len() <= 0xffff_ffff,
    ensures
        dec_identity_list(s, i) == Some((items, i + enc_identity_list(items).len() as int)),
{
    lemma_has_at_concat(s, i, enc_u32(items.len() as u32), enc_identity_seq(items));
    lemma_dec_u32_at(s, i, items.len() as u32);
    lemma_dec_identity_seq_at(s, i + 4, items);
}

/// The bytes of consecutive release schedules.
pub open spec fn enc_schedule_seq(items: Seq<ReleaseSchedule>) -> Seq<u8>
    decreases items.len(),
{
    if items.len() == 0 {
        Seq::empty()
    } else {
        enc_schedule(items[0]) + enc_schedule_seq(items.drop_first())
    }
}

/// Appending a schedule appends its bytes.
pub proof fn lemma_enc_schedule_seq_push(items: Seq<ReleaseSchedule>, x: ReleaseSchedule)
    ensures
        enc_schedule_seq(items.push(x)) == enc_schedule_seq(items) + enc_schedule(x),
    decreases items.len(),
{
    if items.len() == 0 {
        assert(items.push(x).drop_first() =~= Seq::<ReleaseSchedule>::empty());
        assert(enc_schedule_seq(items.push(x).drop_first()) =~= Seq::<u8>::empty());
        assert(enc_schedule_seq(items) =~= Seq::<u8>::empty());
        assert(enc_schedule_seq(items.push(x)) =~= enc_schedule_seq(items) + enc_schedule(x));
    } else {
        assert(items.push(x).drop_first() =~= items.drop_first().push(x));
        lemma_enc_schedule_seq_push(items.drop_first(), x);
        assert((enc_schedule(items[0]) + enc_schedule_seq(items.drop_first())) + enc_schedule(x)
            =~= enc_schedule(items[0]) + (enc_schedule_seq(items.drop_first()) + enc_schedule(x)));
    }
}

/// Reads `n` consecutive release schedules at `i`.
pub open spec fn dec_schedule_seq(s: Seq<u8>, i: int, n: nat) -> Option<(Seq<ReleaseSchedule>, int)>
    decreases n,
{
    if n == 0 {
        Some((Seq::empty(), i))
    } else {
        match dec_schedule(s, i) {
            Some((v, j)) => match dec_schedule_seq(s, j, (n - 1) as nat) {
                Some((vs, k)) => Some((seq![v] + vs, k)),
                None => None,
            },
            None => None,
        }
    }
}

/// Where encoded consecutive schedules stand, decoding reads them back.
pub proof fn lemma_dec_schedule_seq_at(s: Seq<u8>, i: int, items: Seq<ReleaseSchedule>)
    requires
        has_at(s, i, enc_schedule_seq(items)),
    ensures
        dec_schedule_seq(s, i, items.len()) == Some(
            (items, i + enc_schedule_seq(items).len() as int),
        ),
    decreases items.len(),
{
    if items.len() == 0 {
        assert(items =~= Seq::<ReleaseSchedule>::empty());
    } else {
        lemma_has_at_concat(s, i, enc_schedule(items[0]), enc_schedule_seq(items.drop_first()));
        lemma_dec_schedule_at(s, i, items[0]);
        lemma_dec_schedule_seq_at(s, i + 16, items.drop_first());
        assert(seq![items[0]] + items.drop_first() =~= items);
    }
}

/// A count-prefixed schedule list.
pub open spec fn enc_schedule_list(items: Seq<ReleaseSchedule>) -> Seq<u8> {
    enc_u32(items.len() as u32) + enc_schedule_seq(items)
}

/// Reads a count-prefixed schedule list at `i`.
pub open spec fn dec_schedule_list(s: Seq<u8>, i: int) -> Option<(Seq<ReleaseSchedule>, int)> {
    match dec_u32(s, i) {
        Some((n, j)) => dec_schedule_seq(s, j, n as nat),
        None => None,
    }
}

/// Where an encoded schedule list stands, decoding reads it back.
pub proof fn lemma_dec_schedule_list_at(s: Seq<u8>, i: int, items: Seq<ReleaseSchedule>)
    requires
        has_at(s, i, enc_schedule_list(items)),
        items.len() <= 0xffff_ffff,
    ensures
        dec_schedule_list(s, i) == Some((items, i + enc_schedule_list(items).len() as int)),
{
    lemma_has_at_concat(s, i, enc_u32(items.len() as u32), enc_schedule_seq(items));
    lemma_dec_u32_at(s, i, items.len() as u32);
    lemma_dec_schedule_seq_at(s, i + 4, items);
}

/// A timelock's bytes: its four integer fields in declaration order, then
/// its canceler list.
pub open spec fn enc_timelock(t: TimelockModel) -> Seq<u8> {
    enc_u32(t.schedule_id) + enc_u32(t.commencement_timestamp) + enc_u32(t.tokens_transferred)
        + enc_u32(t.total_amount) + enc_identity_list(t.cancelable_by)
}

/// A timelock whose canceler count fits the 32-bit count prefix.
pub open spec fn encodable_timelock(t: TimelockModel) -> bool {
    t.cancelable_by.len() <= 0xffff_ffff
}

/// Reads a timelock at `i`.
pub open spec fn dec_timelock(s: Seq<u8>, i: int) -> Option<(TimelockModel, int)> {
    match dec_u32(s, i) {
        Some((schedule_id, j0)) => match dec_u32(s, j0) {
            Some((commencement_timestamp, j1)) => match dec_u32(s, j1) {
                Some((tokens_transferred, j2)) => match dec_u32(s, j2) {
                    Some((total_amount, j3)) => match dec_identity_list(s, j3) {
                        Some((cancelable_by, j4)) => Some(
                            (
                                TimelockModel {
                                    schedule_id,
                                    commencement_timestamp,
                                    tokens_transferred,
                                    total_amount,
                                    cancelable_by,
                                },
                                j4,
                            ),
                        ),
                        None => None,
                    },
                    None => None,
                },
                None => None,
            },
            None => None,
        },
        None => None,
    }
}

/// Where an encoded timelock stands, decoding reads it back.
pub proof fn lemma_dec_timelock_at(s: Seq<u8>, i: int, t: TimelockModel)
    requires
        has_at(s, i, enc_timelock(t)),
        encodable_timelock(t),
    ensures
        dec_timelock(s, i) == Some((t, i + enc_timelock(t).len() as int)),
{
    let a = enc_u32(t.schedule_id);
    let b = enc_u32(t.commencement_timestamp);
    let c = enc_u32(t.tokens_transferred);
    let d = enc_u32(t.total_amount);
    let e = enc_identity_list(t.cancelable_by);
    lemma_has_at_concat(s, i, a + b + c + d, e);
    lemma_has_at_concat(s, i, a + b + c, d);
    lemma_has_at_concat(s, i, a + b, c);
    lemma_has_at_concat(s, i, a, b);
    lemma_dec_u32_at(s, i, t.schedule_id);
    lemma_dec_u32_at(s, i + 4, t.commencement_timestamp);
    lemma_dec_u32_at(s, i + 8, t.tokens_transferred);
    lemma_dec_u32_at(s, i + 12, t.total_amount);
    lemma_dec_identity_list_at(s, i + 16, t.cancelable_by);
}

/// The bytes of consecutive timelocks.
pub open spec fn enc_timelock_seq(items: Seq<TimelockModel>) -> Seq<u8>
    decreases items.len(),
{
    if items.len() == 0 {
        Seq::empty()
    } else {
        enc_timelock(items[0]) + enc_timelock_seq(items.drop_first())
    }
}

/// Appending a timelock appends its bytes.
#[verifier::rlimit(50)]
pub proof fn lemma_enc_timelock_seq_push(items: Seq<TimelockModel>, x: TimelockModel)
    ensures
        enc_timelock_seq(items.push(x)) == enc_timelock_seq(items) + enc_timelock(x),
    decreases items.len(),
{
    if items.len() == 0 {
        assert(items.push(x).drop_first() =~= Seq::<TimelockModel>::empty());
        assert(enc_timelock_seq(items.push(x).drop_first()) =~= Seq::<u8>::empty());
        assert(enc_timelock_seq(items) =~= Seq::<u8>::empty());
        assert(enc_timelock_seq(items.push(x)) =~= enc_timelock_seq(items) + enc_timelock(x));
    } else {
        assert(items.push(x).drop_first() =~= items.drop_first().push(x));
        lemma_enc_timelock_seq_push(items.drop_first(), x);
        assert((enc_timelock(items[0]) + enc_timelock_seq(items.drop_first())) + enc_timelock(x)
            =~= enc_timelock(items[0]) + (enc_timelock_seq(items.drop_first()) + enc_timelock(x)));
    }
}

/// Reads `n` consecutive timelocks at `i`.
pub open spec fn dec_timelock_seq(s: Seq<u8>, i: int, n: nat) -> Option<(Seq<TimelockModel>, int)>
    decreases n,
{
    if n == 0 {
        Some((Seq::empty(), i))
    } else {
        match dec_timelock(s, i) {
            Some((v, j)) => match dec_timelock_seq(s, j, (n - 1) as nat) {
                Some((vs, k)) => Some((seq![v] + vs, k)),
                None => None,
            },
            None => None,
        }
    }
}

/// Where encoded consecutive timelocks stand, decoding reads them back.
#[verifier::rlimit(50)]
pub proof fn lemma_dec_timelock_seq_at(s: Seq<u8>, i: int, items: Seq<TimelockModel>)
    requires
        has_at(s, i, enc_timelock_seq(items)),
        forall|k: int| 0 <= k < items.len() ==> encodable_timelock(#[trigger] items[k]),
    ensures
        dec_timelock_seq(s, i, items.len()) == Some(
            (items, i + enc_timelock_seq(items).len() as int),
        ),
    decreases items.len(),
{
    if items.len() == 0 {
        assert(items =~= Seq::<TimelockModel>::empty());
    } else {
        lemma_has_at_concat(s, i, enc_timelock(items[0]), enc_timelock_seq(items.drop_first()));
        lemma_dec_timelock_at(s, i, items[0]);
        assert(forall|k: int|
            0 <= k < items.drop_first().len() ==> encodable_timelock(
                #[trigger] items.drop_first()[k],
            ));
        lemma_dec_timelock_seq_at(s, i + enc_timelock(items[0]).len(), items.drop_first());
        assert(seq![items[0]] + items.drop_first() =~= items);
    }
}

/// A count-prefixed timelock list.
pub open spec fn enc_timelock_list(items: Seq<TimelockModel>) -> Seq<u8> {
    enc_u32(items.len() as u32) + enc_timelock_seq(items)
}

/// Reads a count-prefixed timelock list at `i`.
pub open spec fn dec_timelock_list(s: Seq<u8>, i: int) -> Option<(Seq<TimelockModel>, int)> {
    match dec_u32(s, i) {
        Some((n, j)) => dec_timelock_seq(s, j, n as nat),
        None => None,
    }
}

/// Where an encoded timelock list stands, decoding reads it back.
pub proof fn lemma_dec_timelock_list_at(s: Seq<u8>, i: int, items: Seq<TimelockModel>)
    requires
        has_at(s, i, enc_timelock_list(items)),
        items.len() <= 0xffff_ffff,
        forall|k: int| 0 <= k < items.len() ==> encodable_timelock(#[trigger] items[k]),
    ensures
        dec_timelock_list(s, i) == Some((items, i + enc_timelock_list(items).len() as int)),
{
    lemma_has_at_concat(s, i, enc_u32(items.len() as u32), enc_timelock_seq(items));
    lemma_dec_u32_at(s, i, items.len() as u32);
    lemma_dec_timelock_seq_at(s, i + 4, items);
}

/// The bytes of one recipient's ledger entry: the recipient identity, then
/// its timelock list.
pub open spec fn enc_entry(e: TimelockEntryModel) -> Seq<u8> {
    enc_identity(e.recipient) + enc_timelock_list(e.timelocks)
}

/// An entry whose counts fit the 32-bit count prefixes.
pub open spec fn encodable_entry(e: TimelockEntryModel) -> bool {
    &&& e.timelocks.len() <= 0xffff_ffff
    &&& forall|k: int| 0 <= k < e.timelocks.len() ==> encodable_timelock(#[trigger] e.timelocks[k])
}

/// Reads one recipient's ledger entry at `i`.
pub open spec fn dec_entry(s: Seq<u8>, i: int) -> Option<(TimelockEntryModel, int)> {
    match dec_identity(s, i) {
        Some((recipient, j0)) => match dec_timelock_list(s, j0) {
            Some((timelocks, j1)) => Some((TimelockEntryModel { recipient, timelocks }, j1)),
            None => None,
        },
        None => None,
    }
}

/// Where an encoded entry stands, decoding reads it back.
pub proof fn lemma_dec_entry_at(s: Seq<u8>, i: int, e: TimelockEntryModel)
    requires
        has_at(s, i, enc_entry(e)),
        encodable_entry(e),
    ensures
        dec_entry(s, i) == Some((e, i + enc_entry(e).len() as int)),
{
    lemma_has_at_concat(s, i, enc_identity(e.recipient), enc_timelock_list(e.timelocks));
    lemma_dec_identity_at(s, i, e.recipient);
    lemma_dec_timelock_list_at(s, i + 32, e.timelocks);
}

/// The bytes of consecutive entries.
pub open spec fn enc_entry_seq(items: Seq<TimelockEntryModel>) -> Seq<u8>
    decreases items.len(),
{
    if items.len() == 0 {
        Seq::empty()
    } else {
        enc_entry(items[0]) + enc_entry_seq(items.drop_first())
    }
}

/// Appending an entry appends its bytes.
#[verifier::rlimit(50)]
pub proof fn lemma_enc_entry_seq_push(items: Seq<TimelockEntryModel>, x: TimelockEntryModel)
    ensures
        enc_entry_seq(items.push(x)) == enc_entry_seq(items) + enc_entry(x),
    decreases items.len(),
{
    if items.len() == 0 {
        assert(items.push(x).drop_first() =~= Seq::<TimelockEntryModel>::empty());
        assert(enc_entry_seq(items.push(x).drop_first()) =~= Seq::<u8>::empty());
        assert(enc_entry_seq(items) =~= Seq::<u8>::empty());
        assert(enc_entry_seq(items.push(x)) =~= enc_entry_seq(items) + enc_entry(x));
    } else {
        assert(items.push(x).drop_first() =~= items.drop_first().push(x));
        lemma_enc_entry_seq_push(items.drop_first(), x);
        assert((enc_entry(items[0]) + enc_entry_seq(items.drop_first())) + enc_entry(x)
            =~= enc_entry(items[0]) + (enc_entry_seq(items.drop_first()) + enc_entry(x)));
    }
}

/// Reads `n` consecutive entries at `i`.
pub open spec fn dec_entry_seq(s: Seq<u8>, i: int, n: nat) -> Option<(Seq<TimelockEntryModel>, int)>
    decreases n,
{
    if n == 0 {
        Some((Seq::empty(), i))
    } else {
        match dec_entry(s, i) {
            Some((v, j)) => match dec_entry_seq(s, j, (n - 1) as nat) {
                Some((vs, k)) => Some((seq![v] + vs, k)),
                None => None,
            },
            None => None,
        }
    }
}

/// Where encoded consecutive entries stand, decoding reads them back.
#[verifier::rlimit(50)]
pub proof fn lemma_dec_entry_seq_at(s: Seq<u8>, i: int, items: Seq<TimelockEntryModel>)
    requires
        has_at(s, i, enc_entry_seq(items)),
        forall|k: int| 0 <= k < items.len() ==> encodable_entry(#[trigger] items[k]),
    ensures
        dec_entry_seq(s, i, items.len()) == Some((items, i + enc_entry_seq(items).len() as int)),
    decreases items.len(),
{
    if items.len() == 0 {
        assert(items =~= Seq::<TimelockEntryModel>::empty());
    } else {
        lemma_has_at_concat(s, i, enc_entry(items[0]), enc_entry_seq(items.drop_first()));
        lemma_dec_entry_at(s, i, items[0]);
        assert(forall|k: int|
            0 <= k < items.drop_first().len() ==> encodable_entry(
                #[trigger] items.drop_first()[k],
            ));
        lemma_dec_entry_seq_at(s, i + enc_entry(items[0]).len(), items.drop_first());
        assert(seq![items[0]] + items.drop_first() =~= items);
    }
}

/// A count-prefixed entry list: the recipient-to-timelocks mapping as
/// count-prefixed key/value pairs.
pub open spec fn enc_entry_list(items: Seq<TimelockEntryModel>) -> Seq<u8> {
    enc_u32(items.len() as u32) + enc_entry_seq(items)
}

/// Reads a count-prefixed entry list at `i`.
pub open spec fn dec_entry_list(s: Seq<u8>, i: int) -> Option<(Seq<TimelockEntryModel>, int)> {
    match dec_u32(s, i) {
        Some((n, j)) => dec_entry_seq(s, j, n as nat),
        None => None,
    }
}

/// Where an encoded entry list stands, decoding reads it back.
pub proof fn lemma_dec_entry_list_at(s: Seq<u8>, i: int, items: Seq<TimelockEntryModel>)
    requires
        has_at(s, i, enc_entry_list(items)),
        items.len() <= 0xffff_ffff,
        forall|k: int| 0 <= k < items.len() ==> encodable_entry(#[trigger] items[k]),
    ensures
        dec_entry_list(s, i) == Some((items, i + enc_entry_list(items).len() as int)),
{
    lemma_has_at_concat(s, i, enc_u32(items.len() as u32), enc_entry_seq(items));
    lemma_dec_u32_at(s, i, items.len() as u32);
    lemma_dec_entry_seq_at(s, i + 4, items);
}

/// The bytes of one balance pair: key identity then value.
pub open spec fn enc_balance(b: BalanceEntry) -> Seq<u8> {
    enc_identity(b.key) + enc_u32(b.value)
}

/// Reads a balance pair at `i`.
pub open spec fn dec_balance(s: Seq<u8>, i: int) -> Option<(BalanceEntry, int)> {
    match dec_identity(s, i) {
        Some((key, j0)) => match dec_u32(s, j0) {
            Some((value, j1)) => Some((BalanceEntry { key, value }, j1)),
            None => None,
        },
        None => None,
    }
}

/// Where an encoded balance pair stands, decoding reads it back.
pub proof fn lemma_dec_balance_at(s: Seq<u8>, i: int, b: BalanceEntry)
    requires
        has_at(s, i, enc_balance(b)),
    ensures
        dec_balance(s, i) == Some((b, i + 36)),
{
    lemma_has_at_concat(s, i, enc_identity(b.key), enc_u32(b.value));
    lemma_dec_identity_at(s, i, b.key);
    lemma_dec_u32_at(s, i + 32, b.value);
}

/// The bytes of consecutive balance pairs.
pub open spec fn enc_balance_seq(items: Seq<BalanceEntry>) -> Seq<u8>
    decreases items.len(),
{
    if items.len() == 0 {
        Seq::empty()
    } else {
        enc_balance(items[0]) + enc_balance_seq(items.drop_first())
    }
}

/// Appending a balance pair appends its bytes.
pub proof fn lemma_enc_balance_seq_push(items: Seq<BalanceEntry>, x: BalanceEntry)
    ensures
        enc_balance_seq(items.push(x)) == enc_balance_seq(items) + enc_balance(x),
    decreases items.len(),
{
    if items.len() == 0 {
        assert(items.push(x).drop_first() =~= Seq::<BalanceEntry>::empty());
        assert(enc_balance_seq(items.push(x).drop_first()) =~= Seq::<u8>::empty());
        assert(enc_balance_seq(items) =~= Seq::<u8>::empty());
        assert(enc_balance_seq(items.push(x)) =~= enc_balance_seq(items) + enc_balance(x));
    } else {
        assert(items.push(x).drop_first() =~= items.drop_first().push(x));
        lemma_enc_balance_seq_push(items.drop_first(), x);
        assert((enc_balance(items[0]) + enc_balance_seq(items.drop_first())) + enc_balance(x)
            =~= enc_balance(items[0]) + (enc_balance_seq(items.drop_first()) + enc_balance(x)));
    }
}

/// Reads `n` consecutive balance pairs at `i`.
pub open spec fn dec_balance_seq(s: Seq<u8>, i: int, n: nat) -> Option<(Seq<BalanceEntry>, int)>
    decreases n,
{
    if n == 0 {
        Some((Seq::empty(), i))
    } else {
        match dec_balance(s, i) {
            Some((v, j)) => match dec_balance_seq(s, j, (n - 1) as nat) {
                Some((vs, k)) => Some((seq![v] + vs, k)),
                None => None,
            },
            None => None,
        }
    }
}

/// Where encoded consecutive balance pairs stand, decoding reads them back.
pub proof fn lemma_dec_balance_seq_at(s: Seq<u8>, i: int, items: Seq<BalanceEntry>)
    requires
        has_at(s, i, enc_balance_seq(items)),
    ensures
        dec_balance_seq(s, i, items.len()) == Some(
            (items, i + enc_balance_seq(items).len() as int),
        ),
    decreases items.len(),
{
    if items.len() == 0 {
        assert(items =~= Seq::<BalanceEntry>::empty());
    } else {
        lemma_has_at_concat(s, i, enc_balance(items[0]), enc_balance_seq(items.drop_first()));
        lemma_dec_balance_at(s, i, items[0]);
        lemma_dec_balance_seq_at(s, i + 36, items.drop_first());
        assert(seq![items[0]] + items.drop_first() =~= items);
    }
}

/// A count-prefixed balance list: an identity-to-amount mapping as
/// count-prefixed key/value pairs.
pub open spec fn enc_balance_list(items: Seq<BalanceEntry>) -> Seq<u8> {
    enc_u32(items.len() as u32) + enc_balance_seq(items)
}

/// Reads a count-prefixed balance list at `i`.
pub open spec fn dec_balance_list(s: Seq<u8>, i: int) -> Option<(Seq<BalanceEntry>, int)> {
    match dec_u32(s, i) {
        Some((n, j)) => dec_balance_seq(s, j, n as nat),
        None => None,
    }
}

/// Where an encoded balance list stands, decoding reads it back.
pub proof fn lemma_dec_balance_list_at(s: Seq<u8>, i: int, items: Seq<BalanceEntry>)
    requires
        has_at(s, i, enc_balance_list(items)),
        items.len() <= 0xffff_ffff,
    ensures
        dec_balance_list(s, i) == Some((items, i + enc_balance_list(items).len() as int)),
{
    lemma_has_at_concat(s, i, enc_u32(items.len() as u32), enc_balance_seq(items));
    lemma_dec_u32_at(s, i, items.len() as u32);
    lemma_dec_balance_seq_at(s, i + 4, items);
}

/// The bytes of one allowance entry: the owner identity, then its balance
/// list.
pub open spec fn enc_allowance(a: AllowanceEntryModel) -> Seq<u8> {
    enc_identity(a.owner) + enc_balance_list(a.entries)
}

/// An allowance entry whose count fits the 32-bit count prefix.
pub open spec fn encodable_allowance(a: AllowanceEntryModel) -> bool {
    a.entries.len() <= 0xffff_ffff
}

/// Reads an allowance entry at `i`.
pub open spec fn dec_allowance(s: Seq<u8>, i: int) -> Option<(AllowanceEntryModel, int)> {
    match dec_identity(s, i) {
        Some((owner, j0)) => match dec_balance_list(s, j0) {
            Some((entries, j1)) => Some((AllowanceEntryModel { owner, entries }, j1)),
            None => None,
        },
        None => None,
    }
}

/// Where an encoded allowance entry stands, decoding reads it back.
pub proof fn lemma_dec_allowance_at(s: Seq<u8>, i: int, a: AllowanceEntryModel)
    requires
        has_at(s, i, enc_allowance(a)),
        encodable_allowance(a),
    ensures
        dec_allowance(s, i) == Some((a, i + enc_allowance(a).len() as int)),
{
    lemma_has_at_concat(s, i, enc_identity(a.owner), enc_balance_list(a.entries));
    lemma_dec_identity_at(s, i, a.owner);
    lemma_dec_balance_list_at(s, i + 32, a.entries);
}

/// The bytes of consecutive allowance entries.
pub open spec fn enc_allowance_seq(items: Seq<AllowanceEntryModel>) -> Seq<u8>
    decreases items.len(),
{
    if items.len() == 0 {
        Seq::empty()
    } else {
        enc_allowance(items[0]) + enc_allowance_seq(items.drop_first())
    }
}

/// Appending an allowance entry appends its bytes.
#[verifier::rlimit(50)]
pub proof fn lemma_enc_allowance_seq_push(items: Seq<AllowanceEntryModel>, x: AllowanceEntryModel)
    ensures
        enc_allowance_seq(items.push(x)) == enc_allowance_seq(items) + enc_allowance(x),
    decreases items.len(),
{
    if items.len() == 0 {
        assert(items.push(x).drop_first() =~= Seq::<AllowanceEntryModel>::empty());
        assert(enc_allowance_seq(items.push(x).drop_first()) =~= Seq::<u8>::empty());
        assert(enc_allowance_seq(items) =~= Seq::<u8>::empty());
        assert(enc_allowance_seq(items.push(x)) =~= enc_allowance_seq(items) + enc_allowance(x));
    } else {
        assert(items.push(x).drop_first() =~= items.drop_first().push(x));
        lemma_enc_allowance_seq_push(items.drop_first(), x);
        assert((enc_allowance(items[0]) + enc_allowance_seq(items.drop_first())) + enc_allowance(x)
            =~= enc_allowance(items[0]) + (enc_allowance_seq(items.drop_first())
            + enc_allowance(x)));
    }
}

/// Reads `n` consecutive allowance entries at `i`.
pub open spec fn dec_allowance_seq(s: Seq<u8>, i: int, n: nat) -> Option<
    (Seq<AllowanceEntryModel>, int),
>
    decreases n,
{
    if n == 0 {
        Some((Seq::empty(), i))
    } else {
        match dec_allowance(s, i) {
            Some((v, j)) => match dec_allowance_seq(s, j, (n - 1) as nat) {
                Some((vs, k)) => Some((seq![v] + vs, k)),
                None => None,
            },
            None => None,
        }
    }
}

/// Where encoded consecutive allowance entries stand, decoding reads them
/// back.
#[verifier::rlimit(50)]
pub proof fn lemma_dec_allowance_seq_at(s: Seq<u8>, i: int, items: Seq<AllowanceEntryModel>)
    requires
        has_at(s, i, enc_allowance_seq(items)),
        forall|k: int| 0 <= k < items.len() ==> encodable_allowance(#[trigger] items[k]),
    ensures
        dec_allowance_seq(s, i, items.len()) == Some(
            (items, i + enc_allowance_seq(items).len() as int),
        ),
    decreases items.len(),
{
    if items.len() == 0 {
        assert(items =~= Seq::<AllowanceEntryModel>::empty());
    } else {
        lemma_has_at_concat(s, i, enc_allowance(items[0]), enc_allowance_seq(items.drop_first()));
        lemma_dec_allowance_at(s, i, items[0]);
        assert(forall|k: int|
            0 <= k < items.drop_first().len() ==> encodable_allowance(
                #[trigger] items.drop_first()[k],
            ));
        lemma_dec_allowance_seq_at(s, i + enc_allowance(items[0]).len(), items.drop_first());
        assert(seq![items[0]] + items.drop_first() =~= items);
    }
}

/// A count-prefixed allowance list: an identity-to-allowances mapping as
/// count-prefixed key/value pairs.
pub open spec fn enc_allowance_list(items: Seq<AllowanceEntryModel>) -> Seq<u8> {
    enc_u32(items.len() as u32) + enc_allowance_seq(items)
}

/// Reads a count-prefixed allowance list at `i`.
pub open spec fn dec_allowance_list(s: Seq<u8>, i: int) -> Option<(Seq<AllowanceEntryModel>, int)> {
    match dec_u32(s, i) {
        Some((n, j)) => dec_allowance_seq(s, j, n as nat),
        None => None,
    }
}

/// Where an encoded allowance list stands, decoding reads it back.
pub proof fn lemma_dec_allowance_list_at(s: Seq<u8>, i: int, items: Seq<AllowanceEntryModel>)
    requires
        has_at(s, i, enc_allowance_list(items)),
        items.len() <= 0xffff_ffff,
        forall|k: int| 0 <= k < items.len() ==> encodable_allowance(#[trigger] items[k]),
    ensures
        dec_allowance_list(s, i) == Some((items, i + enc_allowance_list(items).len() as int)),
{
    lemma_has_at_concat(s, i, enc_u32(items.len() as u32), enc_allowance_seq(items));
    lemma_dec_u32_at(s, i, items.len() as u32);
    lemma_dec_allowance_seq_at(s, i + 4, items);
}

/// The account record's bytes: every field in declaration order.
pub open spec fn enc_account(m: TokenLockAccountModel) -> Seq<u8> {
    enc_u32(m.counter) + enc_u32(m.max_release_delay) + enc_u32(m.min_timelock_amount)
        + enc_schedule_list(m.release_schedules) + enc_entry_list(m.timelocks) + enc_balance_list(
        m.total_tokens_unlocked,
    ) + enc_allowance_list(m.allowances)
}

/// An account whose sequence lengths all fit the 32-bit count prefixes.
pub open spec fn encodable_account(m: TokenLockAccountModel) -> bool {
    &&& m.release_schedules.len() <= 0xffff_ffff
    &&& m.timelocks.len() <= 0xffff_ffff
    &&& forall|k: int| 0 <= k < m.timelocks.len() ==> encodable_entry(#[trigger] m.timelocks[k])
    &&& m.total_tokens_unlocked.len() <= 0xffff_ffff
    &&& m.allowances.len() <= 0xffff_ffff
    &&& forall|k: int|
        0 <= k < m.allowances.len() ==> encodable_allowance(#[trigger] m.allowances[k])
}

/// Reads an account record at `i`.
pub open spec fn dec_account(s: Seq<u8>, i: int) -> Option<(TokenLockAccountModel, int)> {
    match dec_u32(s, i) {
        Some((counter, j0)) => match dec_u32(s, j0) {
            Some((max_release_delay, j1)) => match dec_u32(s, j1) {
                Some((min_timelock_amount, j2)) => match dec_schedule_list(s, j2) {
                    Some((release_schedules, j3)) => match dec_entry_list(s, j3) {
                        Some((timelocks, j4)) => match dec_balance_list(s, j4) {
                            Some((total_tokens_unlocked, j5)) => match dec_allowance_list(s, j5) {
                                Some((allowances, j6)) => Some(
                                    (
                                        TokenLockAccountModel {
                                            counter,
                                            max_release_delay,
                                            min_timelock_amount,
                                            release_schedules,
                                            timelocks,
                                            total_tokens_unlocked,
                                            allowances,
                                        },
                                        j6,
                                    ),
                                ),
                                None => None,
                            },
                            None => None,
                        },
                        None => None,
                    },
                    None => None,
                },
                None => None,
            },
            None => None,
        },
        None => None,
    }
}

/// Where an encoded account stands, decoding reads it back.
#[verifier::rlimit(100)]
#[verifier::spinoff_prover]
pub proof fn lemma_dec_account_at(s: Seq<u8>, i: int, m: TokenLockAccountModel)
    requires
        has_at(s, i, enc_account(m)),
        encodable_account(m),
    ensures
        dec_account(s, i) == Some((m, i + enc_account(m).len() as int)),
{
    let a = enc_u32(m.counter);
    let b = enc_u32(m.max_release_delay);
    let c = enc_u32(m.min_timelock_amount);
    let d = enc_schedule_list(m.release_schedules);
    let e = enc_entry_list(m.timelocks);
    let f = enc_balance_list(m.total_tokens_unlocked);
    let g = enc_allowance_list(m.allowances);
    lemma_has_at_concat(s, i, a + b + c + d + e + f, g);
    lemma_has_at_concat(s, i, a + b + c + d + e, f);
    lemma_has_at_concat(s, i, a + b + c + d, e);
    lemma_has_at_concat(s, i, a + b + c, d);
    lemma_has_at_concat(s, i, a + b, c);
    lemma_has_at_concat(s, i, a, b);
    lemma_dec_u32_at(s, i, m.counter);
    lemma_dec_u32_at(s, i + 4, m.max_release_delay);
    lemma_dec_u32_at(s, i + 8, m.min_timelock_amount);
    lemma_dec_schedule_list_at(s, i + 12, m.release_schedules);
    lemma_dec_entry_list_at(s, i + 12 + d.len(), m.timelocks);
    lemma_dec_balance_list_at(s, i + 12 + d.len() + e.len(), m.total_tokens_unlocked);
    lemma_dec_allowance_list_at(s, i + 12 + d.len() + e.len() + f.len(), m.allowances);
}

/// Decodes a whole buffer as an account record; the record must take up the
/// buffer exactly.
pub open spec fn decode_account_bytes(s: Seq<u8>) -> Option<TokenLockAccountModel> {
    match dec_account(s, 0) {
        Some((m, j)) => if j == s.len() {
            Some(m)
        } else {
            None
        },
        None => None,
    }
}

/// Round trip: encoding an account record and decoding the bytes yields the
/// record back, for every account whose sequence lengths fit the count
/// prefixes.
pub proof fn lemma_account_round_trip(m: TokenLockAccountModel)
    requires
        encodable_account(m),
    ensures
        decode_account_bytes(enc_account(m)) == Some(m),
{
    let s = enc_account(m);
    assert(s.subrange(0, s.len() as int) =~= s);
    lemma_dec_account_at(s, 0, m);
}

/// Appends the little-endian bytes of `x`.
pub fn push_u32(out: &mut Vec<u8>, x: u32)
    ensures
        final(out)@ == old(out)@ + enc_u32(x),
{
    out.push((x & 0xff) as u8);
    out.push(((x >> 8) & 0xff) as u8);
    out.push(((x >> 16) & 0xff) as u8);
    out.push(((x >> 24) & 0xff) as u8);
    proof {
        assert(out@ =~= old(out)@ + enc_u32(x));
    }
}

/// Appends the little-endian bytes of `x`: low word then high word.
pub fn push_u64(out: &mut Vec<u8>, x: u64)
    ensures
        final(out)@ == old(out)@ + enc_u64(x),
{
    push_u32(out, (x & 0xffff_ffff) as u32);
    push_u32(out, (x >> 32) as u32);
    proof {
        assert(out@ =~= old(out)@ + enc_u64(x));
    }
}

/// Appends the 32 bytes of an identity.
pub fn push_identity(out: &mut Vec<u8>, id: &Identity)
    ensures
        final(out)@ == old(out)@ + enc_identity(*id),
{
    push_u64(out, id.w0);
    push_u64(out, id.w1);
    push_u64(out, id.w2);
    push_u64(out, id.w3);
    proof {
        assert(out@ =~= old(out)@ + enc_identity(*id));
    }
}

/// Appends the 16 bytes of a release schedule.
pub fn push_schedule(out: &mut Vec<u8>, rs: &ReleaseSchedule)
    ensures
        final(out)@ == old(out)@ + enc_schedule(*rs),
{
    push_u32(out, rs.release_count);
    push_u32(out, rs.delay_until_first_release_in_seconds);
    push_u32(out, rs.initial_release_portion_in_bips);
    push_u32(out, rs.period_between_releases_in_seconds);
    proof {
        assert(out@ =~= old(out)@ + enc_schedule(*rs));
    }
}

/// Appends a count-prefixed identity list.
pub fn push_identity_list(out: &mut Vec<u8>, items: &Vec<Identity>)
    requires
        items@.len() <= 0xffff_ffff,
    ensures
        final(out)@ == old(out)@ + enc_identity_list(items@),
{
    push_u32(out, items.len() as u32);
    let ghost base = out@;
    let mut k: usize = 0;
    while k < items.len()
        invariant
            k <= items.len(),
            out@ == base + enc_identity_seq(items@.take(k as int)),
        decreases items.len() - k,
    {
        push_identity(out, &items[k]);
        proof {
            lemma_enc_identity_seq_push(items@.take(k as int), items@[k as int]);
            assert(items@.take(k + 1) =~= items@.take(k as int).push(items@[k as int]));
            assert(base + enc_identity_seq(items@.take(k as int)) + enc_identity(items@[k as int])
                =~= base + enc_identity_seq(items@.take(k + 1)));
        }
        k = k + 1;
    }
    proof {
        assert(items@.take(items@.len() as int) =~= items@);
        assert(out@ =~= old(out)@ + enc_identity_list(items@));
    }
}

/// Appends a count-prefixed schedule list.
pub fn push_schedule_list(out: &mut Vec<u8>, items: &Vec<ReleaseSchedule>)
    requires
        items@.len() <= 0xffff_ffff,
    ensures
        final(out)@ == old(out)@ + enc_schedule_list(items@),
{
    push_u32(out, items.len() as u32);
    let ghost base = out@;
    let mut k: usize = 0;
    while k < items.len()
        invariant
            k <= items.len(),
            out@ == base + enc_schedule_seq(items@.take(k as int)),
        decreases items.len() - k,
    {
        push_schedule(out, &items[k]);
        proof {
            lemma_enc_schedule_seq_push(items@.take(k as int), items@[k as int]);
            assert(items@.take(k + 1) =~= items@.take(k as int).push(items@[k as int]));
            assert(base + enc_schedule_seq(items@.take(k as int)) + enc_schedule(items@[k as int])
                =~= base + enc_schedule_seq(items@.take(k + 1)));
        }
        k = k + 1;
    }
    proof {
        assert(items@.take(items@.len() as int) =~= items@);
        assert(out@ =~= old(out)@ + enc_schedule_list(items@));
    }
}

/// Appends a timelock's bytes.
pub fn push_timelock(out: &mut Vec<u8>, t: &Timelock)
    requires
        encodable_timelock(t@),
    ensures
        final(out)@ == old(out)@ + enc_timelock(t@),
{
    push_u32(out, t.schedule_id);
    push_u32(out, t.commencement_timestamp);
    push_u32(out, t.tokens_transferred);
    push_u32(out, t.total_amount);
    push_identity_list(out, &t.cancelable_by);
    proof {
        assert(out@ =~= old(out)@ + enc_timelock(t@));
    }
}

/// Appends a count-prefixed timelock list.
pub fn push_timelock_list(out: &mut Vec<u8>, items: &Vec<Timelock>)
    requires
        items@.len() <= 0xffff_ffff,
        forall|k: int| 0 <= k < items@.len() ==> encodable_timelock((#[trigger] items@[k])@),
    ensures
        final(out)@ == old(out)@ + enc_timelock_list(items@.map_values(|t: Timelock| t@)),
{
    push_u32(out, items.len() as u32);
    let ghost models = items@.map_values(|t: Timelock| t@);
    let ghost base = out@;
    let mut k: usize = 0;
    while k < items.len()
        invariant
            k <= items.len(),
            models == items@.map_values(|t: Timelock| t@),
            forall|j: int| 0 <= j < items@.len() ==> encodable_timelock((#[trigger] items@[j])@),
            out@ == base + enc_timelock_seq(models.take(k as int)),
        decreases items.len() - k,
    {
        push_timelock(out, &items[k]);
        proof {
            lemma_enc_timelock_seq_push(models.take(k as int), models[k as int]);
            assert(models.take(k + 1) =~= models.take(k as int).push(models[k as int]));
            assert(base + enc_timelock_seq(models.take(k as int)) + enc_timelock(models[k as int])
                =~= base + enc_timelock_seq(models.take(k + 1)));
        }
        k = k + 1;
    }
    proof {
        assert(models.take(models.len() as int) =~= models);
        assert(out@ =~= old(out)@ + enc_timelock_list(models));
    }
}

/// Appends one recipient's ledger entry.
pub fn push_entry(out: &mut Vec<u8>, e: &TimelockEntry)
    requires
        encodable_entry(e@),
    ensures
        final(out)@ == old(out)@ + enc_entry(e@),
{
    push_identity(out, &e.recipient);
    proof {
        assert forall|k: int|
            0 <= k < e.timelocks@.len() implies encodable_timelock(
            (#[trigger] e.timelocks@[k])@,
        ) by {
            assert(e@.timelocks[k] == e.timelocks@[k]@);
            assert(encodable_timelock(e@.timelocks[k]));
        }
    }
    push_timelock_list(out, &e.timelocks);
    proof {
        assert(out@ =~= old(out)@ + enc_entry(e@));
    }
}

/// Appends a count-prefixed entry list.
pub fn push_entry_list(out: &mut Vec<u8>, items: &Vec<TimelockEntry>)
    requires
        items@.len() <= 0xffff_ffff,
        forall|k: int| 0 <= k < items@.len() ==> encodable_entry((#[trigger] items@[k])@),
    ensures
        final(out)@ == old(out)@ + enc_entry_list(items@.map_values(|e: TimelockEntry| e@)),
{
    push_u32(out, items.len() as u32);
    let ghost models = items@.map_values(|e: TimelockEntry| e@);
    let ghost base = out@;
    let mut k: usize = 0;
    while k < items.len()
        invariant
            k <= items.len(),
            models == items@.map_values(|e: TimelockEntry| e@),
            forall|j: int| 0 <= j < items@.len() ==> encodable_entry((#[trigger] items@[j])@),
            out@ == base + enc_entry_seq(models.take(k as int)),
        decreases items.len() - k,
    {
        push_entry(out, &items[k]);
        proof {
            lemma_enc_entry_seq_push(models.take(k as int), models[k as int]);
            assert(models.take(k + 1) =~= models.take(k as int).push(models[k as int]));
            assert(base + enc_entry_seq(models.take(k as int)) + enc_entry(models[k as int])
                =~= base + enc_entry_seq(models.take(k + 1)));
        }
        k = k + 1;
    }
    proof {
        assert(models.take(models.len() as int) =~= models);
        assert(out@ =~= old(out)@ + enc_entry_list(models));
    }
}

/// Appends one balance pair.
pub fn push_balance(out: &mut Vec<u8>, b: &BalanceEntry)
    ensures
        final(out)@ == old(out)@ + enc_balance(*b),
{
    push_identity(out, &b.key);
    push_u32(out, b.value);
    proof {
        assert(out@ =~= old(out)@ + enc_balance(*b));
    }
}

/// Appends a count-prefixed balance list.
pub fn push_balance_list(out: &mut Vec<u8>, items: &Vec<BalanceEntry>)
    requires
        items@.len() <= 0xffff_ffff,
    ensures
        final(out)@ == old(out)@ + enc_balance_list(items@),
{
    push_u32(out, items.len() as u32);
    let ghost base = out@;
    let mut k: usize = 0;
    while k < items.len()
        invariant
            k <= items.len(),
            out@ == base + enc_balance_seq(items@.take(k as int)),
        decreases items.len() - k,
    {
        push_balance(out, &items[k]);
        proof {
            lemma_enc_balance_seq_push(items@.take(k as int), items@[k as int]);
            assert(items@.take(k + 1) =~= items@.take(k as int).push(items@[k as int]));
            assert(base + enc_balance_seq(items@.take(k as int)) + enc_balance(items@[k as int])
                =~= base + enc_balance_seq(items@.take(k + 1)));
        }
        k = k + 1;
    }
    proof {
        assert(items@.take(items@.len() as int) =~= items@);
        assert(out@ =~= old(out)@ + enc_balance_list(items@));
    }
}

/// Appends one allowance entry.
pub fn push_allowance(out: &mut Vec<u8>, a: &AllowanceEntry)
    requires
        encodable_allowance(a@),
    ensures
        final(out)@ == old(out)@ + enc_allowance(a@),
{
    push_identity(out, &a.owner);
    push_balance_list(out, &a.entries);
    proof {
        assert(out@ =~= old(out)@ + enc_allowance(a@));
    }
}

/// Appends a count-prefixed allowance list.
pub fn push_allowance_list(out: &mut Vec<u8>, items: &Vec<AllowanceEntry>)
    requires
        items@.len() <= 0xffff_ffff,
        forall|k: int| 0 <= k < items@.len() ==> encodable_allowance((#[trigger] items@[k])@),
    ensures
        final(out)@ == old(out)@ + enc_allowance_list(items@.map_values(|a: AllowanceEntry| a@)),
{
    push_u32(out, items.len() as u32);
    let ghost models = items@.map_values(|a: AllowanceEntry| a@);
    let ghost base = out@;
    let mut k: usize = 0;
    while k < items.len()
        invariant
            k <= items.len(),
            models == items@.map_values(|a: AllowanceEntry| a@),
            forall|j: int| 0 <= j < items@.len() ==> encodable_allowance((#[trigger] items@[j])@),
            out@ == base + enc_allowance_seq(models.take(k as int)),
        decreases items.len() - k,
    {
        push_allowance(out, &items[k]);
        proof {
            lemma_enc_allowance_seq_push(models.take(k as int), models[k as int]);
            assert(models.take(k + 1) =~= models.take(k as int).push(models[k as int]));
            assert(base + enc_allowance_seq(models.take(k as int)) + enc_allowance(
                models[k as int],
            ) =~= base + enc_allowance_seq(models.take(k + 1)));
        }
        k = k + 1;
    }
    proof {
        assert(models.take(models.len() as int) =~= models);
        assert(out@ =~= old(out)@ + enc_allowance_list(models));
    }
}

/// Serializes an account record into its deterministic byte layout.
#[verifier::rlimit(50)]
pub fn encode_account(account: &TokenLockAccount) -> (r: Vec<u8>)
    requires
        encodable_account(account@),
    ensures
        r@ == enc_account(account@),
{
    let mut out: Vec<u8> = Vec::new();
    push_u32(&mut out, account.counter);
    push_u32(&mut out, account.max_release_delay);
    push_u32(&mut out, account.min_timelock_amount);
    push_schedule_list(&mut out, &account.release_schedules);
    proof {
        assert forall|k: int|
            0 <= k < account.timelocks@.len() implies encodable_entry(
            (#[trigger] account.timelocks@[k])@,
        ) by {
            assert(account@.timelocks[k] == account.timelocks@[k]@);
            assert(encodable_entry(account@.timelocks[k]));
        }
        assert forall|k: int|
            0 <= k < account.allowances@.len() implies encodable_allowance(
            (#[trigger] account.allowances@[k])@,
        ) by {
            assert(account@.allowances[k] == account.allowances@[k]@);
            assert(encodable_allowance(account@.allowances[k]));
        }
    }
    push_entry_list(&mut out, &account.timelocks);
    push_balance_list(&mut out, &account.total_tokens_unlocked);
    push_allowance_list(&mut out, &account.allowances);
    proof {
        assert(out@ =~= enc_account(account@));
    }
    out
}

/// Reads a 32-bit integer.
pub fn read_u32(s: &Vec<u8>, pos: usize) -> (r: Option<(u32, usize)>)
    ensures
        match r {
            Some((v, p2)) => dec_u32(s@, pos as int) == Some((v, p2 as int)) && p2 <= s@.len(),
            None => dec_u32(s@, pos as int) is None,
        },
{
    if pos < s.len() && s.len() - pos >= 4 {
        let b0 = s[pos];
        let b1 = s[pos + 1];
        let b2 = s[pos + 2];
        let b3 = s[pos + 3];
        Some(
            (
                (b0 as u32) | ((b1 as u32) << 8) | ((b2 as u32) << 16) | ((b3 as u32) << 24),
                pos + 4,
            ),
        )
    } else {
        None
    }
}

/// Reads a 64-bit integer.
pub fn read_u64(s: &Vec<u8>, pos: usize) -> (r: Option<(u64, usize)>)
    ensures
        match r {
            Some((v, p2)) => dec_u64(s@, pos as int) == Some((v, p2 as int)) && p2 <= s@.len(),
            None => dec_u64(s@, pos as int) is None,
        },
{
    let (lo, p1) = match read_u32(s, pos) {
        Some(x) => x,
        None => {
            return None;
        },
    };
    let (hi, p2) = match read_u32(s, p1) {
        Some(x) => x,
        None => {
            return None;
        },
    };
    Some(((lo as u64) | ((hi as u64) << 32), p2))
}

/// Reads an identity.
pub fn read_identity(s: &Vec<u8>, pos: usize) -> (r: Option<(Identity, usize)>)
    ensures
        match r {
            Some((v, p2)) => dec_identity(s@, pos as int) == Some((v, p2 as int)) && p2
                <= s@.len(),
            None => dec_identity(s@, pos as int) is None,
        },
{
    let (w0, p0) = match read_u64(s, pos) {
        Some(x) => x,
        None => {
            return None;
        },
    };
    let (w1, p1) = match read_u64(s, p0) {
        Some(x) => x,
        None => {
            return None;
        },
    };
    let (w2, p2) = match read_u64(s, p1) {
        Some(x) => x,
        None => {
            return None;
        },
    };
    let (w3, p3) = match read_u64(s, p2) {
        Some(x) => x,
        None => {
            return None;
        },
    };
    Some((Identity { w0, w1, w2, w3 }, p3))
}

/// Reads a release schedule.
pub fn read_schedule(s: &Vec<u8>, pos: usize) -> (r: Option<(ReleaseSchedule, usize)>)
    ensures
        match r {
            Some((v, p2)) => dec_schedule(s@, pos as int) == Some((v, p2 as int)) && p2
                <= s@.len(),
            None => dec_schedule(s@, pos as int) is None,
        },
{
    let (release_count, p0) = match read_u32(s, pos) {
        Some(x) => x,
        None => {
            return None;
        },
    };
    let (delay, p1) = match read_u32(s, p0) {
        Some(x) => x,
        None => {
            return None;
        },
    };
    let (bips, p2) = match read_u32(s, p1) {
        Some(x) => x,
        None => {
            return None;
        },
    };
    let (period, p3) = match read_u32(s, p2) {
        Some(x) => x,
        None => {
            return None;
        },
    };
    Some(
        (
            ReleaseSchedule {
                release_count,
                delay_until_first_release_in_seconds: delay,
                initial_release_portion_in_bips: bips,
                period_between_releases_in_seconds: period,
            },
            p3,
        ),
    )
}

/// Reads a count-prefixed identity list.
pub fn read_identity_list(s: &Vec<u8>, pos: usize) -> (r: Option<(Vec<Identity>, usize)>)
    ensures
        match r {
            Some((v, p2)) => dec_identity_list(s@, pos as int) == Some((v@, p2 as int)) && p2
                <= s@.len(),
            None => dec_identity_list(s@, pos as int) is None,
        },
{
    let (n, start) = match read_u32(s, pos) {
        Some(x) => x,
        None => {
            return None;
        },
    };
    let mut acc: Vec<Identity> = Vec::new();
    let mut p: usize = start;
    let mut k: u32 = 0;
    while k < n
        invariant
            k <= n,
            p <= s@.len(),
            dec_u32(s@, pos as int) == Some((n, start as int)),
            dec_identity_seq(s@, start as int, n as nat) == (match dec_identity_seq(
                s@,
                p as int,
                (n - k) as nat,
            ) {
                Some((vs, j)) => Some((acc@ + vs, j)),
                None => None::<(Seq<Identity>, int)>,
            }),
        decreases n - k,
    {
        match read_identity(s, p) {
            Some((id, p2)) => {
                proof {
                    let tail = dec_identity_seq(s@, p2 as int, (n - k - 1) as nat);
                    if tail is Some {
                        let (vs, j) = tail.unwrap();
                        assert(acc@ + (seq![id] + vs) =~= acc@.push(id) + vs);
                    }
                }
                acc.push(id);
                p = p2;
                k = k + 1;
            },
            None => {
                proof {
                    assert(dec_identity_seq(s@, p as int, (n - k) as nat) is None);
                }
                return None;
            },
        }
    }
    proof {
        assert(acc@ + Seq::<Identity>::empty() =~= acc@);
    }
    Some((acc, p))
}

/// Reads a timelock.
pub fn read_timelock(s: &Vec<u8>, pos: usize) -> (r: Option<(Timelock, usize)>)
    ensures
        match r {
            Some((v, p2)) => dec_timelock(s@, pos as int) == Some((v@, p2 as int)) && p2
                <= s@.len(),
            None => dec_timelock(s@, pos as int) is None,
        },
{
    let (schedule_id, p0) = match read_u32(s, pos) {
        Some(x) => x,
        None => {
            return None;
        },
    };
    let (commencement_timestamp, p1) = match read_u32(s, p0) {
        Some(x) => x,
        None => {
            return None;
        },
    };
    let (tokens_transferred, p2) = match read_u32(s, p1) {
        Some(x) => x,
        None => {
            return None;
        },
    };
    let (total_amount, p3) = match read_u32(s, p2) {
        Some(x) => x,
        None => {
            return None;
        },
    };
    let (cancelable_by, p4) = match read_identity_list(s, p3) {
        Some(x) => x,
        None => {
            return None;
        },
    };
    Some(
        (
            Timelock {
                schedule_id,
                commencement_timestamp,
                tokens_transferred,
                total_amount,
                cancelable_by,
            },
            p4,
        ),
    )
}

/// Reads a count-prefixed timelock list.
pub fn read_timelock_list(s: &Vec<u8>, pos: usize) -> (r: Option<(Vec<Timelock>, usize)>)
    ensures
        match r {
            Some((v, p2)) => dec_timelock_list(s@, pos as int) == Some(
                (v@.map_values(|t: Timelock| t@), p2 as int),
            ) && p2 <= s@.len(),
            None => dec_timelock_list(s@, pos as int) is None,
        },
{
    broadcast use crate::types::lemma_map_values_push;

    let (n, start) = match read_u32(s, pos) {
        Some(x) => x,
        None => {
            return None;
        },
    };
    let mut acc: Vec<Timelock> = Vec::new();
    let mut p: usize = start;
    let mut k: u32 = 0;
    while k < n
        invariant
            k <= n,
            p <= s@.len(),
            dec_u32(s@, pos as int) == Some((n, start as int)),
            dec_timelock_seq(s@, start as int, n as nat) == (match dec_timelock_seq(
                s@,
                p as int,
                (n - k) as nat,
            ) {
                Some((vs, j)) => Some((acc@.map_values(|t: Timelock| t@) + vs, j)),
                None => None::<(Seq<TimelockModel>, int)>,
            }),
        decreases n - k,
    {
        match read_timelock(s, p) {
            Some((tl, p2)) => {
                proof {
                    let tail = dec_timelock_seq(s@, p2 as int, (n - k - 1) as nat);
                    if tail is Some {
                        let (vs, j) = tail.unwrap();
                        assert(acc@.map_values(|t: Timelock| t@) + (seq![tl@] + vs)
                            =~= acc@.map_values(|t: Timelock| t@).push(tl@) + vs);
                    }
                }
                acc.push(tl);
                p = p2;
                k = k + 1;
            },
            None => {
                proof {
                    assert(dec_timelock_seq(s@, p as int, (n - k) as nat) is None);
                }
                return None;
            },
        }
    }
    proof {
        assert(acc@.map_values(|t: Timelock| t@) + Seq::<TimelockModel>::empty() =~= acc@.map_values(
            |t: Timelock| t@,
        ));
    }
    Some((acc, p))
}

/// Reads one recipient's ledger entry.
pub fn read_entry(s: &Vec<u8>, pos: usize) -> (r: Option<(TimelockEntry, usize)>)
    ensures
        match r {
            Some((v, p2)) => dec_entry(s@, pos as int) == Some((v@, p2 as int)) && p2 <= s@.len(),
            None => dec_entry(s@, pos as int) is None,
        },
{
    let (recipient, p0) = match read_identity(s, pos) {
        Some(x) => x,
        None => {
            return None;
        },
    };
    let (timelocks, p1) = match read_timelock_list(s, p0) {
        Some(x) => x,
        None => {
            return None;
        },
    };
    Some((TimelockEntry { recipient, timelocks }, p1))
}

/// Reads a count-prefixed entry list.
pub fn read_entry_list(s: &Vec<u8>, pos: usize) -> (r: Option<(Vec<TimelockEntry>, usize)>)
    ensures
        match r {
            Some((v, p2)) => dec_entry_list(s@, pos as int) == Some(
                (v@.map_values(|e: TimelockEntry| e@), p2 as int),
            ) && p2 <= s@.len(),
            None => dec_entry_list(s@, pos as int) is None,
        },
{
    broadcast use crate::types::lemma_map_values_push;

    let (n, start) = match read_u32(s, pos) {
        Some(x) => x,
        None => {
            return None;
        },
    };
    let mut acc: Vec<TimelockEntry> = Vec::new();
    let mut p: usize = start;
    let mut k: u32 = 0;
    while k < n
        invariant
            k <= n,
            p <= s@.len(),
            dec_u32(s@, pos as int) == Some((n, start as int)),
            dec_entry_seq(s@, start as int, n as nat) == (match dec_entry_seq(
                s@,
                p as int,
                (n - k) as nat,
            ) {
                Some((vs, j)) => Some((acc@.map_values(|e: TimelockEntry| e@) + vs, j)),
                None => None::<(Seq<TimelockEntryModel>, int)>,
            }),
        decreases n - k,
    {
        match read_entry(s, p) {
            Some((entry, p2)) => {
                proof {
                    let tail = dec_entry_seq(s@, p2 as int, (n - k - 1) as nat);
                    if tail is Some {
                        let (vs, j) = tail.unwrap();
                        assert(acc@.map_values(|e: TimelockEntry| e@) + (seq![entry@] + vs)
                            =~= acc@.map_values(|e: TimelockEntry| e@).push(entry@) + vs);
                    }
                }
                acc.push(entry);
                p = p2;
                k = k + 1;
            },
            None => {
                proof {
                    assert(dec_entry_seq(s@, p as int, (n - k) as nat) is None);
                }
                return None;
            },
        }
    }
    proof {
        assert(acc@.map_values(|e: TimelockEntry| e@) + Seq::<TimelockEntryModel>::empty()
            =~= acc@.map_values(|e: TimelockEntry| e@));
    }
    Some((acc, p))
}

/// Reads one balance pair.
pub fn read_balance(s: &Vec<u8>, pos: usize) -> (r: Option<(BalanceEntry, usize)>)
    ensures
        match r {
            Some((v, p2)) => dec_balance(s@, pos as int) == Some((v, p2 as int)) && p2
                <= s@.len(),
            None => dec_balance(s@, pos as int) is None,
        },
{
    let (key, p0) = match read_identity(s, pos) {
        Some(x) => x,
        None => {
            return None;
        },
    };
    let (value, p1) = match read_u32(s, p0) {
        Some(x) => x,
        None => {
            return None;
        },
    };
    Some((BalanceEntry { key, value }, p1))
}

/// Reads a count-prefixed balance list.
pub fn read_balance_list(s: &Vec<u8>, pos: usize) -> (r: Option<(Vec<BalanceEntry>, usize)>)
    ensures
        match r {
            Some((v, p2)) => dec_balance_list(s@, pos as int) == Some((v@, p2 as int)) && p2
                <= s@.len(),
            None => dec_balance_list(s@, pos as int) is None,
        },
{
    let (n, start) = match read_u32(s, pos) {
        Some(x) => x,
        None => {
            return None;
        },
    };
    let mut acc: Vec<BalanceEntry> = Vec::new();
    let mut p: usize = start;
    let mut k: u32 = 0;
    while k < n
        invariant
            k <= n,
            p <= s@.len(),
            dec_u32(s@, pos as int) == Some((n, start as int)),
            dec_balance_seq(s@, start as int, n as nat) == (match dec_balance_seq(
                s@,
                p as int,
                (n - k) as nat,
            ) {
                Some((vs, j)) => Some((acc@ + vs, j)),
                None => None::<(Seq<BalanceEntry>, int)>,
            }),
        decreases n - k,
    {
        match read_balance(s, p) {
            Some((b, p2)) => {
                proof {
                    let tail = dec_balance_seq(s@, p2 as int, (n - k - 1) as nat);
                    if tail is Some {
                        let (vs, j) = tail.unwrap();
                        assert(acc@ + (seq![b] + vs) =~= acc@.push(b) + vs);
                    }
                }
                acc.push(b);
                p = p2;
                k = k + 1;
            },
            None => {
                proof {
                    assert(dec_balance_seq(s@, p as int, (n - k) as nat) is None);
                }
                return None;
            },
        }
    }
    proof {
        assert(acc@ + Seq::<BalanceEntry>::empty() =~= acc@);
    }
    Some((acc, p))
}

/// Reads one allowance entry.
pub fn read_allowance(s: &Vec<u8>, pos: usize) -> (r: Option<(AllowanceEntry, usize)>)
    ensures
        match r {
            Some((v, p2)) => dec_allowance(s@, pos as int) == Some((v@, p2 as int)) && p2
                <= s@.len(),
            None => dec_allowance(s@, pos as int) is None,
        },
{
    let (owner, p0) = match read_identity(s, pos) {
        Some(x) => x,
        None => {
            return None;
        },
    };
    let (entries, p1) = match read_balance_list(s, p0) {
        Some(x) => x,
        None => {
            return None;
        },
    };
    Some((AllowanceEntry { owner, entries }, p1))
}

/// Reads a count-prefixed allowance list.
pub fn read_allowance_list(s: &Vec<u8>, pos: usize) -> (r: Option<(Vec<AllowanceEntry>, usize)>)
    ensures
        match r {
            Some((v, p2)) => dec_allowance_list(s@, pos as int) == Some(
                (v@.map_values(|a: AllowanceEntry| a@), p2 as int),
            ) && p2 <= s@.len(),
            None => dec_allowance_list(s@, pos as int) is None,
        },
{
    broadcast use crate::types::lemma_map_values_push;

    let (n, start) = match read_u32(s, pos) {
        Some(x) => x,
        None => {
            return None;
        },
    };
    let mut acc: Vec<AllowanceEntry> = Vec::new();
    let mut p: usize = start;
    let mut k: u32 = 0;
    while k < n
        invariant
            k <= n,
            p <= s@.len(),
            dec_u32(s@, pos as int) == Some((n, start as int)),
            dec_allowance_seq(s@, start as int, n as nat) == (match dec_allowance_seq(
                s@,
                p as int,
                (n - k) as nat,
            ) {
                Some((vs, j)) => Some((acc@.map_values(|a: AllowanceEntry| a@) + vs, j)),
                None => None::<(Seq<AllowanceEntryModel>, int)>,
            }),
        decreases n - k,
    {
        match read_allowance(s, p) {
            Some((a, p2)) => {
                proof {
                    let tail = dec_allowance_seq(s@, p2 as int, (n - k - 1) as nat);
                    if tail is Some {
                        let (vs, j) = tail.unwrap();
                        assert(acc@.map_values(|a2: AllowanceEntry| a2@) + (seq![a@] + vs)
                            =~= acc@.map_values(|a2: AllowanceEntry| a2@).push(a@) + vs);
                    }
                }
                acc.push(a);
                p = p2;
                k = k + 1;
            },
            None => {
                proof {
                    assert(dec_allowance_seq(s@, p as int, (n - k) as nat) is None);
                }
                return None;
            },
        }
    }
    proof {
        assert(acc@.map_values(|a: AllowanceEntry| a@) + Seq::<AllowanceEntryModel>::empty()
            =~= acc@.map_values(|a: AllowanceEntry| a@));
    }
    Some((acc, p))
}

/// Deserializes an account record; the record must take up the buffer
/// exactly.
pub fn decode_account(s: &Vec<u8>) -> (r: Option<TokenLockAccount>)
    ensures
        match r {
            Some(account) => decode_account_bytes(s@) == Some(account@),
            None => decode_account_bytes(s@) is None,
        },
{
    let (counter, p0) = match read_u32(s, 0) {
        Some(x) => x,
        None => {
            return None;
        },
    };
    let (max_release_delay, p1) = match read_u32(s, p0) {
        Some(x) => x,
        None => {
            return None;
        },
    };
    let (min_timelock_amount, p2) = match read_u32(s, p1) {
        Some(x) => x,
        None => {
            return None;
        },
    };
    let (release_schedules, p3) = match read_schedule_list(s, p2) {
        Some(x) => x,
        None => {
            return None;
        },
    };
    let (timelocks, p4) = match read_entry_list(s, p3) {
        Some(x) => x,
        None => {
            return None;
        },
    };
    let (total_tokens_unlocked, p5) = match read_balance_list(s, p4) {
        Some(x) => x,
        None => {
            return None;
        },
    };
    let (allowances, p6) = match read_allowance_list(s, p5) {
        Some(x) => x,
        None => {
            return None;
        },
    };
    if p6 != s.len() {
        return None;
    }
    Some(
        TokenLockAccount {
            counter,
            max_release_delay,
            min_timelock_amount,
            release_schedules,
            timelocks,
            total_tokens_unlocked,
            allowances,
        },
    )
}

/// Reads a count-prefixed schedule list.
pub fn read_schedule_list(s: &Vec<u8>, pos: usize) -> (r: Option<(Vec<ReleaseSchedule>, usize)>)
    ensures
        match r {
            Some((v, p2)) => dec_schedule_list(s@, pos as int) == Some((v@, p2 as int)) && p2
                <= s@.len(),
            None => dec_schedule_list(s@, pos as int) is None,
        },
{
    let (n, start) = match read_u32(s, pos) {
        Some(x) => x,
        None => {
            return None;
        },
    };
    let mut acc: Vec<ReleaseSchedule> = Vec::new();
    let mut p: usize = start;
    let mut k: u32 = 0;
    while k < n
        invariant
            k <= n,
            p <= s@.len(),
            dec_u32(s@, pos as int) == Some((n, start as int)),
            dec_schedule_seq(s@, start as int, n as nat) == (match dec_schedule_seq(
                s@,
                p as int,
                (n - k) as nat,
            ) {
                Some((vs, j)) => Some((acc@ + vs, j)),
                None => None::<(Seq<ReleaseSchedule>, int)>,
            }),
        decreases n - k,
    {
        match read_schedule(s, p) {
            Some((rs, p2)) => {
                proof {
                    let tail = dec_schedule_seq(s@, p2 as int, (n - k - 1) as nat);
                    if tail is Some {
                        let (vs, j) = tail.unwrap();
                        assert(acc@ + (seq![rs] + vs) =~= acc@.push(rs) + vs);
                    }
                }
                acc.push(rs);
                p = p2;
                k = k + 1;
            },
            None => {
                proof {
                    assert(dec_schedule_seq(s@, p as int, (n - k) as nat) is None);
                }
                return None;
            },
        }
    }
    proof {
        assert(acc@ + Seq::<ReleaseSchedule>::empty() =~= acc@);
    }
    Some((acc, p))
}

} // verus!
