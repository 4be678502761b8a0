//! The byte layout of the buffer, stated over the models.
use vstd::prelude::*;
use crate::account::{AccountModel, SlotModel};
use crate::wire::{u32_le, u64_le};

verus! {

/// First byte of a full account record; also the placeholder that follows it.
pub const NON_DUP_MARKER: u8 = 0xFF;

/// Length of a full record before its data bytes:
/// two markers, three flags, the 4-byte length, two identifiers, lamports and the 8-byte length.
pub const RECORD_HEADER_LEN: usize = 89;

/// Most slots a buffer can hold: the count is a single byte.
pub const MAX_SLOTS: usize = 255;

/// Largest data length that the 4-byte length field can carry.
pub const MAX_DATA_LEN: u64 = 0xFFFF_FFFF;

/// Why a plan cannot be encoded, or a buffer cannot be decoded.
#[derive(Clone, Copy, Debug, PartialEq, Eq, Structural)]
pub enum CodecError {
    /// The plan has more slots than the count byte can say.
    PlanTooLarge,
    /// An account's data is longer than the 4-byte length field can say.
    DataLengthOverflow,
    /// A duplicate refers to a position that is not an earlier full account.
    InvalidDuplicateReference,
    /// The bytes are not the encoding of any valid plan.
    MalformedBuffer,
}

/// The byte that records a flag.
pub open spec fn flag_byte(b: bool) -> u8 {
    if b {
        1
    } else {
        0
    }
}

/// The full record of an account: header and data.
pub open spec fn record_bytes(a: AccountModel) -> Seq<u8> {
    seq![
        NON_DUP_MARKER,
        NON_DUP_MARKER,
        flag_byte(a.is_signer),
        flag_byte(a.is_writable),
        flag_byte(a.executable),
    ] + u32_le(a.data.len() as u32) + a.identifier + a.owner + u64_le(a.lamports) + u64_le(
        a.data.len() as u64,
    ) + a.data
}

/// The bytes of one slot: a full record, or the single index byte of a duplicate.
pub open spec fn slot_bytes(s: SlotModel) -> Seq<u8> {
    match s {
        SlotModel::Original(a) => record_bytes(a),
        SlotModel::DuplicateOf(j) => seq![j as u8],
    }
}

/// The bytes of the slots of `plan`, one after another.
pub open spec fn body_bytes(plan: Seq<SlotModel>) -> Seq<u8>
    decreases plan.len(),
{
    if plan.len() == 0 {
        Seq::empty()
    } else {
        body_bytes(plan.drop_last()) + slot_bytes(plan.last())
    }
}

/// The buffer of a plan: the slot count, then the slots.
pub open spec fn encoding(plan: Seq<SlotModel>) -> Seq<u8> {
    seq![plan.len() as u8] + body_bytes(plan)
}

/// An account that a record can carry.
pub open spec fn account_ok(a: AccountModel) -> bool {
    &&& a.identifier.len() == 32
    &&& a.owner.len() == 32
    &&& a.data.len() <= MAX_DATA_LEN
}

/// Position `i` of `plan` is a well-formed slot: a full account that a record can
/// carry, or a reference to an earlier position that holds a full account.
pub open spec fn slot_ok(plan: Seq<SlotModel>, i: int) -> bool {
    match plan[i] {
        SlotModel::Original(a) => account_ok(a),
        SlotModel::DuplicateOf(j) => j < i && plan[j as int] is Original,
    }
}

/// A plan that can be encoded.
pub open spec fn valid_plan(plan: Seq<SlotModel>) -> bool {
    &&& plan.len() <= MAX_SLOTS
    &&& forall|i: int| 0 <= i < plan.len() ==> #[trigger] slot_ok(plan, i)
}

/// Position `i` holds a full account whose data is too long for its record.
pub open spec fn data_too_long(plan: Seq<SlotModel>, i: int) -> bool {
    match plan[i] {
        SlotModel::Original(a) => a.data.len() > MAX_DATA_LEN,
        SlotModel::DuplicateOf(_) => false,
    }
}

/// Position `i` holds a duplicate that does not refer to an earlier full account.
pub open spec fn bad_reference(plan: Seq<SlotModel>, i: int) -> bool {
    match plan[i] {
        SlotModel::Original(_) => false,
        SlotModel::DuplicateOf(j) => !(j < i && plan[j as int] is Original),
    }
}

/// The error that encoding `plan` reports, if any: the size of the plan is
/// checked first, then the data lengths, then the duplicate references.
pub open spec fn plan_error(plan: Seq<SlotModel>) -> Option<CodecError> {
    if plan.len() > MAX_SLOTS {
        Some(CodecError::PlanTooLarge)
    } else if exists|i: int| 0 <= i < plan.len() && #[trigger] data_too_long(plan, i) {
        Some(CodecError::DataLengthOverflow)
    } else if exists|i: int| 0 <= i < plan.len() && #[trigger] bad_reference(plan, i) {
        Some(CodecError::InvalidDuplicateReference)
    } else {
        None
    }
}

/// The number of full accounts in `plan`.
pub open spec fn original_count(plan: Seq<SlotModel>) -> nat
    decreases plan.len(),
{
    if plan.len() == 0 {
        0
    } else {
        original_count(plan.drop_last()) + if plan.last() is Original {
            1nat
        } else {
            0nat
        }
    }
}

/// The number of duplicates in `plan`.
pub open spec fn duplicate_count(plan: Seq<SlotModel>) -> nat
    decreases plan.len(),
{
    if plan.len() == 0 {
        0
    } else {
        duplicate_count(plan.drop_last()) + if plan.last() is DuplicateOf {
            1nat
        } else {
            0nat
        }
    }
}

/// The total data length of the full accounts in `plan`.
pub open spec fn total_data_len(plan: Seq<SlotModel>) -> nat
    decreases plan.len(),
{
    if plan.len() == 0 {
        0
    } else {
        total_data_len(plan.drop_last()) + match plan.last() {
            SlotModel::Original(a) => a.data.len(),
            SlotModel::DuplicateOf(_) => 0nat,
        }
    }
}

/// The record of an account is its 89 header bytes and its data.
pub proof fn lemma_record_len(a: AccountModel)
    requires
        account_ok(a),
    ensures
        record_bytes(a).len() == RECORD_HEADER_LEN + a.data.len(),
{
    let head = seq![
        NON_DUP_MARKER,
        NON_DUP_MARKER,
        flag_byte(a.is_signer),
        flag_byte(a.is_writable),
        flag_byte(a.executable),
    ];
    assert(head.len() == 5);
    assert(u32_le(a.data.len() as u32).len() == 4);
    assert(u64_le(a.lamports).len() == 8);
    assert(u64_le(a.data.len() as u64).len() == 8);
}

/// A plan's slots take one header per full account, its data, and one byte per duplicate.
pub proof fn lemma_body_len(plan: Seq<SlotModel>)
    requires
        forall|i: int| 0 <= i < plan.len() ==> #[trigger] slot_ok(plan, i),
    ensures
        body_bytes(plan).len() == RECORD_HEADER_LEN * original_count(plan) + total_data_len(plan)
            + duplicate_count(plan),
    decreases plan.len(),
{
    if plan.len() > 0 {
        let p = plan.drop_last();
        assert forall|i: int| 0 <= i < p.len() implies #[trigger] slot_ok(p, i) by {
            assert(slot_ok(plan, i));
        }
        lemma_body_len(p);
        assert(slot_ok(plan, plan.len() - 1));
        let c = original_count(p);
        assert(RECORD_HEADER_LEN * (c + 1) == RECORD_HEADER_LEN * c + RECORD_HEADER_LEN)
            by (nonlinear_arith);
        if let SlotModel::Original(a) = plan.last() {
            lemma_record_len(a);
        }
    }
}

/// Size law: a valid plan with `k` full accounts holding `d` data bytes in all
/// and `m` duplicates encodes to `1 + 89 k + d + m` bytes.
pub proof fn lemma_encoded_len(plan: Seq<SlotModel>)
    requires
        valid_plan(plan),
    ensures
        encoding(plan).len() == 1 + RECORD_HEADER_LEN * original_count(plan) + total_data_len(
            plan,
        ) + duplicate_count(plan),
{
    lemma_body_len(plan);
}


/// An account with no data has a record of exactly the header, with both
/// length fields zero.
pub proof fn lemma_empty_data_record(a: AccountModel)
    requires
        account_ok(a),
        a.data.len() == 0,
    ensures
        record_bytes(a).len() == RECORD_HEADER_LEN,
        record_bytes(a).subrange(5, 9) == seq![0u8, 0u8, 0u8, 0u8],
        record_bytes(a).subrange(81, 89) == seq![0u8, 0u8, 0u8, 0u8, 0u8, 0u8, 0u8, 0u8],
{
    let r = record_bytes(a);
    lemma_record_len(a);
    assert(r.subrange(5, 9) =~= u32_le(0u32));
    assert(r.subrange(81, 89) =~= u64_le(0u64));
    assert(u32_le(0u32) =~= seq![0u8, 0u8, 0u8, 0u8]) by {
        assert(0u32 as u8 == 0u8 && (0u32 >> 8u32) as u8 == 0u8 && (0u32 >> 16u32) as u8 == 0u8
            && (0u32 >> 24u32) as u8 == 0u8) by (bit_vector);
    }
    assert(u64_le(0u64) =~= seq![0u8, 0u8, 0u8, 0u8, 0u8, 0u8, 0u8, 0u8]) by {
        assert(0u64 as u8 == 0u8 && (0u64 >> 8u64) as u8 == 0u8 && (0u64 >> 16u64) as u8 == 0u8
            && (0u64 >> 24u64) as u8 == 0u8 && (0u64 >> 32u64) as u8 == 0u8 && (0u64 >> 40u64)
            as u8 == 0u8 && (0u64 >> 48u64) as u8 == 0u8 && (0u64 >> 56u64) as u8 == 0u8)
            by (bit_vector);
    }
}

/// The count byte: a plan of up to 255 slots has its length as the first byte,
/// so 255 slots give 0xFF; a longer plan is refused as too large.
pub proof fn lemma_slot_count(plan: Seq<SlotModel>)
    ensures
        plan.len() <= MAX_SLOTS ==> encoding(plan)[0] == plan.len(),
        plan.len() == MAX_SLOTS ==> encoding(plan)[0] == 0xFFu8,
        plan.len() > MAX_SLOTS ==> plan_error(plan) == Some(CodecError::PlanTooLarge),
{
}

} // verus!
