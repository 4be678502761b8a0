//! Why a buffer determines the plan it encodes.
use vstd::prelude::*;
use crate::account::{AccountModel, SlotModel};
use crate::format::{
    NON_DUP_MARKER,
    account_ok,
    body_bytes,
    flag_byte,
    record_bytes,
    slot_bytes,
    slot_ok,
    valid_plan,
};
use crate::wire::{
    le_u64,
    lemma_u32_le_round_trip,
    lemma_u64_le_round_trip,
    u32_le,
    u64_le,
};

verus! {

/// `s` begins with the bytes `p`.
pub open spec fn starts_with(s: Seq<u8>, p: Seq<u8>) -> bool {
    p.len() <= s.len() && s.subrange(0, p.len() as int) == p
}

/// `s` begins with `x + y` exactly when it begins with `x` and the rest begins with `y`.
pub proof fn lemma_starts_with_concat(s: Seq<u8>, x: Seq<u8>, y: Seq<u8>)
    ensures
        starts_with(s, x + y) <==> (starts_with(s, x) && starts_with(
            s.subrange(x.len() as int, s.len() as int),
            y,
        )),
{
    if starts_with(s, x + y) {
        assert(s.subrange(0, x.len() as int) =~= (x + y).subrange(0, x.len() as int));
        assert(s.subrange(x.len() as int, s.len() as int).subrange(0, y.len() as int) =~= (x
            + y).subrange(x.len() as int, (x + y).len() as int));
        assert(x =~= (x + y).subrange(0, x.len() as int));
        assert(y =~= (x + y).subrange(x.len() as int, (x + y).len() as int));
    }
    if starts_with(s, x) && starts_with(s.subrange(x.len() as int, s.len() as int), y) {
        assert(s.subrange(0, (x + y).len() as int) =~= x + y);
    }
}

/// Where each field of a record lies.
pub proof fn lemma_record_fields(a: AccountModel)
    requires
        account_ok(a),
    ensures
        ({
            let r = record_bytes(a);
            &&& r.len() == 89 + a.data.len()
            &&& r[0] == NON_DUP_MARKER
            &&& r[1] == NON_DUP_MARKER
            &&& r[2] == flag_byte(a.is_signer)
            &&& r[3] == flag_byte(a.is_writable)
            &&& r[4] == flag_byte(a.executable)
            &&& r.subrange(5, 9) == u32_le(a.data.len() as u32)
            &&& r.subrange(9, 41) == a.identifier
            &&& r.subrange(41, 73) == a.owner
            &&& r.subrange(73, 81) == u64_le(a.lamports)
            &&& r.subrange(81, 89) == u64_le(a.data.len() as u64)
            &&& r.subrange(89, r.len() as int) == a.data
        }),
{
    let r = record_bytes(a);
    let n = a.data.len() as int;
    lemma_u32_le_round_trip(a.data.len() as u32);
    lemma_u64_le_round_trip(a.lamports);
    lemma_u64_le_round_trip(a.data.len() as u64);
    assert(r.len() == 89 + n);
    assert(r.subrange(5, 9) =~= u32_le(a.data.len() as u32));
    assert(r.subrange(9, 41) =~= a.identifier);
    assert(r.subrange(41, 73) =~= a.owner);
    assert(r.subrange(73, 81) =~= u64_le(a.lamports));
    assert(r.subrange(81, 89) =~= u64_le(a.data.len() as u64));
    assert(r.subrange(89, r.len() as int) =~= a.data);
}

/// A record is its fields laid end to end, read back from any byte window that
/// holds them in their places.
pub proof fn lemma_record_from_fields(a: AccountModel, w: Seq<u8>)
    requires
        account_ok(a),
        w.len() == 89 + a.data.len(),
        w[0] == NON_DUP_MARKER,
        w[1] == NON_DUP_MARKER,
        w[2] == flag_byte(a.is_signer),
        w[3] == flag_byte(a.is_writable),
        w[4] == flag_byte(a.executable),
        w.subrange(5, 9) == u32_le(a.data.len() as u32),
        w.subrange(9, 41) == a.identifier,
        w.subrange(41, 73) == a.owner,
        w.subrange(73, 81) == u64_le(a.lamports),
        w.subrange(81, 89) == u64_le(a.data.len() as u64),
        w.subrange(89, w.len() as int) == a.data,
    ensures
        record_bytes(a) == w,
{
    let n = w.len() as int;
    assert(w =~= seq![w[0], w[1], w[2], w[3], w[4]] + w.subrange(5, 9) + w.subrange(9, 41)
        + w.subrange(41, 73) + w.subrange(73, 81) + w.subrange(81, 89) + w.subrange(89, n));
}

/// Two accounts whose records both begin `s` are the same account.
pub proof fn lemma_record_unique(x: AccountModel, y: AccountModel, s: Seq<u8>)
    requires
        account_ok(x),
        account_ok(y),
        starts_with(s, record_bytes(x)),
        starts_with(s, record_bytes(y)),
    ensures
        x == y,
{
    let rx = record_bytes(x);
    let ry = record_bytes(y);
    lemma_record_fields(x);
    lemma_record_fields(y);
    assert(s[2] == rx[2] && s[2] == ry[2]);
    assert(s[3] == rx[3] && s[3] == ry[3]);
    assert(s[4] == rx[4] && s[4] == ry[4]);
    assert(s.subrange(9, 41) =~= rx.subrange(9, 41));
    assert(s.subrange(9, 41) =~= ry.subrange(9, 41));
    assert(s.subrange(41, 73) =~= rx.subrange(41, 73));
    assert(s.subrange(41, 73) =~= ry.subrange(41, 73));
    assert(s.subrange(73, 81) =~= rx.subrange(73, 81));
    assert(s.subrange(73, 81) =~= ry.subrange(73, 81));
    assert(s.subrange(81, 89) =~= rx.subrange(81, 89));
    assert(s.subrange(81, 89) =~= ry.subrange(81, 89));
    lemma_u64_le_round_trip(x.lamports);
    lemma_u64_le_round_trip(y.lamports);
    lemma_u64_le_round_trip(x.data.len() as u64);
    lemma_u64_le_round_trip(y.data.len() as u64);
    assert(x.lamports == le_u64(s.subrange(73, 81)));
    assert(y.lamports == le_u64(s.subrange(73, 81)));
    assert(x.data.len() as u64 == le_u64(s.subrange(81, 89)));
    assert(y.data.len() as u64 == le_u64(s.subrange(81, 89)));
    assert(x.data.len() == y.data.len());
    let n = x.data.len() as int;
    assert(s.subrange(89, 89 + n) =~= rx.subrange(89, rx.len() as int));
    assert(s.subrange(89, 89 + n) =~= ry.subrange(89, ry.len() as int));
    assert(x.data =~= y.data);
}

/// A slot that may stand in a valid plan: a full account that a record can
/// carry, or a duplicate whose index is not the marker byte.
pub open spec fn slot_encodable(s: SlotModel) -> bool {
    match s {
        SlotModel::Original(a) => account_ok(a),
        SlotModel::DuplicateOf(j) => j < 255,
    }
}

/// Two encodable slots whose bytes both begin `s` are the same slot.
pub proof fn lemma_slot_unique(a: SlotModel, b: SlotModel, s: Seq<u8>)
    requires
        slot_encodable(a),
        slot_encodable(b),
        starts_with(s, slot_bytes(a)),
        starts_with(s, slot_bytes(b)),
    ensures
        a == b,
{
    lemma_slot_first_byte(a);
    lemma_slot_first_byte(b);
    assert(s[0] == slot_bytes(a)[0]);
    assert(s[0] == slot_bytes(b)[0]);
    match a {
        SlotModel::Original(x) => {
            match b {
                SlotModel::Original(y) => lemma_record_unique(x, y, s),
                SlotModel::DuplicateOf(_) => {},
            }
        },
        SlotModel::DuplicateOf(_) => {},
    }
}

/// A full record begins with the marker; a duplicate's byte is its index, never the marker.
pub proof fn lemma_slot_first_byte(a: SlotModel)
    requires
        slot_encodable(a),
    ensures
        slot_bytes(a).len() >= 1,
        a is Original <==> slot_bytes(a)[0] == NON_DUP_MARKER,
        a matches SlotModel::DuplicateOf(j) ==> slot_bytes(a)[0] == j && slot_bytes(a).len()
            == 1,
{
    if let SlotModel::Original(x) = a {
        lemma_record_fields(x);
    }
}

/// A valid plan's positions are encodable slots.
pub proof fn lemma_valid_slot_encodable(plan: Seq<SlotModel>, i: int)
    requires
        valid_plan(plan),
        0 <= i < plan.len(),
    ensures
        slot_encodable(plan[i]),
{
    assert(slot_ok(plan, i));
}

/// Every prefix of a valid plan is valid.
pub proof fn lemma_take_valid(plan: Seq<SlotModel>, k: int)
    requires
        valid_plan(plan),
        0 <= k <= plan.len(),
    ensures
        valid_plan(plan.take(k)),
{
    let p = plan.take(k);
    assert forall|i: int| 0 <= i < p.len() implies #[trigger] slot_ok(p, i) by {
        assert(slot_ok(plan, i));
    }
}

/// The bytes of a plan's first `k` slots begin the bytes of the whole plan.
pub proof fn lemma_body_take(plan: Seq<SlotModel>, k: int)
    requires
        0 <= k <= plan.len(),
    ensures
        starts_with(body_bytes(plan), body_bytes(plan.take(k))),
    decreases plan.len(),
{
    if k == plan.len() {
        assert(plan.take(k) =~= plan);
        assert(body_bytes(plan).subrange(0, body_bytes(plan).len() as int) =~= body_bytes(plan));
    } else {
        let p = plan.drop_last();
        lemma_body_take(p, k);
        assert(p.take(k) =~= plan.take(k));
        lemma_starts_with_concat(body_bytes(plan), body_bytes(p), slot_bytes(plan.last()));
        lemma_starts_with_concat_left(body_bytes(p), body_bytes(plan.take(k)), slot_bytes(plan.last()));
    }
}

/// Extending a sequence keeps what it begins with.
proof fn lemma_starts_with_concat_left(s: Seq<u8>, p: Seq<u8>, t: Seq<u8>)
    requires
        starts_with(s, p),
    ensures
        starts_with(s + t, p),
{
    assert((s + t).subrange(0, p.len() as int) =~= s.subrange(0, p.len() as int));
}

/// One slot more: the bytes of the first `k + 1` slots are those of the first
/// `k` and then those of slot `k`.
pub proof fn lemma_body_take_step(plan: Seq<SlotModel>, k: int)
    requires
        0 <= k < plan.len(),
    ensures
        body_bytes(plan.take(k + 1)) == body_bytes(plan.take(k)) + slot_bytes(plan[k]),
{
    assert(plan.take(k + 1).drop_last() =~= plan.take(k));
}

/// Two valid plans of one length whose bytes both begin `s` are the same plan.
pub proof fn lemma_body_unique(a: Seq<SlotModel>, b: Seq<SlotModel>, s: Seq<u8>)
    requires
        valid_plan(a),
        valid_plan(b),
        a.len() == b.len(),
        starts_with(s, body_bytes(a)),
        starts_with(s, body_bytes(b)),
    ensures
        a == b,
    decreases a.len(),
{
    if a.len() > 0 {
        let n = a.len() - 1;
        let a0 = a.drop_last();
        let b0 = b.drop_last();
        assert(a0 =~= a.take(n));
        assert(b0 =~= b.take(n));
        lemma_take_valid(a, n);
        lemma_take_valid(b, n);
        lemma_starts_with_concat(s, body_bytes(a0), slot_bytes(a.last()));
        lemma_starts_with_concat(s, body_bytes(b0), slot_bytes(b.last()));
        lemma_body_unique(a0, b0, s);
        lemma_valid_slot_encodable(a, n);
        lemma_valid_slot_encodable(b, n);
        lemma_slot_unique(
            a.last(),
            b.last(),
            s.subrange(body_bytes(a0).len() as int, s.len() as int),
        );
        assert(a =~= a0.push(a.last()));
        assert(b =~= b0.push(b.last()));
    } else {
        assert(a =~= b);
    }
}

} // verus!
