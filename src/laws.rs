//! Properties that relate encoding, decoding and duplicate resolution.
use vstd::prelude::*;
use crate::account::{SlotModel, resolved};
use crate::format::{body_bytes, encoding, slot_ok, valid_plan};
use crate::parse_lemmas::{lemma_body_unique, starts_with};

verus! {

/// Round trip: a valid plan is the only valid plan with its encoding, so the
/// plan that `decode` returns for the buffer that `encode` made is the plan
/// that was encoded, and `decode` does not fail on that buffer.
pub proof fn lemma_round_trip(plan: Seq<SlotModel>, decoded: Seq<SlotModel>)
    requires
        valid_plan(plan),
        valid_plan(decoded),
        encoding(decoded) == encoding(plan),
    ensures
        decoded == plan,
{
    let s = encoding(plan);
    let body = s.subrange(1, s.len() as int);
    assert(body =~= body_bytes(plan));
    assert(encoding(decoded).subrange(1, s.len() as int) =~= body_bytes(decoded));
    assert(decoded.len() as u8 == encoding(decoded)[0]);
    assert(plan.len() as u8 == s[0]);
    assert(body.subrange(0, body.len() as int) =~= body);
    assert(starts_with(body, body_bytes(plan)));
    assert(starts_with(body, body_bytes(decoded)));
    lemma_body_unique(plan, decoded, body);
}

/// Determinism: plans with the same model have byte-identical encodings.
pub proof fn lemma_encoding_deterministic(a: Seq<SlotModel>, b: Seq<SlotModel>)
    requires
        a == b,
    ensures
        encoding(a) == encoding(b),
{
}

/// Duplicate integrity: in a valid plan, such as one that `decode` returns, a
/// duplicate at position `i` refers to an earlier full account, and stands for
/// an account equal in every field to the one stored there.
pub proof fn lemma_duplicate_integrity(plan: Seq<SlotModel>, i: int)
    requires
        valid_plan(plan),
        0 <= i < plan.len(),
        plan[i] is DuplicateOf,
    ensures
        ({
            let j = plan[i]->DuplicateOf_0 as int;
            &&& 0 <= j < i
            &&& plan[j] is Original
            &&& resolved(plan, i) == Some(plan[j]->Original_0)
            &&& resolved(plan, j) == resolved(plan, i)
        }),
{
    assert(slot_ok(plan, i));
}

} // verus!
