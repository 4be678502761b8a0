//! The plans of the standard fixture buffers.
use vstd::prelude::*;
use crate::account::{AccountModel, AccountSnapshot, Identifier, Slot, SlotModel, plan_view};
use crate::format::{slot_ok, valid_plan};

verus! {

/// The 32-byte identifier whose first byte is `first` and whose other bytes are zero.
pub open spec fn numbered_id(first: u8) -> Seq<u8> {
    Seq::new(32, |i: int| 0u8).update(0, first)
}

/// A fixture account: identifier numbered `id`, the all-zero owner, and `len`
/// data bytes that all hold `fill`.
pub open spec fn fixture_account(
    id: u8,
    lamports: u64,
    fill: u8,
    len: nat,
    is_signer: bool,
    is_writable: bool,
    executable: bool,
) -> SlotModel {
    SlotModel::Original(
        AccountModel {
            identifier: numbered_id(id),
            owner: numbered_id(0),
            lamports,
            data: Seq::new(len, |i: int| fill),
            is_signer,
            is_writable,
            executable,
        },
    )
}

fn filled(fill: u8, len: usize) -> (r: Vec<u8>)
    ensures
        r@ == Seq::new(len as nat, |i: int| fill),
{
    let mut r: Vec<u8> = Vec::new();
    let mut i: usize = 0;
    while i < len
        invariant
            i <= len,
            r@ == Seq::new(i as nat, |k: int| fill),
        decreases len - i,
    {
        r.push(fill);
        i = i + 1;
        assert(r@ =~= Seq::new(i as nat, |k: int| fill));
    }
    r
}

fn fixture_slot(
    id: u8,
    lamports: u64,
    fill: u8,
    len: usize,
    is_signer: bool,
    is_writable: bool,
    executable: bool,
) -> (r: Slot)
    ensures
        r@ == fixture_account(id, lamports, fill, len as nat, is_signer, is_writable, executable),
{
    let zero = Identifier::with_first_byte(0);
    let account = AccountSnapshot::new(
        Identifier::with_first_byte(id),
        zero,
        lamports,
        filled(fill, len),
        is_signer,
        is_writable,
        executable,
    );
    Slot::Original(account)
}

/// One signer, writable account with ten bytes of 0xAA.
pub fn single_account_plan() -> (r: Vec<Slot>)
    ensures
        plan_view(r@) == seq![fixture_account(0, 1000, 0xAA, 10, true, true, false)],
        valid_plan(plan_view(r@)),
{
    let mut r: Vec<Slot> = Vec::new();
    r.push(fixture_slot(0, 1000, 0xAA, 10, true, true, false));
    proof {
        let pv = plan_view(r@);
        assert(pv =~= seq![fixture_account(0, 1000, 0xAA, 10, true, true, false)]);
        assert(slot_ok(pv, 0));
    }
    r
}

/// Three full accounts with different flags and data lengths.
pub fn multiple_accounts_plan() -> (r: Vec<Slot>)
    ensures
        plan_view(r@) == seq![
            fixture_account(0, 1000, 0xAA, 5, true, true, false),
            fixture_account(1, 2000, 0xBB, 10, false, true, false),
            fixture_account(2, 3000, 0xCC, 15, false, false, true),
        ],
        valid_plan(plan_view(r@)),
{
    let mut r: Vec<Slot> = Vec::new();
    r.push(fixture_slot(0, 1000, 0xAA, 5, true, true, false));
    r.push(fixture_slot(1, 2000, 0xBB, 10, false, true, false));
    r.push(fixture_slot(2, 3000, 0xCC, 15, false, false, true));
    proof {
        let pv = plan_view(r@);
        assert(pv =~= seq![
            fixture_account(0, 1000, 0xAA, 5, true, true, false),
            fixture_account(1, 2000, 0xBB, 10, false, true, false),
            fixture_account(2, 3000, 0xCC, 15, false, false, true),
        ]);
        assert(slot_ok(pv, 0) && slot_ok(pv, 1) && slot_ok(pv, 2));
    }
    r
}

/// An account with no data, then an executable one with four bytes of 0xFF.
pub fn empty_data_accounts_plan() -> (r: Vec<Slot>)
    ensures
        plan_view(r@) == seq![
            fixture_account(0, 1000, 0, 0, true, true, false),
            fixture_account(1, 2000, 0xFF, 4, false, false, true),
        ],
        valid_plan(plan_view(r@)),
{
    let mut r: Vec<Slot> = Vec::new();
    r.push(fixture_slot(0, 1000, 0, 0, true, true, false));
    r.push(fixture_slot(1, 2000, 0xFF, 4, false, false, true));
    proof {
        let pv = plan_view(r@);
        assert(pv =~= seq![
            fixture_account(0, 1000, 0, 0, true, true, false),
            fixture_account(1, 2000, 0xFF, 4, false, false, true),
        ]);
        assert(slot_ok(pv, 0) && slot_ok(pv, 1));
    }
    r
}

/// Five slots: three full accounts and duplicates of the first two.
pub fn accounts_with_duplicates_plan() -> (r: Vec<Slot>)
    ensures
        plan_view(r@) == seq![
            fixture_account(0, 1000, 0xAA, 8, true, true, false),
            fixture_account(1, 2000, 0xBB, 12, false, true, true),
            SlotModel::DuplicateOf(0),
            fixture_account(3, 3000, 0xCC, 6, true, false, false),
            SlotModel::DuplicateOf(1),
        ],
        valid_plan(plan_view(r@)),
{
    let mut r: Vec<Slot> = Vec::new();
    r.push(fixture_slot(0, 1000, 0xAA, 8, true, true, false));
    r.push(fixture_slot(1, 2000, 0xBB, 12, false, true, true));
    r.push(Slot::DuplicateOf(0));
    r.push(fixture_slot(3, 3000, 0xCC, 6, true, false, false));
    r.push(Slot::DuplicateOf(1));
    proof {
        let pv = plan_view(r@);
        assert(pv =~= seq![
            fixture_account(0, 1000, 0xAA, 8, true, true, false),
            fixture_account(1, 2000, 0xBB, 12, false, true, true),
            SlotModel::DuplicateOf(0),
            fixture_account(3, 3000, 0xCC, 6, true, false, false),
            SlotModel::DuplicateOf(1),
        ]);
        assert(slot_ok(pv, 0) && slot_ok(pv, 1) && slot_ok(pv, 2) && slot_ok(pv, 3) && slot_ok(
            pv,
            4,
        ));
    }
    r
}

/// Slot `i` of the ten-slot fixture: duplicates of slots 1 and 2 at positions 4
/// and 7; elsewhere a full account whose flags, lamports and data follow `i`.
pub open spec fn complex_slot(i: u8) -> SlotModel {
    if i == 4 {
        SlotModel::DuplicateOf(1)
    } else if i == 7 {
        SlotModel::DuplicateOf(2)
    } else {
        fixture_account(
            i,
            ((i + 1) * 500) as u64,
            (0xA0 + i) as u8,
            (((i % 4) + 1) * 3) as nat,
            i % 2 == 0,
            i % 3 != 0,
            i % 5 == 0,
        )
    }
}

/// Ten slots with flags, lamports and data that vary with the position.
pub fn complex_iteration_plan() -> (r: Vec<Slot>)
    ensures
        r@.len() == 10,
        forall|i: int| 0 <= i < 10 ==> #[trigger] plan_view(r@)[i] == complex_slot(i as u8),
        valid_plan(plan_view(r@)),
{
    let mut r: Vec<Slot> = Vec::new();
    let mut i: u8 = 0;
    while i < 10
        invariant
            i <= 10,
            r@.len() == i,
            forall|k: int| 0 <= k < i ==> #[trigger] r@[k]@ == complex_slot(k as u8),
        decreases 10 - i,
    {
        if i == 4 {
            r.push(Slot::DuplicateOf(1));
        } else if i == 7 {
            r.push(Slot::DuplicateOf(2));
        } else {
            let lamports = (i as u64 + 1) * 500;
            let len = ((i % 4) + 1) * 3;
            r.push(
                fixture_slot(i, lamports, 0xA0 + i, len as usize, i % 2 == 0, i % 3 != 0, i % 5 == 0),
            );
        }
        i = i + 1;
    }
    proof {
        let pv = plan_view(r@);
        assert forall|i: int| 0 <= i < pv.len() implies #[trigger] slot_ok(pv, i) by {
            assert(pv[i] == complex_slot(i as u8));
            if i == 4 {
                assert(pv[1] == complex_slot(1));
            }
            if i == 7 {
                assert(pv[2] == complex_slot(2));
            }
        }
    }
    r
}

} // verus!
