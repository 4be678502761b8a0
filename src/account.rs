//! Account snapshots, encoding plans, and their mathematical models.
use vstd::prelude::*;

verus! {

/// A 32-byte account or program address.
#[derive(Clone, Copy, Debug)]
pub struct Identifier {
    pub bytes: [u8; 32],
}

impl Identifier {
    pub open spec fn view(&self) -> Seq<u8> {
        self.bytes@
    }

    /// The identifier with the given bytes.
    pub fn new(bytes: [u8; 32]) -> (r: Identifier)
        ensures
            r@ == bytes@,
    {
        Identifier { bytes }
    }

    /// The identifier whose 32 bytes are all zero.
    pub fn zero() -> (r: Identifier)
        ensures
            r@ == Seq::new(32, |i: int| 0u8),
    {
        let r = Identifier { bytes: [0u8; 32] };
        assert(r@ =~= Seq::new(32, |i: int| 0u8));
        r
    }

    /// The identifier whose first byte is `first` and whose other bytes are zero.
    pub fn with_first_byte(first: u8) -> (r: Identifier)
        ensures
            r@ == Seq::new(32, |i: int| 0u8).update(0, first),
    {
        let mut bytes = [0u8; 32];
        bytes.set(0, first);
        let r = Identifier { bytes };
        assert(r@ =~= Seq::new(32, |i: int| 0u8).update(0, first));
        r
    }

    /// The 32 bytes of the identifier.
    pub fn to_bytes(&self) -> (r: [u8; 32])
        ensures
            r@ == self@,
    {
        self.bytes
    }
}

impl Default for Identifier {
    fn default() -> (r: Identifier)
        ensures
            r@ == Seq::new(32, |i: int| 0u8),
    {
        Identifier::zero()
    }
}

/// What an account is, as the buffer records it.
pub struct AccountModel {
    pub identifier: Seq<u8>,
    pub owner: Seq<u8>,
    pub lamports: u64,
    pub data: Seq<u8>,
    pub is_signer: bool,
    pub is_writable: bool,
    pub executable: bool,
}

/// One account's state at the moment it is encoded.
#[derive(Clone, Debug)]
pub struct AccountSnapshot {
    pub identifier: Identifier,
    pub owner: Identifier,
    pub lamports: u64,
    pub data: Vec<u8>,
    pub is_signer: bool,
    pub is_writable: bool,
    pub executable: bool,
}

impl AccountSnapshot {
    pub open spec fn view(&self) -> AccountModel {
        AccountModel {
            identifier: self.identifier@,
            owner: self.owner@,
            lamports: self.lamports,
            data: self.data@,
            is_signer: self.is_signer,
            is_writable: self.is_writable,
            executable: self.executable,
        }
    }

    /// A snapshot of the given fields; nothing is checked here.
    pub fn new(
        identifier: Identifier,
        owner: Identifier,
        lamports: u64,
        data: Vec<u8>,
        is_signer: bool,
        is_writable: bool,
        executable: bool,
    ) -> (r: AccountSnapshot)
        ensures
            r@ == (AccountModel {
                identifier: identifier@,
                owner: owner@,
                lamports,
                data: data@,
                is_signer,
                is_writable,
                executable,
            }),
    {
        AccountSnapshot { identifier, owner, lamports, data, is_signer, is_writable, executable }
    }
}

/// One position of an encoding plan, as a model.
pub enum SlotModel {
    Original(AccountModel),
    DuplicateOf(nat),
}

/// One position of an encoding plan: a full account, or a reference back to
/// an earlier position that holds one.
#[derive(Clone, Debug)]
pub enum Slot {
    Original(AccountSnapshot),
    DuplicateOf(usize),
}

impl Slot {
    pub open spec fn view(&self) -> SlotModel {
        match self {
            Slot::Original(a) => SlotModel::Original(a@),
            Slot::DuplicateOf(j) => SlotModel::DuplicateOf(*j as nat),
        }
    }
}

/// The model of a sequence of slots.
pub open spec fn plan_view(plan: Seq<Slot>) -> Seq<SlotModel> {
    plan.map_values(|s: Slot| s@)
}

/// The account that position `i` of `plan` stands for, following a duplicate
/// reference one step.
pub open spec fn resolved(plan: Seq<SlotModel>, i: int) -> Option<AccountModel> {
    match plan[i] {
        SlotModel::Original(a) => Some(a),
        SlotModel::DuplicateOf(j) => if j < plan.len() {
            match plan[j as int] {
                SlotModel::Original(a) => Some(a),
                SlotModel::DuplicateOf(_) => None,
            }
        } else {
            None
        },
    }
}

/// The account at position `i` of `plan`: the one stored there, or the one
/// stored at the position that a duplicate there refers to.
pub fn account_at(plan: &Vec<Slot>, i: usize) -> (r: Option<&AccountSnapshot>)
    requires
        i < plan@.len(),
    ensures
        resolved(plan_view(plan@), i as int) == (match r {
            Some(a) => Some(a@),
            None => None::<AccountModel>,
        }),
{
    match &plan[i] {
        Slot::Original(a) => Some(a),
        Slot::DuplicateOf(j) => {
            if *j < plan.len() {
                match &plan[*j] {
                    Slot::Original(a) => Some(a),
                    Slot::DuplicateOf(_) => None,
                }
            } else {
                None
            }
        },
    }
}

} // verus!
