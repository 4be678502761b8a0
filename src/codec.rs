//! Encoding a plan into a buffer, and decoding a buffer back into a plan.
use vstd::prelude::*;
use crate::account::{AccountModel, AccountSnapshot, Identifier, Slot, SlotModel, plan_view};
use crate::format::{
    CodecError,
    MAX_DATA_LEN,
    MAX_SLOTS,
    NON_DUP_MARKER,
    RECORD_HEADER_LEN,
    account_ok,
    bad_reference,
    body_bytes,
    data_too_long,
    encoding,
    flag_byte,
    plan_error,
    record_bytes,
    slot_bytes,
    slot_ok,
    valid_plan,
};
use crate::parse_lemmas::{
    lemma_body_take,
    lemma_body_take_step,
    lemma_body_unique,
    lemma_record_fields,
    lemma_record_from_fields,
    lemma_starts_with_concat,
    lemma_take_valid,
    starts_with,
};
use crate::wire::{
    lemma_le_u32_bytes,
    lemma_le_u64_bytes,
    le_u32,
    le_u64,
    lemma_u32_le_round_trip,
    lemma_u64_le_round_trip,
    push_u32_le,
    push_u64_le,
    read_u32_le,
    read_u64_le,
    u64_le,
};

verus! {

fn flag_to_byte(b: bool) -> (r: u8)
    ensures
        r == flag_byte(b),
{
    if b {
        1
    } else {
        0
    }
}

fn push_identifier(buf: &mut Vec<u8>, id: &Identifier)
    ensures
        final(buf)@ == old(buf)@ + id@,
{
    let mut i: usize = 0;
    while i < 32
        invariant
            i <= 32,
            buf@ == old(buf)@ + id@.subrange(0, i as int),
        decreases 32 - i,
    {
        buf.push(id.bytes[i]);
        i = i + 1;
        assert(id@.subrange(0, i as int) =~= id@.subrange(0, i - 1) + seq![id@[i - 1]]);
    }
    assert(id@.subrange(0, 32) =~= id@);
}

fn push_bytes(buf: &mut Vec<u8>, data: &Vec<u8>)
    ensures
        final(buf)@ == old(buf)@ + data@,
{
    let mut i: usize = 0;
    while i < data.len()
        invariant
            i <= data@.len(),
            buf@ == old(buf)@ + data@.subrange(0, i as int),
        decreases data@.len() - i,
    {
        buf.push(data[i]);
        i = i + 1;
        assert(data@.subrange(0, i as int) =~= data@.subrange(0, i - 1) + seq![data@[i - 1]]);
    }
    assert(data@.subrange(0, data@.len() as int) =~= data@);
}

/// Appends the full record of `account`: markers, flags, lengths, identifiers,
/// lamports and data.
pub fn push_record(buf: &mut Vec<u8>, account: &AccountSnapshot)
    requires
        account.data@.len() <= MAX_DATA_LEN,
    ensures
        final(buf)@ == old(buf)@ + record_bytes(account@),
{
    let len = account.data.len();
    buf.push(NON_DUP_MARKER);
    buf.push(NON_DUP_MARKER);
    buf.push(flag_to_byte(account.is_signer));
    buf.push(flag_to_byte(account.is_writable));
    buf.push(flag_to_byte(account.executable));
    push_u32_le(buf, len as u32);
    push_identifier(buf, &account.identifier);
    push_identifier(buf, &account.owner);
    push_u64_le(buf, account.lamports);
    push_u64_le(buf, len as u64);
    push_bytes(buf, &account.data);
    assert(buf@ =~= old(buf)@ + record_bytes(account@));
}

/// Appends the field dump of an in-memory account structure: identifier, the
/// addresses of its lamports and data, its data length, owner, and three flags.
pub fn push_account_info_layout(
    buf: &mut Vec<u8>,
    identifier: &Identifier,
    lamports_addr: u64,
    data_addr: u64,
    data_len: u64,
    owner: &Identifier,
    is_signer: bool,
    is_writable: bool,
    executable: bool,
)
    ensures
        final(buf)@ == old(buf)@ + identifier@ + u64_le(lamports_addr) + u64_le(data_addr)
            + u64_le(data_len) + owner@ + seq![
            flag_byte(is_signer),
            flag_byte(is_writable),
            flag_byte(executable),
        ],
{
    push_identifier(buf, identifier);
    push_u64_le(buf, lamports_addr);
    push_u64_le(buf, data_addr);
    push_u64_le(buf, data_len);
    push_identifier(buf, owner);
    buf.push(flag_to_byte(is_signer));
    buf.push(flag_to_byte(is_writable));
    buf.push(flag_to_byte(executable));
    assert(buf@ =~= old(buf)@ + identifier@ + u64_le(lamports_addr) + u64_le(data_addr)
        + u64_le(data_len) + owner@ + seq![
        flag_byte(is_signer),
        flag_byte(is_writable),
        flag_byte(executable),
    ]);
}

/// Checks `plan` in full before anything is written, reporting the error that
/// encoding it must give.
pub fn check_plan(plan: &Vec<Slot>) -> (r: Result<(), CodecError>)
    ensures
        r is Ok <==> plan_error(plan_view(plan@)) is None,
        r matches Err(e) ==> plan_error(plan_view(plan@)) == Some(e),
{
    let ghost pv = plan_view(plan@);
    if plan.len() > MAX_SLOTS {
        return Err(CodecError::PlanTooLarge);
    }
    let mut i: usize = 0;
    while i < plan.len()
        invariant
            i <= plan@.len(),
            plan@.len() <= MAX_SLOTS,
            pv == plan_view(plan@),
            forall|k: int| 0 <= k < i ==> !#[trigger] data_too_long(pv, k),
        decreases plan@.len() - i,
    {
        assert(pv[i as int] == plan@[i as int]@);
        if let Slot::Original(a) = &plan[i] {
            if a.data.len() as u64 > MAX_DATA_LEN {
                assert(data_too_long(pv, i as int));
                return Err(CodecError::DataLengthOverflow);
            }
        }
        i = i + 1;
    }
    let mut i: usize = 0;
    while i < plan.len()
        invariant
            i <= plan@.len(),
            plan@.len() <= MAX_SLOTS,
            pv == plan_view(plan@),
            forall|k: int| 0 <= k < plan@.len() ==> !#[trigger] data_too_long(pv, k),
            forall|k: int| 0 <= k < i ==> !#[trigger] bad_reference(pv, k),
        decreases plan@.len() - i,
    {
        assert(pv[i as int] == plan@[i as int]@);
        if let Slot::DuplicateOf(j) = &plan[i] {
            let ok = *j < i && match &plan[*j] {
                Slot::Original(_) => true,
                Slot::DuplicateOf(_) => false,
            };
            if !ok {
                assert(bad_reference(pv, i as int));
                return Err(CodecError::InvalidDuplicateReference);
            }
        }
        i = i + 1;
    }
    Ok(())
}

/// A plan with no error is valid.
proof fn lemma_no_error_valid(plan: Seq<SlotModel>)
    requires
        plan_error(plan) is None,
        forall|i: int|
            0 <= i < plan.len() ==> (#[trigger] plan[i] matches SlotModel::Original(a) ==> (
            a.identifier.len() == 32 && a.owner.len() == 32)),
    ensures
        valid_plan(plan),
{
    assert forall|i: int| 0 <= i < plan.len() implies #[trigger] slot_ok(plan, i) by {
        assert(!data_too_long(plan, i));
        assert(!bad_reference(plan, i));
        assert(plan[i] matches SlotModel::Original(a) ==> (a.identifier.len() == 32
            && a.owner.len() == 32));
    }
}

/// The buffer for `plan`: the slot count, then for each slot its full record or,
/// for a duplicate, the index it refers to. Fails, before writing anything,
/// where the plan is too large, an account's data is too long, or a duplicate
/// does not refer to an earlier full account.
pub fn encode(plan: &Vec<Slot>) -> (r: Result<Vec<u8>, CodecError>)
    ensures
        r is Ok <==> plan_error(plan_view(plan@)) is None,
        r matches Ok(buf) ==> valid_plan(plan_view(plan@)) && buf@ == encoding(plan_view(plan@)),
        r matches Err(e) ==> plan_error(plan_view(plan@)) == Some(e),
{
    let ghost pv = plan_view(plan@);
    match check_plan(plan) {
        Err(e) => {
            return Err(e);
        },
        Ok(()) => {},
    }
    proof {
        assert forall|i: int| 0 <= i < pv.len() implies (#[trigger] pv[i] matches SlotModel::Original(a)
            ==> (a.identifier.len() == 32 && a.owner.len() == 32)) by {
            assert(pv[i] == plan@[i]@);
        }
        lemma_no_error_valid(pv);
    }
    let mut buf: Vec<u8> = Vec::new();
    buf.push(plan.len() as u8);
    let mut i: usize = 0;
    while i < plan.len()
        invariant
            i <= plan@.len(),
            pv == plan_view(plan@),
            valid_plan(pv),
            buf@ == seq![pv.len() as u8] + body_bytes(pv.take(i as int)),
        decreases plan@.len() - i,
    {
        assert(pv[i as int] == plan@[i as int]@);
        assert(slot_ok(pv, i as int));
        match &plan[i] {
            Slot::Original(a) => {
                push_record(&mut buf, a);
            },
            Slot::DuplicateOf(j) => {
                buf.push(*j as u8);
            },
        }
        assert(pv.take(i + 1).drop_last() =~= pv.take(i as int));
        assert(buf@ =~= seq![pv.len() as u8] + body_bytes(pv.take(i + 1)));
        i = i + 1;
    }
    assert(pv.take(pv.len() as int) =~= pv);
    Ok(buf)
}


fn read_identifier(buf: &[u8], pos: usize) -> (r: Identifier)
    requires
        pos + 32 <= buf@.len(),
    ensures
        r@ == buf@.subrange(pos as int, pos + 32),
{
    let mut bytes = [0u8; 32];
    let len = buf.len();
    let mut i: usize = 0;
    while i < 32
        invariant
            i <= 32,
            len == buf@.len(),
            pos + 32 <= buf@.len(),
            bytes@.len() == 32,
            forall|k: int| 0 <= k < i ==> bytes@[k] == buf@[pos + k],
        decreases 32 - i,
    {
        bytes.set(i, buf[pos + i]);
        i = i + 1;
    }
    let r = Identifier { bytes };
    assert(r@ =~= buf@.subrange(pos as int, pos + 32));
    r
}

fn read_bytes(buf: &[u8], pos: usize, n: usize) -> (r: Vec<u8>)
    requires
        pos + n <= buf@.len(),
    ensures
        r@ == buf@.subrange(pos as int, pos + n),
{
    let mut r: Vec<u8> = Vec::new();
    let len = buf.len();
    let mut i: usize = 0;
    while i < n
        invariant
            i <= n,
            len == buf@.len(),
            pos + n <= buf@.len(),
            r@ == buf@.subrange(pos as int, pos + i),
        decreases n - i,
    {
        r.push(buf[pos + i]);
        i = i + 1;
        assert(r@ =~= buf@.subrange(pos as int, pos + i));
    }
    r
}

fn byte_to_flag(b: u8) -> (r: Option<bool>)
    ensures
        r matches Some(f) ==> flag_byte(f) == b,
        r is None ==> b != 0 && b != 1,
{
    if b == 0 {
        Some(false)
    } else if b == 1 {
        Some(true)
    } else {
        None
    }
}

/// Reads the full record that begins at `pos`. Fails where no account that a
/// record can carry has its record there.
fn decode_record(buf: &[u8], pos: usize) -> (r: Result<(AccountSnapshot, usize), CodecError>)
    requires
        pos <= buf@.len(),
    ensures
        r matches Ok((a, end)) ==> {
            &&& pos < end <= buf@.len()
            &&& buf@.subrange(pos as int, end as int) == record_bytes(a@)
            &&& account_ok(a@)
        },
        r matches Err(e) ==> e == CodecError::MalformedBuffer && forall|a: AccountModel|
            account_ok(a) ==> !starts_with(
                buf@.subrange(pos as int, buf@.len() as int),
                #[trigger] record_bytes(a),
            ),
{
    let ghost w = buf@.subrange(pos as int, buf@.len() as int);
    let len = buf.len();
    if len - pos < RECORD_HEADER_LEN {
        proof {
            assert forall|a: AccountModel| account_ok(a) implies !starts_with(
                w,
                #[trigger] record_bytes(a),
            ) by {
                lemma_record_fields(a);
            }
        }
        return Err(CodecError::MalformedBuffer);
    }
    let signer = byte_to_flag(buf[pos + 2]);
    let writable = byte_to_flag(buf[pos + 3]);
    let exec = byte_to_flag(buf[pos + 4]);
    let original_len = read_u32_le(buf, pos + 5);
    let lamports = read_u64_le(buf, pos + 73);
    let data_len = read_u64_le(buf, pos + 81);
    let rest = (len - pos - RECORD_HEADER_LEN) as u64;
    if buf[pos] != NON_DUP_MARKER || buf[pos + 1] != NON_DUP_MARKER || signer.is_none()
        || writable.is_none() || exec.is_none() || original_len as u64 != data_len || data_len
        > rest {
        proof {
            assert forall|a: AccountModel| account_ok(a) implies !starts_with(
                w,
                #[trigger] record_bytes(a),
            ) by {
                if starts_with(w, record_bytes(a)) {
                    lemma_record_header(w, a);
                    assert(w.subrange(5, 9) =~= buf@.subrange(pos + 5, pos + 9));
                    assert(w.subrange(81, 89) =~= buf@.subrange(pos + 81, pos + 89));
                }
            }
        }
        return Err(CodecError::MalformedBuffer);
    }
    let identifier = read_identifier(buf, pos + 9);
    let owner = read_identifier(buf, pos + 41);
    let n = data_len as usize;
    let data = read_bytes(buf, pos + RECORD_HEADER_LEN, n);
    let account = AccountSnapshot {
        identifier,
        owner,
        lamports,
        data,
        is_signer: signer.unwrap(),
        is_writable: writable.unwrap(),
        executable: exec.unwrap(),
    };
    let end = pos + RECORD_HEADER_LEN + n;
    proof {
        let a = account@;
        assert(a.data.len() == n);
        lemma_u32_le_round_trip(original_len);
        lemma_le_u32_bytes(buf@.subrange(pos + 5, pos + 9));
        lemma_le_u64_bytes(buf@.subrange(pos + 73, pos + 81));
        lemma_le_u64_bytes(buf@.subrange(pos + 81, pos + 89));
        let win = buf@.subrange(pos as int, end as int);
        assert(win.subrange(5, 9) =~= buf@.subrange(pos + 5, pos + 9));
        assert(win.subrange(9, 41) =~= buf@.subrange(pos + 9, pos + 41));
        assert(win.subrange(41, 73) =~= buf@.subrange(pos + 41, pos + 73));
        assert(win.subrange(73, 81) =~= buf@.subrange(pos + 73, pos + 81));
        assert(win.subrange(81, 89) =~= buf@.subrange(pos + 81, pos + 89));
        assert(win.subrange(89, win.len() as int) =~= buf@.subrange(pos + 89, end as int));
        lemma_record_from_fields(a, win);
    }
    Ok((account, end))
}

/// What a byte window that begins with a record shows of it.
proof fn lemma_record_header(w: Seq<u8>, a: AccountModel)
    requires
        account_ok(a),
        starts_with(w, record_bytes(a)),
    ensures
        w.len() >= 89 + a.data.len(),
        w[0] == NON_DUP_MARKER,
        w[1] == NON_DUP_MARKER,
        w[2] == 0 || w[2] == 1,
        w[3] == 0 || w[3] == 1,
        w[4] == 0 || w[4] == 1,
        le_u32(w.subrange(5, 9)) == a.data.len(),
        le_u64(w.subrange(81, 89)) == a.data.len(),
{
    let ra = record_bytes(a);
    lemma_record_fields(a);
    assert(w[0] == ra[0]);
    assert(w[1] == ra[1]);
    assert(w[2] == ra[2]);
    assert(w[3] == ra[3]);
    assert(w[4] == ra[4]);
    assert(w.subrange(5, 9) =~= ra.subrange(5, 9));
    assert(w.subrange(81, 89) =~= ra.subrange(81, 89));
    lemma_u32_le_round_trip(a.data.len() as u32);
    lemma_u64_le_round_trip(a.data.len() as u64);
}

/// Reads the slot that begins at `pos`, as the slot after those in `prior`.
/// Fails where no slot that may follow `prior` in a valid plan has its bytes there.
fn decode_slot(buf: &[u8], pos: usize, prior: &Vec<Slot>) -> (r: Result<(Slot, usize), CodecError>)
    requires
        pos <= buf@.len(),
        prior@.len() < MAX_SLOTS,
    ensures
        r matches Ok((s, end)) ==> {
            &&& pos < end <= buf@.len()
            &&& buf@.subrange(pos as int, end as int) == slot_bytes(s@)
            &&& slot_ok(plan_view(prior@).push(s@), prior@.len() as int)
        },
        r matches Err(e) ==> e == CodecError::MalformedBuffer && forall|s: SlotModel|
            #[trigger] slot_ok(plan_view(prior@).push(s), prior@.len() as int) ==> !starts_with(
                buf@.subrange(pos as int, buf@.len() as int),
                slot_bytes(s),
            ),
{
    let ghost pv = plan_view(prior@);
    let ghost k = prior@.len() as int;
    let ghost w = buf@.subrange(pos as int, buf@.len() as int);
    if pos >= buf.len() {
        return Err(CodecError::MalformedBuffer);
    }
    let first = buf[pos];
    if first != NON_DUP_MARKER {
        let j = first as usize;
        let ok = j < prior.len() && match &prior[j] {
            Slot::Original(_) => true,
            Slot::DuplicateOf(_) => false,
        };
        if !ok {
            proof {
                assert forall|s: SlotModel| #[trigger]
                    slot_ok(pv.push(s), k) implies !starts_with(w, slot_bytes(s)) by {
                    if starts_with(w, slot_bytes(s)) {
                        assert(w[0] == slot_bytes(s)[0]);
                        match s {
                            SlotModel::Original(a) => lemma_record_fields(a),
                            SlotModel::DuplicateOf(i) => {
                                assert(pv.push(s)[i as int] == pv[i as int]);
                                assert(pv[j as int] == prior@[j as int]@);
                            },
                        }
                    }
                }
            }
            return Err(CodecError::MalformedBuffer);
        }
        let s = Slot::DuplicateOf(j);
        proof {
            assert(pv[j as int] == prior@[j as int]@);
            assert(pv.push(s@)[j as int] == pv[j as int]);
            assert(buf@.subrange(pos as int, pos + 1) =~= slot_bytes(s@));
        }
        return Ok((s, pos + 1));
    }
    match decode_record(buf, pos) {
        Ok((a, end)) => Ok((Slot::Original(a), end)),
        Err(e) => {
            proof {
                assert forall|s: SlotModel| #[trigger]
                    slot_ok(pv.push(s), k) implies !starts_with(w, slot_bytes(s)) by {
                    if starts_with(w, slot_bytes(s)) {
                        if let SlotModel::DuplicateOf(i) = s {
                            assert(w[0] == slot_bytes(s)[0]);
                        }
                    }
                }
            }
            Err(e)
        },
    }
}

/// Whether a valid plan encodes to `buf` is settled slot by slot: where the
/// slot after `prior` cannot be read, no valid plan encodes to `buf`.
proof fn lemma_no_plan_when_stuck(buf: Seq<u8>, prior: Seq<SlotModel>, pos: int)
    requires
        buf.len() >= 1,
        pos == 1 + body_bytes(prior).len(),
        pos <= buf.len(),
        buf.subrange(1, pos) == body_bytes(prior),
        valid_plan(prior),
        prior.len() < buf[0],
        forall|s: SlotModel| #[trigger]
            slot_ok(prior.push(s), prior.len() as int) ==> !starts_with(
                buf.subrange(pos, buf.len() as int),
                slot_bytes(s),
            ),
    ensures
        forall|p: Seq<SlotModel>| valid_plan(p) ==> #[trigger] encoding(p) != buf,
{
    assert forall|p: Seq<SlotModel>| valid_plan(p) implies #[trigger] encoding(p) != buf by {
        if encoding(p) == buf {
            let k = prior.len() as int;
            let body = buf.subrange(1, buf.len() as int);
            assert(body =~= body_bytes(p));
            assert(p.len() == buf[0]);
            lemma_body_take(p, k);
            lemma_take_valid(p, k);
            assert(body.subrange(0, pos - 1) =~= buf.subrange(1, pos));
            lemma_body_unique(p.take(k), prior, body);
            lemma_body_take(p, k + 1);
            lemma_body_take_step(p, k);
            lemma_starts_with_concat(body, body_bytes(prior), slot_bytes(p[k]));
            assert(body.subrange(pos - 1, body.len() as int) =~= buf.subrange(pos, buf.len() as int));
            assert(p.take(k + 1) =~= prior.push(p[k]));
            assert(slot_ok(p, k));
            assert(slot_ok(prior.push(p[k]), k));
        }
    }
}

/// The plan that `buf` encodes. Fails with `MalformedBuffer` exactly where no
/// valid plan encodes to `buf`: the buffer is cut short, a record is
/// inconsistent, a duplicate does not refer to an earlier full account, or
/// bytes follow the last slot.
pub fn decode(buf: &[u8]) -> (r: Result<Vec<Slot>, CodecError>)
    ensures
        r matches Ok(slots) ==> valid_plan(plan_view(slots@)) && encoding(plan_view(slots@))
            == buf@,
        r matches Err(e) ==> e == CodecError::MalformedBuffer && forall|p: Seq<SlotModel>|
            valid_plan(p) ==> #[trigger] encoding(p) != buf@,
{
    if buf.len() == 0 {
        return Err(CodecError::MalformedBuffer);
    }
    let count = buf[0] as usize;
    let mut out: Vec<Slot> = Vec::new();
    let mut pos: usize = 1;
    assert(buf@.subrange(1, 1) =~= body_bytes(plan_view(out@)));
    while out.len() < count
        invariant
            1 <= pos <= buf@.len(),
            count == buf@[0],
            out@.len() <= count,
            pos == 1 + body_bytes(plan_view(out@)).len(),
            buf@.subrange(1, pos as int) == body_bytes(plan_view(out@)),
            valid_plan(plan_view(out@)),
        decreases count - out@.len(),
    {
        let ghost before = plan_view(out@);
        match decode_slot(buf, pos, &out) {
            Err(e) => {
                proof {
                    lemma_no_plan_when_stuck(buf@, before, pos as int);
                }
                return Err(e);
            },
            Ok((s, end)) => {
                out.push(s);
                proof {
                    let now = plan_view(out@);
                    assert(now =~= before.push(s@));
                    assert(now.drop_last() =~= before);
                    assert(buf@.subrange(1, end as int) =~= buf@.subrange(1, pos as int)
                        + buf@.subrange(pos as int, end as int));
                    assert forall|i: int| 0 <= i < now.len() implies #[trigger] slot_ok(now, i) by {
                        if i < before.len() {
                            assert(slot_ok(before, i));
                            if let SlotModel::DuplicateOf(j) = now[i] {
                                assert(now[j as int] == before[j as int]);
                            }
                        }
                    }
                }
                pos = end;
            },
        }
    }
    if pos != buf.len() {
        proof {
            assert forall|p: Seq<SlotModel>| valid_plan(p) implies #[trigger] encoding(p) != buf@ by {
                let ov = plan_view(out@);
                if encoding(p) == buf@ {
                    let body = buf@.subrange(1, buf@.len() as int);
                    assert(body =~= body_bytes(p));
                    assert(p.len() == buf@[0]);
                    assert(body_bytes(p).subrange(0, body_bytes(p).len() as int) =~= body_bytes(p));
                    assert(body.subrange(0, pos - 1) =~= buf@.subrange(1, pos as int));
                    lemma_body_unique(p, ov, body);
                }
            }
        }
        return Err(CodecError::MalformedBuffer);
    }
    proof {
        assert(buf@ =~= seq![buf@[0]] + buf@.subrange(1, pos as int));
    }
    Ok(out)
}

} // verus!
