use account_codec::account::{account_at, AccountSnapshot, Identifier, Slot};
use account_codec::codec::{check_plan, decode, encode, push_account_info_layout, push_record};
use account_codec::fixtures::{
    accounts_with_duplicates_plan, complex_iteration_plan, empty_data_accounts_plan,
    multiple_accounts_plan, single_account_plan,
};
use account_codec::format::{CodecError, RECORD_HEADER_LEN};

fn account(id: u8, lamports: u64, data: Vec<u8>, s: bool, w: bool, e: bool) -> AccountSnapshot {
    AccountSnapshot::new(
        Identifier::with_first_byte(id),
        Identifier::zero(),
        lamports,
        data,
        s,
        w,
        e,
    )
}

fn same_account(a: &AccountSnapshot, b: &AccountSnapshot) -> bool {
    a.identifier.to_bytes() == b.identifier.to_bytes()
        && a.owner.to_bytes() == b.owner.to_bytes()
        && a.lamports == b.lamports
        && a.data == b.data
        && a.is_signer == b.is_signer
        && a.is_writable == b.is_writable
        && a.executable == b.executable
}

fn same_slot(a: &Slot, b: &Slot) -> bool {
    match (a, b) {
        (Slot::Original(x), Slot::Original(y)) => same_account(x, y),
        (Slot::DuplicateOf(i), Slot::DuplicateOf(j)) => i == j,
        _ => false,
    }
}

fn all_fixtures() -> Vec<Vec<Slot>> {
    vec![
        single_account_plan(),
        multiple_accounts_plan(),
        empty_data_accounts_plan(),
        accounts_with_duplicates_plan(),
        complex_iteration_plan(),
    ]
}

fn expected_len(plan: &[Slot]) -> usize {
    let mut n = 1;
    for s in plan {
        match s {
            Slot::Original(a) => n += 89 + a.data.len(),
            Slot::DuplicateOf(_) => n += 1,
        }
    }
    n
}

#[test]
fn round_trip_fixtures() {
    for plan in all_fixtures() {
        let buf = encode(&plan).unwrap();
        let back = decode(&buf).unwrap();
        assert_eq!(back.len(), plan.len());
        for (a, b) in back.iter().zip(plan.iter()) {
            assert!(same_slot(a, b));
        }
    }
}

#[test]
fn encoding_is_deterministic() {
    for plan in all_fixtures() {
        assert_eq!(encode(&plan).unwrap(), encode(&plan).unwrap());
    }
}

#[test]
fn size_law_holds_on_fixtures() {
    let sizes: Vec<usize> = all_fixtures().iter().map(|p| encode(p).unwrap().len()).collect();
    for (plan, size) in all_fixtures().iter().zip(sizes.iter()) {
        assert_eq!(*size, expected_len(plan));
    }
    // single: 1 + 89 + 10; multiple: 1 + 3 * 89 + 30; empty data: 1 + 2 * 89 + 4;
    // duplicates: 1 + 3 * 89 + 26 + 2; ten slots: 1 + 8 * 89 + 54 + 2.
    assert_eq!(sizes, vec![100, 298, 183, 296, 769]);
}

#[test]
fn header_length_matches_fields() {
    assert_eq!(RECORD_HEADER_LEN, 1 + 1 + 1 + 1 + 1 + 4 + 32 + 32 + 8 + 8);
}

#[test]
fn duplicate_resolves_to_original() {
    let buf = encode(&accounts_with_duplicates_plan()).unwrap();
    let slots = decode(&buf).unwrap();
    assert!(matches!(slots[2], Slot::DuplicateOf(0)));
    assert!(matches!(slots[4], Slot::DuplicateOf(1)));
    let a2 = account_at(&slots, 2).unwrap();
    let a0 = account_at(&slots, 0).unwrap();
    assert!(same_account(a2, a0));
    let a4 = account_at(&slots, 4).unwrap();
    let a1 = account_at(&slots, 1).unwrap();
    assert!(same_account(a4, a1));
    assert_eq!(a4.lamports, 2000);
    assert_eq!(a4.data, vec![0xBB; 12]);
    assert!(a4.executable);
}

#[test]
fn account_at_rejects_chained_reference() {
    let plan = vec![
        Slot::Original(account(0, 1, vec![], true, true, false)),
        Slot::DuplicateOf(0),
        Slot::DuplicateOf(1),
        Slot::DuplicateOf(9),
    ];
    assert!(account_at(&plan, 2).is_none());
    assert!(account_at(&plan, 3).is_none());
    assert_eq!(account_at(&plan, 1).unwrap().lamports, 1);
}

#[test]
fn empty_data_record_bytes() {
    let a = AccountSnapshot::new(
        Identifier::zero(),
        Identifier::default(),
        1000,
        vec![],
        true,
        true,
        false,
    );
    let mut buf = Vec::new();
    push_record(&mut buf, &a);
    let mut expected = vec![0xFF, 0xFF, 0x01, 0x01, 0x00, 0, 0, 0, 0];
    expected.extend_from_slice(&[0u8; 64]);
    expected.extend_from_slice(&[0xE8, 0x03, 0, 0, 0, 0, 0, 0]);
    expected.extend_from_slice(&[0u8; 8]);
    assert_eq!(buf, expected);
    assert_eq!(buf.len(), RECORD_HEADER_LEN);
}

#[test]
fn plan_of_255_slots_encodes() {
    let plan: Vec<Slot> = (0..255u32)
        .map(|i| Slot::Original(account(i as u8, i as u64, vec![], false, false, false)))
        .collect();
    let buf = encode(&plan).unwrap();
    assert_eq!(buf[0], 0xFF);
    assert_eq!(buf.len(), 1 + 255 * 89);
    assert_eq!(decode(&buf).unwrap().len(), 255);
}

#[test]
fn plan_of_256_slots_is_too_large() {
    let plan: Vec<Slot> = (0..256u32)
        .map(|i| Slot::Original(account(i as u8, 0, vec![], false, false, false)))
        .collect();
    assert_eq!(encode(&plan), Err(CodecError::PlanTooLarge));
    assert_eq!(check_plan(&plan), Err(CodecError::PlanTooLarge));
}

#[test]
fn end_to_end_scenario() {
    let plan = vec![
        Slot::Original(account(0, 1000, vec![0xAA; 5], true, true, false)),
        Slot::Original(account(1, 2000, vec![0xBB; 10], false, true, false)),
        Slot::DuplicateOf(0),
    ];
    let buf = encode(&plan).unwrap();
    assert_eq!(&buf[..10], &[0x03, 0xFF, 0xFF, 0x01, 0x01, 0x00, 0x05, 0x00, 0x00, 0x00]);
    let second = 1 + 89 + 5;
    assert_eq!(
        &buf[second..second + 9],
        &[0xFF, 0xFF, 0x00, 0x01, 0x00, 0x0A, 0x00, 0x00, 0x00]
    );
    assert_eq!(buf.len(), 1 + 89 + 5 + 89 + 10 + 1);
    assert_eq!(*buf.last().unwrap(), 0x00);
    // the first account's data follows its header
    assert_eq!(&buf[1 + 89..1 + 89 + 5], &[0xAA; 5]);
    // the second identifier begins with 1
    assert_eq!(buf[second + 9], 1);
    // lamports 2000 little-endian
    assert_eq!(&buf[second + 73..second + 81], &[0xD0, 0x07, 0, 0, 0, 0, 0, 0]);
}

#[test]
fn single_account_fixture_bytes() {
    let buf = encode(&single_account_plan()).unwrap();
    assert_eq!(buf[0], 1);
    assert_eq!(&buf[1..6], &[0xFF, 0xFF, 1, 1, 0]);
    assert_eq!(&buf[6..10], &[10, 0, 0, 0]);
    assert_eq!(&buf[74..82], &[0xE8, 0x03, 0, 0, 0, 0, 0, 0]);
    assert_eq!(&buf[82..90], &[10, 0, 0, 0, 0, 0, 0, 0]);
    assert_eq!(&buf[90..], &[0xAA; 10]);
}

#[test]
fn complex_iteration_fixture_slots() {
    let plan = complex_iteration_plan();
    assert_eq!(plan.len(), 10);
    assert!(matches!(plan[4], Slot::DuplicateOf(1)));
    assert!(matches!(plan[7], Slot::DuplicateOf(2)));
    match &plan[9] {
        Slot::Original(a) => {
            assert_eq!(a.identifier.to_bytes()[0], 9);
            assert_eq!(a.lamports, 5000);
            assert_eq!(a.data, vec![0xA9; 6]);
            assert!(!a.is_signer);
            assert!(!a.is_writable);
            assert!(!a.executable);
        }
        Slot::DuplicateOf(_) => panic!("slot 9 holds a full account"),
    }
    match &plan[5] {
        Slot::Original(a) => {
            assert_eq!(a.data, vec![0xA5; 6]);
            assert!(!a.is_signer);
            assert!(a.is_writable);
            assert!(a.executable);
        }
        Slot::DuplicateOf(_) => panic!("slot 5 holds a full account"),
    }
    let buf = encode(&plan).unwrap();
    assert_eq!(buf[0], 10);
}

#[test]
fn forward_reference_is_rejected() {
    let plan = vec![
        Slot::DuplicateOf(1),
        Slot::Original(account(0, 1, vec![], true, true, false)),
    ];
    assert_eq!(encode(&plan), Err(CodecError::InvalidDuplicateReference));
}

#[test]
fn reference_to_duplicate_is_rejected() {
    let plan = vec![
        Slot::Original(account(0, 1, vec![], true, true, false)),
        Slot::DuplicateOf(0),
        Slot::DuplicateOf(1),
    ];
    assert_eq!(encode(&plan), Err(CodecError::InvalidDuplicateReference));
}

#[test]
fn self_reference_is_rejected() {
    let plan = vec![
        Slot::Original(account(0, 1, vec![], true, true, false)),
        Slot::DuplicateOf(1),
    ];
    assert_eq!(encode(&plan), Err(CodecError::InvalidDuplicateReference));
    assert_eq!(check_plan(&plan), Err(CodecError::InvalidDuplicateReference));
}

#[test]
fn empty_plan_encodes_to_count_byte() {
    let buf = encode(&Vec::new()).unwrap();
    assert_eq!(buf, vec![0]);
    assert_eq!(decode(&buf).unwrap().len(), 0);
}

#[test]
fn decode_rejects_empty_buffer() {
    assert_eq!(decode(&[]).unwrap_err(), CodecError::MalformedBuffer);
}

#[test]
fn decode_rejects_truncated_buffers() {
    let buf = encode(&multiple_accounts_plan()).unwrap();
    for cut in [1, 2, 50, 90, 95, 200, buf.len() - 1] {
        assert_eq!(decode(&buf[..cut]).unwrap_err(), CodecError::MalformedBuffer);
    }
}

#[test]
fn decode_rejects_trailing_bytes() {
    let mut buf = encode(&single_account_plan()).unwrap();
    buf.push(0);
    assert_eq!(decode(&buf).unwrap_err(), CodecError::MalformedBuffer);
}

#[test]
fn decode_rejects_bad_flag_byte() {
    let mut buf = encode(&single_account_plan()).unwrap();
    buf[3] = 2;
    assert_eq!(decode(&buf).unwrap_err(), CodecError::MalformedBuffer);
}

#[test]
fn decode_rejects_mismatched_lengths() {
    let mut buf = encode(&single_account_plan()).unwrap();
    buf[6] = 9;
    assert_eq!(decode(&buf).unwrap_err(), CodecError::MalformedBuffer);
}

#[test]
fn decode_rejects_data_past_end() {
    let mut buf = encode(&single_account_plan()).unwrap();
    buf[6] = 11;
    buf[82] = 11;
    assert_eq!(decode(&buf).unwrap_err(), CodecError::MalformedBuffer);
}

#[test]
fn decode_rejects_bad_duplicate_reference() {
    let mut buf = encode(&accounts_with_duplicates_plan()).unwrap();
    let last = buf.len() - 1;
    buf[last] = 2;
    assert_eq!(decode(&buf).unwrap_err(), CodecError::MalformedBuffer);
    buf[last] = 4;
    assert_eq!(decode(&buf).unwrap_err(), CodecError::MalformedBuffer);
    buf[last] = 1;
    assert!(decode(&buf).is_ok());
}

#[test]
fn account_info_layout_bytes() {
    let mut buf = Vec::new();
    push_account_info_layout(
        &mut buf,
        &Identifier::with_first_byte(7),
        0x1122,
        0x3344,
        20,
        &Identifier::zero(),
        true,
        false,
        true,
    );
    assert_eq!(buf.len(), 32 + 8 + 8 + 8 + 32 + 3);
    assert_eq!(buf[0], 7);
    assert_eq!(&buf[32..34], &[0x22, 0x11]);
    assert_eq!(&buf[40..42], &[0x44, 0x33]);
    assert_eq!(buf[48], 20);
    assert_eq!(&buf[88..], &[1, 0, 1]);
}

#[test]
fn identifier_conversions() {
    let mut bytes = [0u8; 32];
    bytes[5] = 9;
    assert_eq!(Identifier::new(bytes).to_bytes(), bytes);
    assert_eq!(Identifier::default().to_bytes(), [0u8; 32]);
    assert_eq!(Identifier::with_first_byte(3).to_bytes()[0], 3);
}
