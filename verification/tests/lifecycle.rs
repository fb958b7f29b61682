use identity_lifecycle_vault::codec::decode_record;
use identity_lifecycle_vault::codec::encode_record;
use identity_lifecycle_vault::record::IdentityVault;
use identity_lifecycle_vault::record::OwnerId;
use identity_lifecycle_vault::vault::ErrorCode;
use identity_lifecycle_vault::vault::VaultStore;

fn owner(tag: u8) -> OwnerId {
    OwnerId { bytes: [tag; 32] }
}

#[test]
fn initialize_yields_zeroed_record() {
    let a = owner(1);
    let mut store = VaultStore::new();
    assert_eq!(store.initialize_identity(&a, 100), Ok(()));
    let rec = store.get_record(&a).unwrap();
    assert_eq!(rec.update_count, 0);
    assert_eq!(rec.lifecycle_score, 0);
    assert_eq!(rec.created_at, 100);
    assert_eq!(rec.last_update, 100);
    assert_eq!(rec.owner.bytes, a.bytes);
}

#[test]
fn initialize_twice_fails_and_preserves_record() {
    let a = owner(1);
    let mut store = VaultStore::new();
    assert_eq!(store.initialize_identity(&a, 100), Ok(()));
    assert_eq!(store.biometric_update(&a, &a, 110), Ok(()));
    assert_eq!(store.initialize_identity(&a, 200), Err(ErrorCode::AlreadyExists));
    let rec = store.get_record(&a).unwrap();
    assert_eq!(rec.created_at, 100);
    assert_eq!(rec.last_update, 110);
    assert_eq!(rec.update_count, 1);
    assert_eq!(rec.lifecycle_score, 10);
}

#[test]
fn interleaving_order_does_not_matter() {
    let a = owner(3);

    let mut one = VaultStore::new();
    assert_eq!(one.initialize_identity(&a, 10), Ok(()));
    assert_eq!(one.biometric_update(&a, &a, 11), Ok(()));
    assert_eq!(one.demographic_update(&a, &a, 12), Ok(()));
    assert_eq!(one.biometric_update(&a, &a, 13), Ok(()));
    assert_eq!(one.demographic_update(&a, &a, 14), Ok(()));

    let mut two = VaultStore::new();
    assert_eq!(two.initialize_identity(&a, 10), Ok(()));
    assert_eq!(two.demographic_update(&a, &a, 11), Ok(()));
    assert_eq!(two.demographic_update(&a, &a, 12), Ok(()));
    assert_eq!(two.biometric_update(&a, &a, 13), Ok(()));
    assert_eq!(two.biometric_update(&a, &a, 14), Ok(()));

    let r1 = one.get_record(&a).unwrap();
    let r2 = two.get_record(&a).unwrap();
    // Two biometric and two demographic updates either way.
    assert_eq!(r1.update_count, 4);
    assert_eq!(r2.update_count, 4);
    assert_eq!(r1.lifecycle_score, 2 * 10 + 2 * 5);
    assert_eq!(r2.lifecycle_score, 2 * 10 + 2 * 5);
}

#[test]
fn foreign_caller_is_rejected_and_state_kept() {
    let a = owner(1);
    let b = owner(2);
    let mut store = VaultStore::new();
    assert_eq!(store.initialize_identity(&a, 100), Ok(()));
    assert_eq!(store.biometric_update(&a, &a, 110), Ok(()));

    assert_eq!(store.biometric_update(&a, &b, 120), Err(ErrorCode::Unauthorized));
    assert_eq!(store.demographic_update(&a, &b, 120), Err(ErrorCode::Unauthorized));
    assert_eq!(store.close_identity(&a, &b), Err(ErrorCode::Unauthorized));

    let rec = store.get_record(&a).unwrap();
    assert_eq!(rec.update_count, 1);
    assert_eq!(rec.lifecycle_score, 10);
    assert_eq!(rec.last_update, 110);
    assert_eq!(rec.created_at, 100);
}

#[test]
fn near_miss_key_is_rejected() {
    let a = owner(7);
    let mut almost = a;
    almost.bytes[31] = 8;
    let mut store = VaultStore::new();
    assert_eq!(store.initialize_identity(&a, 100), Ok(()));
    // Authorization is exact equality, never a prefix match.
    assert_eq!(store.biometric_update(&a, &almost, 110), Err(ErrorCode::Unauthorized));
    assert_eq!(store.get_record(&a).unwrap().update_count, 0);
}

#[test]
fn absent_record_gives_not_found() {
    let a = owner(1);
    let mut store = VaultStore::new();
    assert_eq!(store.biometric_update(&a, &a, 100), Err(ErrorCode::NotFound));
    assert_eq!(store.demographic_update(&a, &a, 100), Err(ErrorCode::NotFound));
    assert_eq!(store.close_identity(&a, &a), Err(ErrorCode::NotFound));
    assert!(store.get_record(&a).is_none());
}

#[test]
fn close_then_reinitialize_starts_fresh() {
    let a = owner(1);
    let mut store = VaultStore::new();
    assert_eq!(store.initialize_identity(&a, 100), Ok(()));
    assert_eq!(store.biometric_update(&a, &a, 110), Ok(()));
    assert_eq!(store.biometric_update(&a, &a, 120), Ok(()));
    assert_eq!(store.close_identity(&a, &a), Ok(()));
    assert!(store.get_record(&a).is_none());

    assert_eq!(store.initialize_identity(&a, 300), Ok(()));
    let rec = store.get_record(&a).unwrap();
    assert_eq!(rec.update_count, 0);
    assert_eq!(rec.lifecycle_score, 0);
    assert_eq!(rec.created_at, 300);
    assert_eq!(rec.last_update, 300);
}

#[test]
fn full_lifecycle_scenario() {
    let a = owner(1);
    let b = owner(2);
    let mut store = VaultStore::new();

    assert_eq!(store.initialize_identity(&a, 1000), Ok(()));
    let rec = store.get_record(&a).unwrap();
    assert_eq!((rec.update_count, rec.lifecycle_score), (0, 0));

    assert_eq!(store.biometric_update(&a, &a, 1001), Ok(()));
    let rec = store.get_record(&a).unwrap();
    assert_eq!((rec.update_count, rec.lifecycle_score), (1, 10));

    assert_eq!(store.demographic_update(&a, &a, 1002), Ok(()));
    let rec = store.get_record(&a).unwrap();
    assert_eq!((rec.update_count, rec.lifecycle_score), (2, 15));

    assert_eq!(store.biometric_update(&a, &b, 1003), Err(ErrorCode::Unauthorized));
    let rec = store.get_record(&a).unwrap();
    assert_eq!((rec.update_count, rec.lifecycle_score), (2, 15));

    assert_eq!(store.close_identity(&a, &a), Ok(()));
    assert!(store.get_record(&a).is_none());

    assert_eq!(store.biometric_update(&a, &b, 1004), Err(ErrorCode::NotFound));
}

#[test]
fn records_of_different_owners_are_independent() {
    let a = owner(1);
    let b = owner(2);
    let mut store = VaultStore::new();
    assert_eq!(store.initialize_identity(&a, 10), Ok(()));
    assert_eq!(store.initialize_identity(&b, 20), Ok(()));
    assert_eq!(store.biometric_update(&a, &a, 30), Ok(()));
    assert_eq!(store.demographic_update(&b, &b, 40), Ok(()));

    let ra = store.get_record(&a).unwrap();
    let rb = store.get_record(&b).unwrap();
    assert_eq!((ra.update_count, ra.lifecycle_score), (1, 10));
    assert_eq!((rb.update_count, rb.lifecycle_score), (1, 5));

    assert_eq!(store.close_identity(&a, &a), Ok(()));
    assert!(store.get_record(&a).is_none());
    let rb = store.get_record(&b).unwrap();
    assert_eq!((rb.update_count, rb.lifecycle_score), (1, 5));
}

fn sample_record() -> IdentityVault {
    let mut bytes = [0u8; 32];
    let mut i = 0usize;
    while i < 32 {
        bytes[i] = i as u8;
        i += 1;
    }
    IdentityVault {
        owner: OwnerId { bytes },
        created_at: -2,
        last_update: 0x0102030405060708,
        update_count: 3,
        lifecycle_score: 25,
    }
}

#[test]
fn encoding_has_exact_layout() {
    let rec = sample_record();
    let bytes = encode_record(&rec);
    assert_eq!(bytes.len(), 64);
    for i in 0..32 {
        assert_eq!(bytes[i], i as u8);
    }
    // -2 in two's complement, little endian.
    assert_eq!(&bytes[32..40], &[0xfe, 0xff, 0xff, 0xff, 0xff, 0xff, 0xff, 0xff]);
    assert_eq!(&bytes[40..48], &[8, 7, 6, 5, 4, 3, 2, 1]);
    assert_eq!(&bytes[48..56], &[3, 0, 0, 0, 0, 0, 0, 0]);
    assert_eq!(&bytes[56..64], &[25, 0, 0, 0, 0, 0, 0, 0]);
}

#[test]
fn codec_round_trips() {
    let rec = sample_record();
    let bytes = encode_record(&rec);
    let back = decode_record(&bytes).unwrap();
    assert_eq!(back.owner.bytes, rec.owner.bytes);
    assert_eq!(back.created_at, rec.created_at);
    assert_eq!(back.last_update, rec.last_update);
    assert_eq!(back.update_count, rec.update_count);
    assert_eq!(back.lifecycle_score, rec.lifecycle_score);
}

#[test]
fn decode_rejects_wrong_length() {
    assert!(decode_record(&vec![0u8; 63]).is_none());
    assert!(decode_record(&vec![0u8; 65]).is_none());
    assert!(decode_record(&Vec::new()).is_none());
}
