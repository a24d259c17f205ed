use lib::siphash::{copy_salt_to_sipkey, hash, sip24_valid, sip_tokey, siphash, siphash24, SIP_TEST_VECTORS};

fn reference_key() -> [u8; 16] {
    let mut k = [0u8; 16];
    for (i, b) in k.iter_mut().enumerate() {
        *b = i as u8;
    }
    k
}

#[test]
fn test_sip24_valid() {
    assert!(sip24_valid());
}

#[test]
fn test_siphash24_empty_message() {
    let key = sip_tokey(&reference_key());
    assert_eq!(siphash24(&[], &key), 0x726f_db47_dd0e_0e31);
}

#[test]
fn test_siphash24_fifteen_bytes() {
    let key = sip_tokey(&reference_key());
    let msg: Vec<u8> = (0u8..15).collect();
    assert_eq!(siphash24(&msg, &key), 0xa129_ca61_49be_45e5);
}

#[test]
fn test_siphash24_matches_every_vector() {
    let key = sip_tokey(&reference_key());
    let msg: Vec<u8> = (0u8..64).collect();
    for (n, v) in SIP_TEST_VECTORS.iter().enumerate() {
        assert_eq!(siphash24(&msg[..n], &key), u64::from_le_bytes(*v), "length {}", n);
    }
}

#[test]
fn test_streaming_equals_one_shot() {
    let key = sip_tokey(&reference_key());
    let msg: Vec<u8> = (0u8..40).map(|b| b.wrapping_mul(7)).collect();
    for split in 0..msg.len() {
        let mut h = siphash::sip24_init(&key);
        h.sip24_update(&msg[..split]);
        h.sip24_update(&msg[split..]);
        assert_eq!(h.sip24_final(), siphash24(&msg, &key), "split {}", split);
    }
}

#[test]
fn test_salt_key_and_name_hash() {
    let key = copy_salt_to_sipkey(0x0123_4567_89ab_cdef);
    assert_eq!(key.k[0], 0);
    assert_eq!(key.k[1], 0x0123_4567_89ab_cdef);
    assert_eq!(hash(0x0123_4567_89ab_cdef, b"name"), siphash24(b"name", &key));
    assert_ne!(hash(1, b"name"), hash(2, b"name"));
}
