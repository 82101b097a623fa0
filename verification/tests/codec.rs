use changeset_core::content::{ContentEnvelope, ContentKind, FieldValue};
use changeset_core::content_store::ContentStore;
use changeset_core::digest::ContentHash;
use changeset_core::error::{Integrity, Serialization, StoreError};

fn sample() -> ContentEnvelope {
    let mut e = ContentEnvelope::new(ContentKind::Secret, 3);
    e.set(4, FieldValue::Bytes(b"name".to_vec()));
    e.set(1, FieldValue::Flag(false));
    e.set(9, FieldValue::Number(u64::MAX));
    e.set(6, FieldValue::Bytes(Vec::new()));
    e
}

fn fails(bytes: &[u8], why: Serialization) {
    assert_eq!(ContentEnvelope::decode(bytes), Err(StoreError::SerializationError(why)));
}

#[test]
fn decode_reads_back_what_encode_wrote() {
    let e = sample();
    assert_eq!(ContentEnvelope::decode(&e.encode()), Ok(sample()));
    let empty = ContentEnvelope::new(ContentKind::Any, 0);
    assert_eq!(empty.encode().len(), 16);
    assert_eq!(ContentEnvelope::decode(&empty.encode()), Ok(ContentEnvelope::new(ContentKind::Any, 0)));
}

#[test]
fn decode_refuses_bytes_that_end_early() {
    let bytes = sample().encode();
    for cut in 0..bytes.len() {
        fails(&bytes[..cut], Serialization::Truncated);
    }
}

#[test]
fn decode_refuses_bytes_that_go_on() {
    let mut bytes = sample().encode();
    bytes.push(0);
    fails(&bytes, Serialization::TrailingBytes);
}

#[test]
fn decode_refuses_what_is_not_canonical() {
    // an unknown kind
    let mut bytes = ContentEnvelope::new(ContentKind::Any, 1).encode();
    bytes[0] = 18;
    fails(&bytes, Serialization::Malformed);
    // a flag that is neither 0 nor 1
    let mut flag = ContentEnvelope::new(ContentKind::Any, 1);
    flag.set(1, FieldValue::Flag(true));
    let mut bytes = flag.encode();
    let last = bytes.len() - 1;
    bytes[last] = 2;
    fails(&bytes, Serialization::Malformed);
    // an unknown sort of value
    let mut bytes = flag.encode();
    bytes[last - 1] = 3;
    fails(&bytes, Serialization::Malformed);
    // keys out of order, and a key twice
    let mut two = ContentEnvelope::new(ContentKind::Any, 1);
    two.set(1, FieldValue::Flag(true));
    two.set(2, FieldValue::Flag(true));
    let good = two.encode();
    let mut swapped = good.clone();
    swapped[16] = 2;
    swapped[22] = 1;
    fails(&swapped, Serialization::Malformed);
    let mut twice = good.clone();
    twice[22] = 1;
    fails(&twice, Serialization::DuplicateKey(1));
}

#[test]
fn load_checks_the_hash_of_the_bytes() {
    let e = sample();
    let bytes = e.encode();
    let hash = e.hash();
    let mut store = ContentStore::new();
    assert_eq!(store.load(&hash, &bytes), Ok(()));
    assert_eq!(store.get(&hash).unwrap(), &sample());
    assert_eq!(store.load(&hash, &bytes), Ok(()));
    assert_eq!(store.len(), 1);
    let wrong = ContentHash::new(b"something else");
    assert_eq!(
        store.load(&wrong, &bytes),
        Err(StoreError::IntegrityViolation(Integrity::HashMismatch))
    );
    assert_eq!(
        store.load(&hash, &bytes[..5]),
        Err(StoreError::SerializationError(Serialization::Truncated))
    );
    assert_eq!(store.len(), 1);
}
