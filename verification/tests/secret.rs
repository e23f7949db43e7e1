use memberlist::secret::{SecretKey, SecretKeyError, SecretKeyringError};
use memberlist::keyring::SecretKeyring;

#[test]
fn test_secret_key() {
    let key = SecretKey::from([0; 16]);
    assert_eq!(key.as_ref(), &[0; 16]);
    assert_eq!(key.len(), 16);
    assert!(!key.is_empty());
    assert_eq!(key.to_vec(), vec![0; 16]);

    let key = SecretKey::from([0; 24]);
    assert_eq!(key.as_ref(), &[0; 24]);
    assert_eq!(key.len(), 24);
    assert!(!key.is_empty());
    assert_eq!(key.to_vec(), vec![0; 24]);

    let key = SecretKey::from([0; 32]);
    assert_eq!(key.as_ref(), &[0; 32]);
    assert_eq!(key.len(), 32);
    assert!(!key.is_empty());
    assert_eq!(key.to_vec(), vec![0; 32]);

    let key = SecretKey::from([0; 16]);
    assert_eq!(key.as_ref(), &[0; 16]);

    let key = SecretKey::from([0; 24]);
    assert_eq!(key.as_ref(), &[0; 24]);

    let key = SecretKey::from([0; 32]);
    assert_eq!(key.as_ref(), &[0; 32]);

    let key = SecretKey::Aes128([0; 16]);
    assert_eq!(key.to_vec(), vec![0; 16]);

    let key = SecretKey::Aes192([0; 24]);
    assert_eq!(key.to_vec(), vec![0; 24]);

    let key = SecretKey::Aes256([0; 32]);
    assert_eq!(key.to_vec(), vec![0; 32]);
}

#[test]
fn test_try_from() {
    assert!(SecretKey::try_from([0; 15].as_slice()).is_err());
    assert!(SecretKey::try_from([0; 16].as_slice()).is_ok());
    assert!(SecretKey::try_from([0; 23].as_slice()).is_err());
    assert!(SecretKey::try_from([0; 24].as_slice()).is_ok());
    assert!(SecretKey::try_from([0; 31].as_slice()).is_err());
    assert!(SecretKey::try_from([0; 32].as_slice()).is_ok());
}

#[test]
fn test_try_from_reports_bad_length() {
    assert_eq!(
        SecretKey::try_from([0; 15].as_slice()).unwrap_err(),
        SecretKeyError::InvalidKeySize(15)
    );
    let key = SecretKey::try_from([7; 24].as_slice()).unwrap();
    assert_eq!(key, SecretKey::Aes192([7; 24]));
}

const TEST_KEYS: &[SecretKey] = &[
    SecretKey::Aes128([0, 1, 2, 3, 4, 5, 6, 7, 8, 9, 10, 11, 12, 13, 14, 15]),
    SecretKey::Aes128([15, 14, 13, 12, 11, 10, 9, 8, 7, 6, 5, 4, 3, 2, 1, 0]),
    SecretKey::Aes128([8, 9, 10, 11, 12, 13, 14, 15, 0, 1, 2, 3, 4, 5, 6, 7]),
];

#[test]
fn test_primary_only() {
    let keyring = SecretKeyring::new(TEST_KEYS[1]);
    assert_eq!(keyring.keys().len(), 1);
}

#[test]
fn test_get_primary_key() {
    let keyring = SecretKeyring::with_keys(TEST_KEYS[1], TEST_KEYS.to_vec());
    assert_eq!(keyring.primary_key().as_ref(), TEST_KEYS[1].as_ref());
}

#[test]
fn test_insert_remove_use() {
    let mut keyring = SecretKeyring::new(TEST_KEYS[1]);

    // Use non-existent key throws error
    keyring.use_key(&TEST_KEYS[2]).unwrap_err();

    // Add key to ring
    keyring.insert(TEST_KEYS[2]);
    assert_eq!(keyring.keys().len(), 2);
    assert_eq!(keyring.keys()[0], TEST_KEYS[1]);

    // Use key that exists should succeed
    keyring.use_key(&TEST_KEYS[2]).unwrap();
    assert_eq!(keyring.keys()[0], TEST_KEYS[2]);

    let primary_key = keyring.primary_key();
    assert_eq!(primary_key.as_ref(), TEST_KEYS[2].as_ref());

    // Removing primary key should fail
    keyring.remove(&TEST_KEYS[2]).unwrap_err();

    // Removing non-primary key should succeed
    keyring.remove(&TEST_KEYS[1]).unwrap();
    assert_eq!(keyring.keys().len(), 1);
}

#[test]
fn test_keyring_error_kinds() {
    let mut keyring = SecretKeyring::new(TEST_KEYS[0]);
    assert_eq!(
        keyring.use_key(&TEST_KEYS[2]).unwrap_err(),
        SecretKeyringError::SecretKeyNotFound
    );
    assert_eq!(
        keyring.remove(&TEST_KEYS[0]).unwrap_err(),
        SecretKeyringError::RemovePrimaryKey
    );
}

#[test]
fn test_with_keys_filters_primary_and_repeats() {
    let keys = vec![TEST_KEYS[0], TEST_KEYS[1], TEST_KEYS[0], TEST_KEYS[2]];
    let keyring = SecretKeyring::with_keys(TEST_KEYS[1], keys);
    // primary first, then the others in first-appearance order, no repeats
    assert_eq!(keyring.keys(), vec![TEST_KEYS[1], TEST_KEYS[0], TEST_KEYS[2]]);
}

#[test]
fn test_keyring_rotation_keeps_all_keys() {
    // a cluster rotating from key 0 to key 2 loses no key
    let mut keyring = SecretKeyring::with_keys(TEST_KEYS[0], TEST_KEYS.to_vec());
    let mut before = keyring.keys();
    keyring.use_key(&TEST_KEYS[2]).unwrap();
    assert_eq!(keyring.primary_key(), TEST_KEYS[2]);
    let mut after = keyring.keys();
    before.sort_by(|a, b| a.as_ref().cmp(b.as_ref()));
    after.sort_by(|a, b| a.as_ref().cmp(b.as_ref()));
    assert_eq!(before, after);

    // using the current primary is a no-op
    let snapshot = keyring.keys();
    keyring.use_key(&TEST_KEYS[2]).unwrap();
    assert_eq!(keyring.keys(), snapshot);
}
