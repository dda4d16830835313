use blemacd::bt_uuid::Uuid;

const BASE: [u8; 16] = [
    0, 0, 0, 0, 0, 0, 0x10, 0, 0x80, 0, 0, 0x80, 0x5f, 0x9b, 0x34, 0xfb,
];

fn base_with(prefix: &[u8]) -> Vec<u8> {
    let mut bytes = BASE.to_vec();
    for (i, byte) in prefix.iter().enumerate() {
        bytes[i] = *byte;
    }
    bytes
}

#[test]
fn short_uuids_are_expanded() {
    assert_eq!(Uuid::from_slice(&[0x18, 0x0f]).bytes(), base_with(&[0, 0, 0x18, 0x0f]));
    assert_eq!(
        Uuid::from_slice(&[1, 2, 3, 4]).bytes(),
        base_with(&[1, 2, 3, 4])
    );
    let all: Vec<u8> = (1..17).collect();
    assert_eq!(Uuid::from_slice(&all).bytes(), all);
}

#[test]
fn uuids_are_shortened() {
    let cases: Vec<(Vec<u8>, Vec<u8>)> = vec![
        (base_with(&[0, 0, 0, 0]), vec![0, 0]),
        (base_with(&[0, 0, 0, 1]), vec![0, 1]),
        (base_with(&[0, 0, 0xff, 0xff]), vec![0xff, 0xff]),
        (base_with(&[0, 1, 0, 0]), vec![0, 1, 0, 0]),
        (base_with(&[0xff, 0xff, 0xff, 0xff]), vec![0xff, 0xff, 0xff, 0xff]),
        (base_with(&[0, 0, 0, 0, 1]), base_with(&[0, 0, 0, 0, 1])),
    ];
    for (bytes, short) in cases {
        let uuid = Uuid::from_slice(&bytes);
        assert_eq!(uuid.shorten(), short);
        assert_eq!(Uuid::from_slice(&uuid.shorten()), uuid);
    }
}

#[test]
fn uuids_as_text() {
    let bytes: Vec<u8> = vec![
        0x12, 0x34, 0x56, 0x78, 0x9a, 0xbc, 0xde, 0xf0, 0x12, 0x34, 0x56, 0x78, 0x9a, 0xbc, 0xde,
        0xf0,
    ];
    assert_eq!(
        Uuid::from_slice(&bytes).to_text(),
        "12345678-9abc-def0-1234-56789abcdef0"
    );
    assert_eq!(
        Uuid::from_slice(&[0, 0]).to_text(),
        "00000000-0000-1000-8000-00805f9b34fb"
    );
}

#[test]
fn keys_identify_uuids() {
    let uuid = Uuid::from_slice(&(0..16).collect::<Vec<u8>>());
    assert_eq!(uuid.key(), 0x0001_0203_0405_0607_0809_0a0b_0c0d_0e0f);
    assert_eq!(Uuid::from_key(uuid.key()), uuid);
    assert_ne!(Uuid::from_key(1), Uuid::from_key(2));
}
