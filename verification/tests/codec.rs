use roster_store::codec::{decode, encode, u32_from_be, u32_to_be};
use roster_store::record::Employee;

#[test]
fn big_endian_bytes_are_exact() {
    assert_eq!(u32_to_be(0), vec![0, 0, 0, 0]);
    assert_eq!(u32_to_be(258), vec![0, 0, 1, 2]);
    assert_eq!(u32_to_be(u32::MAX), vec![255, 255, 255, 255]);
    assert_eq!(u32_from_be(0, 0, 1, 2), 258);
    assert_eq!(u32_from_be(255, 255, 255, 255), u32::MAX);
}

#[test]
fn record_encoding_round_trips() {
    let record = Employee {
        full_name: "Ivanov".to_string(),
        salary: 50000,
        bonus: 10000,
        rating_centi: 80,
    };
    let bytes = encode(&record);
    assert_eq!(&bytes[0..4], &u32_to_be(50000)[..]);
    assert_eq!(&bytes[4..8], &u32_to_be(10000)[..]);
    assert_eq!(&bytes[8..12], &u32_to_be(80)[..]);
    assert_eq!(&bytes[12..], "Ivanov".as_bytes());
    assert_eq!(decode(&bytes), Some(record));
}

#[test]
fn empty_name_round_trips() {
    let record = Employee {
        full_name: String::new(),
        salary: 0,
        bonus: 0,
        rating_centi: 0,
    };
    assert_eq!(decode(&encode(&record)), Some(record));
}

#[test]
fn decode_rejects_short_input() {
    assert_eq!(decode(&vec![]), None);
    assert_eq!(decode(&vec![0; 11]), None);
}

#[test]
fn decode_rejects_invalid_name_bytes() {
    let mut bytes = vec![0; 12];
    bytes.push(0xff);
    assert_eq!(decode(&bytes), None);
}

#[test]
fn twelve_bytes_decode_to_empty_name() {
    let mut bytes = u32_to_be(7);
    bytes.extend_from_slice(&u32_to_be(8));
    bytes.extend_from_slice(&u32_to_be(9));
    let decoded = decode(&bytes).unwrap();
    assert_eq!(decoded.full_name, "");
    assert_eq!(decoded.salary, 7);
    assert_eq!(decoded.bonus, 8);
    assert_eq!(decoded.rating_centi, 9);
}
