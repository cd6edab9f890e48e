use std::collections::HashMap;

use rzc::codec::{load, reload, save, CodecError};
use rzc::data::Data;
use rzc::visit::{record_visit, Direction};

fn entries(data: &Data) -> Vec<(String, u64)> {
    data.sorted().iter().map(|e| (e.0.clone(), e.1)).collect()
}

fn pair(path: &str, weight: u64) -> (String, u64) {
    (path.to_string(), weight)
}

fn sample() -> Data {
    let mut data = Data::new();
    data.insert("/home/me".to_string(), 7);
    data.insert("/tmp".to_string(), 141);
    data.insert("/名前".to_string(), 0);
    data.insert("".to_string(), u64::MAX);
    data
}

#[test]
fn round_trip_keeps_every_pair() {
    let data = sample();
    let mut bytes = Vec::new();
    assert_eq!(data.serialize_into(&mut bytes), Ok(()));
    let back = Data::deserialize_from(&bytes).unwrap();
    assert_eq!(back.len(), 4);
    assert_eq!(entries(&back), entries(&data));
    assert_eq!(back.to_string(), data.to_string());
    assert_eq!(back.weight("/名前"), Some(0));
    assert_eq!(back.weight(""), Some(u64::MAX));
}

#[test]
fn round_trip_of_the_empty_index() {
    let data = Data::new();
    let mut bytes = Vec::new();
    data.serialize_into(&mut bytes).unwrap();
    assert_eq!(bytes, vec![0u8; 8]);
    assert_eq!(Data::deserialize_from(&bytes).unwrap().len(), 0);
}

#[test]
fn reload_gives_the_index_back() {
    let data = sample();
    let back = reload(&data).unwrap();
    assert_eq!(entries(&back), entries(&data));
}

#[test]
fn encoding_is_length_prefixed_little_endian() {
    let mut data = Data::new();
    data.insert("ab".to_string(), 258);
    let mut bytes = Vec::new();
    data.serialize_into(&mut bytes).unwrap();
    let expected: Vec<u8> = vec![
        1, 0, 0, 0, 0, 0, 0, 0, // one entry
        2, 0, 0, 0, 0, 0, 0, 0, // two bytes of path
        b'a', b'b', // the path
        2, 1, 0, 0, 0, 0, 0, 0, // the weight
    ];
    assert_eq!(bytes, expected);
}

#[test]
fn serialize_into_appends() {
    let mut data = Data::new();
    data.insert("a".to_string(), 1);
    let mut bytes = vec![9u8, 9, 9];
    data.serialize_into(&mut bytes).unwrap();
    assert_eq!(bytes.len(), 3 + 8 + 8 + 1 + 8);
    assert_eq!(&bytes[..3], &[9, 9, 9]);
    assert_eq!(Data::deserialize_from(&bytes[3..]).unwrap().weight("a"), Some(1));
}

#[test]
fn save_overwrites_the_stream() {
    let mut data = Data::new();
    data.insert("a".to_string(), 1);
    let mut stream = vec![9u8; 100];
    assert_eq!(save(&data, &mut stream), Ok(()));
    assert_eq!(stream.len(), 8 + 8 + 1 + 8);
    assert_eq!(load(&stream).weight("a"), Some(1));
}

#[test]
fn reads_what_a_hash_map_was_written_as() {
    let mut map: HashMap<String, u64> = HashMap::new();
    map.insert("/a".to_string(), 3);
    map.insert("/b".to_string(), 4);
    let bytes = bincode::serialize(&map).unwrap();
    let data = Data::deserialize_from(&bytes).unwrap();
    assert_eq!(data.len(), 2);
    assert_eq!(data.weight("/a"), Some(3));
    assert_eq!(data.weight("/b"), Some(4));
    let mut written = Vec::new();
    data.serialize_into(&mut written).unwrap();
    let again: HashMap<String, u64> = bincode::deserialize(&written).unwrap();
    assert_eq!(again, map);
}

#[test]
fn a_path_stored_twice_keeps_its_place_and_last_weight() {
    let pairs = vec![pair("/a", 1), pair("/b", 5), pair("/a", 5)];
    let bytes = bincode::serialize(&pairs).unwrap();
    let data = Data::deserialize_from(&bytes).unwrap();
    assert_eq!(data.len(), 2);
    assert_eq!(entries(&data), vec![pair("/a", 5), pair("/b", 5)]);
}

#[test]
fn malformed_streams_are_decode_errors() {
    assert_eq!(Data::deserialize_from(&[]).err(), Some(CodecError::Decode));
    assert_eq!(Data::deserialize_from(&[1, 2, 3]).err(), Some(CodecError::Decode));
    let mut data = Data::new();
    data.insert("/home/me".to_string(), 7);
    let mut bytes = Vec::new();
    data.serialize_into(&mut bytes).unwrap();
    for cut in 0..bytes.len() {
        assert_eq!(Data::deserialize_from(&bytes[..cut]).err(), Some(CodecError::Decode));
    }
    let mut bad_utf8 = bytes.clone();
    bad_utf8[16] = 0xFF;
    assert_eq!(Data::deserialize_from(&bad_utf8).err(), Some(CodecError::Decode));
    let mut huge = bytes.clone();
    huge[8..16].copy_from_slice(&u64::MAX.to_le_bytes());
    assert_eq!(Data::deserialize_from(&huge).err(), Some(CodecError::Decode));
    let mut many = bytes.clone();
    many[0..8].copy_from_slice(&u64::MAX.to_le_bytes());
    assert_eq!(Data::deserialize_from(&many).err(), Some(CodecError::Decode));
}

#[test]
fn bytes_after_the_index_are_ignored() {
    let data = sample();
    let mut bytes = Vec::new();
    data.serialize_into(&mut bytes).unwrap();
    bytes.extend_from_slice(&[1, 2, 3]);
    assert_eq!(entries(&Data::deserialize_from(&bytes).unwrap()), entries(&data));
}

#[test]
fn load_falls_back_to_the_empty_index() {
    assert_eq!(load(&[]).len(), 0);
    assert_eq!(load(&[7, 7, 7]).len(), 0);
    let data = sample();
    let mut stream = Vec::new();
    save(&data, &mut stream).unwrap();
    assert_eq!(entries(&load(&stream)), entries(&data));
}

#[test]
fn error_messages() {
    assert_eq!(CodecError::Decode.message(), "the stored index cannot be read");
    assert_eq!(CodecError::Encode.message(), "the index cannot be written");
}

#[test]
fn record_visit_in_both_directions() {
    let mut data = Data::new();
    record_visit(&mut data, "/a".to_string(), Direction::Increase);
    assert_eq!(data.weight("/a"), Some(100));
    record_visit(&mut data, "/a".to_string(), Direction::Increase);
    assert_eq!(data.weight("/a"), Some(141));
    record_visit(&mut data, "/a".to_string(), Direction::Decrease);
    assert_eq!(data.weight("/a"), Some(41));
    record_visit(&mut data, "/a".to_string(), Direction::Decrease);
    assert_eq!(data.weight("/a"), Some(0));
    record_visit(&mut data, "/b".to_string(), Direction::Decrease);
    assert_eq!(data.weight("/b"), Some(0));
    assert_eq!(data.len(), 2);
}

#[test]
fn writing_to_a_vector_always_succeeds() {
    let mut data = Data::new();
    assert_eq!(data.serialize_into(&mut Vec::new()), Ok(()));
    for i in 0..500u64 {
        data.insert(format!("/deep/{}/{}", i, "x".repeat(i as usize)), u64::MAX - i);
    }
    let mut bytes = vec![0u8; 3];
    assert_eq!(data.serialize_into(&mut bytes), Ok(()));
    let mut stream = Vec::new();
    assert_eq!(save(&data, &mut stream), Ok(()));
    assert_eq!(&bytes[3..], &stream[..]);
    let back = reload(&data);
    assert!(back.is_ok());
    assert_eq!(entries(&back.unwrap()), entries(&data));
}
