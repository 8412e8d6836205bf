use wm_handlers::payload::decode;
use wm_handlers::restart::{checked_payload, encode_payload, RestartError};

#[test]
fn empty_list_is_two_brackets() {
    assert_eq!(encode_payload(&vec![]), Ok("[]".to_string()));
    assert_eq!(decode("[]"), Some(vec![]));
}

#[test]
fn payload_lists_pairs_in_order() {
    let pairs = vec![(10u64, 1u32), (11, 1), (12, 2)];
    assert_eq!(encode_payload(&pairs), Ok("[[10,1],[11,1],[12,2]]".to_string()));
}

#[test]
fn payload_reads_back() {
    let pairs = vec![(0u64, 0u32), (u64::MAX, u32::MAX), (7, 3), (7, 4), (1000, 10)];
    let text = encode_payload(&pairs).unwrap();
    assert_eq!(text, "[[0,0],[18446744073709551615,4294967295],[7,3],[7,4],[1000,10]]");
    assert_eq!(decode(&text), Some(pairs));
}

#[test]
fn payload_reads_back_as_the_same_set() {
    let pairs = vec![(3u64, 2u32), (1, 1), (2, 1)];
    let mut read = decode(&encode_payload(&pairs).unwrap()).unwrap();
    let mut written = pairs.clone();
    read.sort();
    written.sort();
    assert_eq!(read, written);
}

#[test]
fn single_pair_reads_back() {
    assert_eq!(decode("[[42,7]]"), Some(vec![(42, 7)]));
}

#[test]
fn the_outside_decoder_reads_the_payload() {
    let pairs = vec![(5u64, 1u32), (6, 2)];
    let text = encode_payload(&pairs).unwrap();
    let read: Vec<(u64, u32)> = rustc_serialize::json::decode(&text).unwrap();
    assert_eq!(read, pairs);
}

#[test]
fn largest_numbers_are_read() {
    assert_eq!(
        decode("[[18446744073709551615,4294967295]]"),
        Some(vec![(u64::MAX, u32::MAX)])
    );
}

#[test]
fn numbers_out_of_range_are_refused() {
    assert_eq!(decode("[[18446744073709551616,1]]"), None);
    assert_eq!(decode("[[1,4294967296]]"), None);
    assert_eq!(decode("[[99999999999999999999999999999999,1]]"), None);
}

#[test]
fn leading_zeros_are_refused() {
    assert_eq!(decode("[[01,1]]"), None);
    assert_eq!(decode("[[1,00]]"), None);
    assert_eq!(decode("[[0,0]]"), Some(vec![(0, 0)]));
}

#[test]
fn white_space_is_refused() {
    assert_eq!(decode("[[1, 2]]"), None);
    assert_eq!(decode(" [[1,2]]"), None);
    assert_eq!(decode("[[1,2]] "), None);
    assert_eq!(decode("[ ]"), None);
}

#[test]
fn broken_texts_are_refused() {
    for text in [
        "", "[", "]", "[[", "[]]", "[[]]", "[[1]]", "[[1,]]", "[[,1]]", "[[1,2]", "[[1,2],]",
        "[[1,2],[3,4]", "[[1,2][3,4]]", "[[1,2],,[3,4]]", "[1,2]", "[[1,2,3]]", "[[-1,2]]",
        "[[1.0,2]]", "[[a,2]]", "{}", "[[1,2]]x", "[[1,2]],", "null",
    ] {
        assert_eq!(decode(text), None, "{text:?}");
    }
}

#[test]
fn text_beyond_ascii_is_refused() {
    assert_eq!(decode("[[1,2]]\u{e9}"), None);
    assert_eq!(decode("[[\u{661},2]]"), None);
}

#[test]
fn checked_payload_takes_the_payload_only() {
    let pairs = vec![(1u64, 1u32), (2, 2)];
    assert_eq!(
        checked_payload(&pairs, Ok("[[1,1],[2,2]]".to_string())),
        Ok("[[1,1],[2,2]]".to_string())
    );
    assert_eq!(
        checked_payload(&pairs, Ok("[[2,2],[1,1]]".to_string())),
        Err(RestartError::Serialization)
    );
    assert_eq!(
        checked_payload(&pairs, Ok("[[1,1]]".to_string())),
        Err(RestartError::Serialization)
    );
    assert_eq!(
        checked_payload(&pairs, Ok("[[1, 1], [2, 2]]".to_string())),
        Err(RestartError::Serialization)
    );
    assert_eq!(checked_payload(&pairs, Ok(String::new())), Err(RestartError::Serialization));
}

#[test]
fn encoder_failure_is_a_serialization_error() {
    let pairs = vec![(1u64, 1u32)];
    assert_eq!(
        checked_payload(&pairs, Err(rustc_serialize::json::EncoderError::BadHashmapKey)),
        Err(RestartError::Serialization)
    );
}
