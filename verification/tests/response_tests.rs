use newsletter_core::response::{
    decode_response, encode_response, see_other, HeaderPair, SavedResponse,
};

fn responses_equal(a: &SavedResponse, b: &SavedResponse) -> bool {
    if a.status_code != b.status_code || a.headers.len() != b.headers.len() || a.body != b.body {
        return false;
    }
    for (x, y) in a.headers.iter().zip(b.headers.iter()) {
        if x.name != y.name || x.value != y.value {
            return false;
        }
    }
    true
}

fn sample_response() -> SavedResponse {
    SavedResponse {
        status_code: 200,
        headers: vec![
            HeaderPair { name: b"Content-Type".to_vec(), value: b"text/html".to_vec() },
            HeaderPair { name: b"X-Empty".to_vec(), value: Vec::new() },
        ],
        body: b"<p>hello</p>".to_vec(),
    }
}

#[test]
fn encode_then_decode_gives_the_response_back() {
    let resp = sample_response();
    let bytes = encode_response(&resp);
    let decoded = decode_response(&bytes).expect("valid record failed to decode");
    assert!(responses_equal(&resp, &decoded));
}

#[test]
fn encoding_is_the_documented_record_form() {
    let resp = SavedResponse {
        status_code: 303,
        headers: vec![HeaderPair { name: b"X".to_vec(), value: b"ab".to_vec() }],
        body: b"Z".to_vec(),
    };
    let bytes = encode_response(&resp);
    let mut expected: Vec<u8> = Vec::new();
    expected.extend_from_slice(&303u16.to_le_bytes());
    expected.extend_from_slice(&1u64.to_le_bytes());
    expected.extend_from_slice(&1u64.to_le_bytes());
    expected.push(b'X');
    expected.extend_from_slice(&2u64.to_le_bytes());
    expected.extend_from_slice(b"ab");
    expected.push(b'Z');
    assert_eq!(bytes, expected);
}

#[test]
fn a_short_record_does_not_decode() {
    assert!(decode_response(b"tiny").is_none());
}

#[test]
fn a_record_with_an_impossible_status_does_not_decode() {
    let mut bytes: Vec<u8> = Vec::new();
    bytes.extend_from_slice(&42u16.to_le_bytes());
    bytes.extend_from_slice(&0u64.to_le_bytes());
    assert!(decode_response(&bytes).is_none());
}

#[test]
fn a_record_with_overrunning_headers_does_not_decode() {
    let mut bytes: Vec<u8> = Vec::new();
    bytes.extend_from_slice(&200u16.to_le_bytes());
    bytes.extend_from_slice(&1u64.to_le_bytes());
    bytes.extend_from_slice(&100u64.to_le_bytes());
    bytes.push(1);
    assert!(decode_response(&bytes).is_none());
}

#[test]
fn an_empty_record_decodes_to_the_bare_response() {
    let resp = SavedResponse { status_code: 204, headers: Vec::new(), body: Vec::new() };
    let bytes = encode_response(&resp);
    assert_eq!(bytes.len(), 10);
    let decoded = decode_response(&bytes).unwrap();
    assert!(responses_equal(&resp, &decoded));
}

#[test]
fn see_other_is_a_redirect_with_a_location_header() {
    let r = see_other("/admin/newsletters");
    assert_eq!(r.status_code, 303);
    assert_eq!(r.headers.len(), 1);
    assert_eq!(r.headers[0].name, b"Location".to_vec());
    assert_eq!(r.headers[0].value, b"/admin/newsletters".to_vec());
    assert!(r.body.is_empty());
}
