use cowcat::frame::{
    append_tlv, decode_frame, decode_task_request, decode_task_response, decode_verify_request, deobfuscate_frame,
    encode_error_frame, encode_frame, encode_task_response, encode_task_response_frame, encode_verify_response,
    parse_tlv, xor_key_bytes, BinaryTaskResponse, BinaryVerifyResponse, FrameError,
};
use cowcat::task_store::{IpHash, Scope, Seed, Task, TaskId, UaHash};

fn sample_response() -> BinaryTaskResponse {
    BinaryTaskResponse {
        task_id: "0123456789abcdef0123456789abcdef".to_string(),
        seed: "c2VlZA==".to_string(),
        bits: 12,
        exp: 1_700_000_120,
        scope: "example.com".to_string(),
        ua_hash: "AAAAAAAAAAA=".to_string(),
        ip_hash: String::new(),
        workers: 4,
        worker_type: "wasm".to_string(),
    }
}

#[test]
fn frame_header_layout() {
    let f = encode_frame(2, vec![1, 2, 3]);
    assert_eq!(f, vec![b'C', b'W', 1, 2, 0, 0, 0, 3, 1, 2, 3]);
}

#[test]
fn frame_round_trip() {
    let f = encode_frame(3, vec![9, 8]);
    let (t, p) = decode_frame(&f).unwrap();
    assert_eq!(t, 3);
    assert_eq!(p, vec![9, 8]);
}

#[test]
fn frame_errors() {
    assert_eq!(decode_frame(&[b'C', b'W', 1]).unwrap_err(), FrameError::TooShort);
    assert_eq!(decode_frame(&[b'X', b'W', 1, 1, 0, 0, 0, 0]).unwrap_err(), FrameError::BadMagic);
    assert_eq!(decode_frame(&[b'C', b'W', 2, 1, 0, 0, 0, 0]).unwrap_err(), FrameError::UnsupportedVersion);
    assert_eq!(decode_frame(&[b'C', b'W', 1, 1, 0, 0, 0, 2, 7]).unwrap_err(), FrameError::LengthMismatch);
}

#[test]
fn tlv_errors() {
    assert_eq!(parse_tlv(&[1, 0]).unwrap_err(), FrameError::TlvHeaderTruncated);
    assert_eq!(parse_tlv(&[1, 0, 5, 1]).unwrap_err(), FrameError::TlvValueOverrun);
    assert!(parse_tlv(&[]).unwrap().is_empty());
}

#[test]
fn tlv_later_entry_wins() {
    let mut p = append_tlv(Vec::new(), 1, b"/a");
    p = append_tlv(p, 1, b"/b");
    let req = decode_task_request(&p).unwrap();
    assert_eq!(req.redirect, "/b");
}

#[test]
fn xor_mask_twice_restores() {
    let key = xor_key_bytes();
    assert_eq!(key, b"cowcatwaflibwafcatcow".to_vec());
    let plain: Vec<u8> = (0u8..50).collect();
    let mut data = plain.clone();
    deobfuscate_frame(&mut data, &key);
    assert_ne!(data, plain);
    assert_eq!(data[0], 0 ^ b'c');
    deobfuscate_frame(&mut data, &key);
    assert_eq!(data, plain);
}

#[test]
fn task_response_round_trip() {
    let r = sample_response();
    let payload = encode_task_response(r.clone());
    let d = decode_task_response(&payload).unwrap();
    assert_eq!(d.task_id, r.task_id);
    assert_eq!(d.seed, r.seed);
    assert_eq!(d.bits, 12);
    assert_eq!(d.exp, 1_700_000_120);
    assert_eq!(d.scope, r.scope);
    assert_eq!(d.ua_hash, r.ua_hash);
    assert_eq!(d.ip_hash, "");
    assert_eq!(d.workers, 4);
    assert_eq!(d.worker_type, "wasm");
}

#[test]
fn task_response_negative_exp_round_trip() {
    let mut r = sample_response();
    r.exp = -5;
    let d = decode_task_response(&encode_task_response(r)).unwrap();
    assert_eq!(d.exp, -5);
}

#[test]
fn task_response_missing_field() {
    let p = append_tlv(Vec::new(), 2, b"id");
    assert_eq!(decode_task_response(&p).unwrap_err(), FrameError::MissingField);
}

#[test]
fn verify_request_requires_id_and_nonce() {
    let p = append_tlv(Vec::new(), 2, b"abc");
    assert_eq!(decode_verify_request(&p).unwrap_err(), FrameError::MissingField);
    let p = append_tlv(p, 0x0a, b"42");
    let req = decode_verify_request(&p).unwrap();
    assert_eq!(req.task_id, "abc");
    assert_eq!(req.nonce, "42");
    assert_eq!(req.redirect, "");
}

#[test]
fn verify_response_and_error_frames() {
    let p = encode_verify_response(BinaryVerifyResponse { redirect: "/x".to_string() });
    assert_eq!(p, vec![1, 0, 2, b'/', b'x']);
    let e = encode_error_frame("bad");
    assert_eq!(e, vec![b'C', b'W', 1, 5, 0, 0, 0, 6, 0x0f, 0, 3, b'b', b'a', b'd']);
}

#[test]
fn task_response_frame_is_masked() {
    let task = Task {
        task_id: TaskId("id1".to_string()),
        seed: Seed("seed".to_string()),
        bits: 8,
        exp: 100,
        scope: Scope("h".to_string()),
        ua_hash: UaHash("u".to_string()),
        ip_hash: IpHash(String::new()),
    };
    let mut f = encode_task_response_frame(&task, 2, "native");
    deobfuscate_frame(&mut f, &xor_key_bytes());
    let (t, p) = decode_frame(&f).unwrap();
    assert_eq!(t, 2);
    let d = decode_task_response(&p).unwrap();
    assert_eq!(d.task_id, "id1");
    assert_eq!(d.bits, 8);
    assert_eq!(d.workers, 2);
    assert_eq!(d.worker_type, "native");
}
