use wasm_modinfo::decode::decode_module;
use wasm_modinfo::encode::{encode_module, push_uleb};
use wasm_modinfo::error::DecodeError;
use wasm_modinfo::factor::pollard_rho_factor_i64;
use wasm_modinfo::model::ModuleInfo;
use wasm_modinfo::session::{DecoderSession, INPUT_CAPACITY};

fn sample_module() -> Vec<u8> {
    vec![
        0x00, 0x61, 0x73, 0x6d, 0x01, 0x00, 0x00, 0x00, 0x01, 0x07, 0x01, 0x60, 0x02, 0x7f, 0x7f, 0x01, 0x7f, 0x02,
        0x0b, 0x01, 0x03, b'e', b'n', b'v', 0x03, b's', b'u', b'm', 0x00, 0x00, 0x03, 0x02, 0x01, 0x00, 0x0a, 0x06,
        0x01, 0x04, 0x01, 0x01, 0x7f, 0x0b,
    ]
}

#[test]
fn empty_module_encoding() {
    assert_eq!(encode_module(&ModuleInfo::new()), vec![0x4d, 0x49, 0x4e, 0x46, 0x01]);
}

#[test]
fn uleb_encoding() {
    let mut out = vec![9];
    push_uleb(&mut out, 300);
    assert_eq!(out, vec![9, 0xac, 0x02]);
}

#[test]
fn sample_encoding() {
    let m = decode_module(&sample_module()).unwrap();
    let bytes = encode_module(&m);
    let mut expected = vec![0x4d, 0x49, 0x4e, 0x46, 0x01];
    expected.extend_from_slice(&[0x01, 0x07, 0x01, 0x02, 0x7f, 0x7f, 0x02, 0x01, 0x7f]);
    expected.extend_from_slice(&[0x02, 0x0d, 0x01, 0x03, b'e', b'n', b'v', 0x02, 0x03, b's', b'u', b'm', 0x03, 0x01, 0x00]);
    expected.extend_from_slice(&[0x03, 0x0a, 0x01, 0x01, 0x00, 0x02, 0x02, 0x01, 0x7f, 0x03, 0x01, 0x0b]);
    assert_eq!(bytes, expected);
}

#[test]
fn repeated_decode_gives_identical_bytes() {
    let input = sample_module();
    let mut s = DecoderSession::new();
    assert_eq!(s.acquire_input_buffer(input.len()), Ok(()));
    assert!(s.write_input(0, &input));
    assert!(s.decode(input.len()));
    let first = s.output().unwrap().clone();
    assert!(s.decode(input.len()));
    let second = s.output().unwrap().clone();
    assert_eq!(first, second);
    assert_eq!(first, encode_module(&decode_module(&input).unwrap()));
}

#[test]
fn session_failure_keeps_result() {
    let input = sample_module();
    let mut s = DecoderSession::new();
    assert_eq!(s.acquire_input_buffer(INPUT_CAPACITY + 1), Err(DecodeError::InputTooLarge));
    assert!(!s.decode(8));
    assert_eq!(s.acquire_input_buffer(input.len()), Ok(()));
    assert!(!s.decode(8));
    assert!(s.output().is_none());
    assert!(s.write_input(0, &input));
    assert!(s.decode(input.len()));
    let kept = s.output().unwrap().clone();
    assert!(s.write_input(0, &[0u8; 8]));
    assert!(!s.decode(input.len()));
    assert!(!s.validate(input.len()));
    assert_eq!(s.output().unwrap(), &kept);
    s.release_output();
    assert!(s.output().is_none());
}

#[test]
fn factor_semiprime() {
    let a: i64 = 613676879;
    let b: i64 = 895640371;
    let (r1, r2) = pollard_rho_factor_i64(a * b);
    assert_eq!(r1 * r2, a * b);
    assert_eq!((r1.min(r2), r1.max(r2)), (a, b));
}

#[test]
fn factor_prime() {
    assert_eq!(pollard_rho_factor_i64(13), (1, 13));
    let (r1, r2) = pollard_rho_factor_i64(91);
    assert_eq!((r1.min(r2), r1.max(r2)), (7, 13));
}

#[test]
fn factor_results_are_proper() {
    for n in [2i64, 4, 9, 15, 97, 1001, 7919] {
        let (r1, r2) = pollard_rho_factor_i64(n);
        assert_eq!(r1 * r2, n);
        assert!((r1, r2) == (1, n) || (1 < r1 && r1 < n));
    }
    assert_eq!(pollard_rho_factor_i64(7919), (1, 7919));
}

#[test]
fn host_writes_in_place() {
    let input = sample_module();
    let mut s = DecoderSession::new();
    assert_eq!(s.acquire_input_buffer(input.len()), Ok(()));
    assert_eq!(s.input_buffer().len(), INPUT_CAPACITY);
    s.input_buffer()[..input.len()].copy_from_slice(&input);
    assert!(s.decode(input.len()));
    assert_eq!(s.output().unwrap(), &encode_module(&decode_module(&input).unwrap()));
}
