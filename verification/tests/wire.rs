use adb_rs::commands::{Derives, ShellCmdBuilder, TransPort};
use adb_rs::protocol::wire::{
    decode_text, encode_len, frame_bytes, hex_char_of, hex_digit_value, is_hex, is_utf8, parse_len,
    status_of, text_bytes, Status,
};
use adb_rs::utils::imm_cmd::req_service::ImmCmdReqService;
use adb_rs::utils::interact_cmd::cmd_req::InteractCmdReqService;
use std::borrow::Cow;

#[test]
fn length_header_is_read_as_hexadecimal() {
    assert_eq!(parse_len(*b"001A"), Some(26));
    assert_eq!(parse_len(*b"001a"), Some(26));
    assert_eq!(parse_len(*b"FFFF"), Some(0xFFFF));
    assert_eq!(parse_len(*b"0000"), Some(0));
    assert_eq!(parse_len(*b"+FFF"), Some(0xFFF));
}

#[test]
fn malformed_length_headers_are_refused() {
    assert_eq!(parse_len(*b"-001"), None);
    assert_eq!(parse_len(*b"00G0"), None);
    assert_eq!(parse_len(*b" 001"), None);
    assert_eq!(parse_len(*b"++01"), None);
    assert_eq!(parse_len([0x30, 0x30, 0xC3, 0xA9]), None);
    assert_eq!(parse_len(*b"OKAY"), None);
}

#[test]
fn hex_digits() {
    assert!(is_hex(b'0') && is_hex(b'f') && is_hex(b'F') && !is_hex(b'g') && !is_hex(b'+'));
    assert_eq!(hex_digit_value(b'a'), 10);
    assert_eq!(hex_digit_value(b'F'), 15);
    assert_eq!(hex_digit_value(b'7'), 7);
    assert_eq!(hex_char_of(11), b'B');
    assert_eq!(hex_char_of(9), b'9');
}

#[test]
fn length_prefix_is_four_upper_case_digits() {
    assert_eq!(encode_len(0), b"0000".to_vec());
    assert_eq!(encode_len(26), b"001A".to_vec());
    assert_eq!(encode_len(0xABCD), b"ABCD".to_vec());
    assert_eq!(encode_len(0x10000), b"10000".to_vec());
    assert_eq!(encode_len(12), format!("{:04X}", 12).into_bytes());
}

#[test]
fn framed_payload_reads_back() {
    let payload = b"host:version";
    let framed = frame_bytes(payload);
    assert_eq!(framed, b"000Chost:version".to_vec());
    let header = [framed[0], framed[1], framed[2], framed[3]];
    assert_eq!(parse_len(header), Some(payload.len() as u16));
    assert_eq!(&framed[4..], payload);
}

#[test]
fn status_words() {
    assert_eq!(status_of(*b"OKAY"), Status::Okay);
    assert_eq!(status_of(*b"FAIL"), Status::Fail);
    assert_eq!(status_of(*b"OKAX"), Status::Other);
    assert_eq!(status_of(*b"fail"), Status::Other);
}

#[test]
fn utf8_texts() {
    assert!(is_utf8("héllo".as_bytes()));
    assert!(!is_utf8(&[0xff, 0x41]));
    assert_eq!(decode_text("héllo".as_bytes()), "héllo");
    assert_eq!(text_bytes("é!"), vec![0xC3, 0xA9, 0x21]);
}

#[test]
fn immediate_requests_are_framed() {
    let svc = ImmCmdReqService;
    assert_eq!(svc.request(Derives), b"000Chost:devices".to_vec());
    assert_eq!(svc.request(TransPort::Usb), b"0012host:transport-usb".to_vec());
    let cmd = ShellCmdBuilder::with_no_resp(Cow::Borrowed("")).build();
    assert_eq!(svc.request(cmd), b"0007shell: ".to_vec());
    // the prefix counts bytes, not characters
    assert_eq!(svc.request(TransPort::Serial("é".to_string())), b"0011host:transport:\xC3\xA9".to_vec());
}

#[test]
fn interactive_requests_end_with_newline() {
    let svc = InteractCmdReqService;
    let cmd = ShellCmdBuilder::with_no_resp(Cow::Borrowed("ls")).arg(Cow::Borrowed("/sdcard")).build();
    assert_eq!(svc.request(cmd), b"shell:ls /sdcard\n".to_vec());
}
