use adb_rs::commands::shell_cmd::{text_resp, text_resp_len, ShellCmd};
use adb_rs::commands::switch_shell::SwitchShell;
use adb_rs::commands::{Derives, SyncHandler};
use adb_rs::utils::adb_ext::{body_text, size_from_header};
use adb_rs::utils::imm_cmd::resp_service::{ImmCmdReq, ImmCmdRespService, ImmStep};
use adb_rs::utils::interact_cmd::cmd_resp::{InteractCmdRespService, ScanStep};
use adb_rs::AdbError;
use adb_rs::protocol::wire::{frame_bytes, parse_len, status_of, Status};

#[test]
fn status_steps() {
    let svc = ImmCmdRespService;
    assert!(matches!(svc.on_status::<()>(*b"OKAY"), ImmStep::Handle));
    assert!(matches!(svc.on_status::<()>(*b"FAIL"), ImmStep::ReadFailure));
    match svc.on_status::<()>(*b"WHAT") {
        ImmStep::Fail(AdbError::Unknown(t)) => assert_eq!(t, "WHAT"),
        _ => panic!("unknown status word not reported"),
    }
}

#[test]
fn refusal_message() {
    let svc = ImmCmdRespService;
    match svc.failure::<()>(b"device offline") {
        AdbError::Failure(m) => assert_eq!(m, "device offline"),
        _ => panic!("refusal not reported"),
    }
}

#[test]
fn size_headers() {
    assert_eq!(size_from_header::<()>(*b"0010").ok(), Some(16));
    assert!(matches!(size_from_header::<()>(*b"zz10"), Err(AdbError::Parse(_))));
    assert_eq!(body_text(b"abc"), "abc");
}

#[test]
fn reader_wrapper_round_trip() {
    let req: ImmCmdReq<Derives, Vec<u8>> = ImmCmdReq::for_reader(vec![1, 2, 3]);
    assert_eq!(req.into_reader(), vec![1, 2, 3]);
}

#[test]
fn shell_text_replies() {
    assert!(!ShellCmd::<false>::expects_resp());
    assert!(ShellCmd::<true>::expects_resp());
    assert_eq!(text_resp_len(*b"0005"), Some(5));
    assert_eq!(text_resp_len(*b"xyz!"), None);
    assert_eq!(text_resp(b"hello"), Some("hello".to_string()));
}

#[test]
fn device_list_is_parsed() {
    assert_eq!(Derives::body_len(*b"002E"), 46);
    let body = b"emulator-5554\tdevice\n0123456789ABCDEF\toffline\n";
    let devices = Derives::parse_devices(body);
    assert_eq!(
        devices,
        vec![
            ("emulator-5554".to_string(), "device".to_string()),
            ("0123456789ABCDEF".to_string(), "offline".to_string()),
        ]
    );
}

#[test]
fn device_lines_without_tab_are_skipped() {
    let body = b"no tab here\nabc\tdevice\textra\n\t\n";
    let devices = Derives::parse_devices(body);
    assert_eq!(
        devices,
        vec![("abc".to_string(), "device".to_string()), ("".to_string(), "".to_string())]
    );
    assert!(Derives::parse_devices(b"").is_empty());
}

#[test]
fn shell_output_up_to_prompt() {
    let svc = InteractCmdRespService;
    assert_eq!(svc.collect(b"abcd/ $ "), Some((8, b"abcd".to_vec())));
    assert_eq!(svc.collect(b"a/ $ "), Some((5, b"a".to_vec())));
    assert_eq!(svc.collect(b"ab/ $ "), Some((6, b"ab".to_vec())));
    assert_eq!(svc.collect(b"abc/ $ "), Some((7, b"abc".to_vec())));
    assert_eq!(svc.collect(b"/ $ rest"), Some((4, Vec::new())));
    assert_eq!(svc.collect(b"abcdefgh"), None);
    assert_eq!(svc.collect(b"abc/ $"), None);
}

#[test]
fn shell_output_with_false_prompt_start() {
    let svc = InteractCmdRespService;
    // "abc/" asks for three more bytes; "xyz" is not the prompt's end.
    assert_eq!(svc.collect(b"abc/xyzd/ $ "), Some((12, b"abc/xyzd".to_vec())));
    // a prompt that starts inside the extra bytes is not seen there.
    assert_eq!(svc.collect(b"abc// $ "), None);
}

#[test]
fn chunk_and_tail_steps() {
    let svc = InteractCmdRespService;
    let mut out = Vec::new();
    assert_eq!(svc.on_chunk(&mut out, *b"abcd"), ScanStep::Continue);
    assert_eq!(out, b"abcd".to_vec());
    assert_eq!(svc.on_chunk(&mut out, *b"x/ $"), ScanStep::ReadTail(1));
    assert_eq!(svc.on_chunk(&mut out, *b"xy/ "), ScanStep::ReadTail(2));
    assert_eq!(svc.on_chunk(&mut out, *b"xyz/"), ScanStep::ReadTail(3));
    assert_eq!(svc.on_chunk(&mut out, *b"/ $ "), ScanStep::Done);
    assert_eq!(out, b"abcd".to_vec());
    assert!(!svc.on_tail(&mut out, *b"xy/ ", b"$x"));
    assert_eq!(out, b"abcdxy/ $x".to_vec());
    assert!(svc.on_tail(&mut out, *b"xy/ ", b"$ "));
    assert_eq!(out, b"abcdxy/ $xxy".to_vec());
}

#[test]
fn shell_output_as_text() {
    assert_eq!(SwitchShell::sync_handle(b"done".to_vec()).unwrap(), "done");
    assert!(SwitchShell::sync_handle(vec![0xff]).is_err());
}

#[test]
fn consumed_bytes_are_output_then_prompt() {
    let svc = InteractCmdRespService;
    for stream in [&b"hello wo/ $ tail"[..], &b"xyz/abc/ $ "[..], &b"12345678/ $ "[..]] {
        let (n, out) = svc.collect(stream).unwrap();
        let mut expected = out.clone();
        expected.extend_from_slice(b"/ $ ");
        assert_eq!(&stream[..n], &expected[..]);
    }
}

#[test]
fn refused_request_reply_is_read_back() {
    let mut reply = b"FAIL".to_vec();
    reply.extend(frame_bytes(b"device offline"));
    assert_eq!(status_of([reply[0], reply[1], reply[2], reply[3]]), Status::Fail);
    let n = parse_len([reply[4], reply[5], reply[6], reply[7]]).unwrap() as usize;
    assert_eq!(n, 14);
    match ImmCmdRespService.failure::<()>(&reply[8..8 + n]) {
        AdbError::Failure(m) => assert_eq!(m, "device offline"),
        _ => panic!("refusal not reported"),
    }
    assert_eq!(reply.len(), 8 + n);
}

#[test]
fn unknown_status_word_that_is_not_utf8() {
    match ImmCmdRespService.on_status::<()>([0xff, 0x41, 0x42, 0x43]) {
        ImmStep::Fail(AdbError::Unknown(t)) => assert_eq!(t, "\u{FFFD}ABC"),
        _ => panic!("unknown status word not reported"),
    }
}

#[test]
fn lossy_texts() {
    assert_eq!(adb_rs::protocol::wire::lossy_text(b"abc"), "abc");
    assert_eq!(adb_rs::protocol::wire::lossy_text(&[0x61, 0xff]), "a\u{FFFD}");
}
