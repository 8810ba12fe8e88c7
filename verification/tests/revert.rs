use ethnum::U256;
use evm_loader::error::{build_revert_message, format_revert_error, format_revert_panic};

#[test]
fn revert_message_layout() {
    let msg = build_revert_message("abc");
    assert_eq!(msg.len(), 4 + 32 + 32 + 32);
    assert_eq!(&msg[..4], &[0x08, 0xc3, 0x79, 0xa0]);
    assert_eq!(msg[35], 0x20);
    assert_eq!(msg[67], 3);
    assert_eq!(&msg[68..71], b"abc");
    assert!(msg[71..].iter().all(|b| *b == 0));

    assert_eq!(build_revert_message("").len(), 100);
    assert_eq!(build_revert_message(&"x".repeat(32)).len(), 100);
    assert_eq!(build_revert_message(&"x".repeat(33)).len(), 132);
    assert_eq!(build_revert_message(&"x".repeat(64)).len(), 132);
}

#[test]
fn revert_reason_round_trip() {
    let msg = build_revert_message("out of gas");
    assert_eq!(format_revert_error(&msg), Some("out of gas"));
    let unicode = build_revert_message("naïve");
    assert_eq!(format_revert_error(&unicode), Some("naïve"));
}

#[test]
fn revert_reason_refusals() {
    assert_eq!(format_revert_error(&[]), None);
    assert_eq!(format_revert_error(&[0x08, 0xc3, 0x79, 0xa0, 0]), None);
    let mut msg = build_revert_message("abc");
    msg[35] = 0x40;
    assert_eq!(format_revert_error(&msg), None);
    let mut long = build_revert_message("abc");
    long[67] = 200;
    assert_eq!(format_revert_error(&long), None);
    let mut invalid = build_revert_message("abc");
    invalid[68] = 0xff;
    assert_eq!(format_revert_error(&invalid), None);
}

#[test]
fn revert_panic_code() {
    let mut msg = vec![0x4e, 0x48, 0x7b, 0x71];
    let mut code = [0u8; 32];
    code[31] = 0x11;
    msg.extend_from_slice(&code);
    assert_eq!(format_revert_panic(&msg), Some(U256::new(0x11)));
    msg.push(0);
    assert_eq!(format_revert_panic(&msg), None);
    assert_eq!(format_revert_panic(&[0x4e, 0x48]), None);
}
