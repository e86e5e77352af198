//! Error messages and stack-frame rendering.

use remoteprocess::Error;
use remoteprocess::StackFrame;
use remoteprocess::u64_dec;
use remoteprocess::u64_hex;

#[test]
fn no_binary_message_names_the_address_and_suggests_reloading() {
    let msg = Error::NoBinaryForAddress(0x1000).message();
    assert_eq!(msg, "No binary found for address 0x0000000000001000. Try reloading.");
    assert!(msg.contains("0000000000001000"));
    assert!(msg.contains("Try reloading"));
}

#[test]
fn wrapped_messages_render_unmodified() {
    let parse = Error::GoblinError(String::from("Malformed entity: bad magic")).message();
    assert_eq!(parse, "Malformed entity: bad magic");
    let io = Error::IOError(String::from("connection reset")).message();
    assert_eq!(io, "connection reset");
    let other = Error::Other(String::from("anything at all")).message();
    assert_eq!(other, "anything at all");
}

#[test]
fn errno_message_is_the_errno_description() {
    let msg = Error::NixError(nix::errno::Errno::ESRCH).message();
    assert_eq!(msg, nix::errno::Errno::ESRCH.to_string());
}

#[test]
fn hex_rendering_is_fixed_width() {
    assert_eq!(u64_hex(0, 16), "0000000000000000");
    assert_eq!(u64_hex(0xDEAD_BEEF, 16), "00000000deadbeef");
    assert_eq!(u64_hex(u64::MAX, 16), "ffffffffffffffff");
    assert_eq!(u64_hex(0x2A, 2), "2a");
}

#[test]
fn dec_rendering_has_no_leading_zeros() {
    assert_eq!(u64_dec(0), "0");
    assert_eq!(u64_dec(7), "7");
    assert_eq!(u64_dec(1234567890), "1234567890");
    assert_eq!(u64_dec(u64::MAX), "18446744073709551615");
}

#[test]
fn frame_with_file_renders_function_file_and_line() {
    let frame = StackFrame {
        line: Some(42),
        filename: Some(String::from("src/main.rs")),
        function: Some(String::from("do_work")),
        module: String::from("/usr/bin/app"),
        addr: 0x5555_5555_1000,
    };
    assert_eq!(frame.render(), "0x0000555555551000 do_work (src/main.rs:42)");
}

#[test]
fn frame_without_file_renders_module_instead() {
    let frame = StackFrame {
        line: None,
        filename: None,
        function: Some(String::from("do_work")),
        module: String::from("/usr/bin/app"),
        addr: 0x1000,
    };
    assert_eq!(frame.render(), "0x0000000000001000 do_work (/usr/bin/app)");
}

#[test]
fn frame_without_function_renders_question_mark_and_missing_line_renders_zero() {
    let unknown = StackFrame {
        line: None,
        filename: None,
        function: None,
        module: String::from("mod"),
        addr: 1,
    };
    assert_eq!(unknown.render(), "0x0000000000000001 ? (mod)");
    let no_line = StackFrame {
        line: None,
        filename: Some(String::from("a.c")),
        function: None,
        module: String::from("mod"),
        addr: 1,
    };
    assert_eq!(no_line.render(), "0x0000000000000001 ? (a.c:0)");
}
