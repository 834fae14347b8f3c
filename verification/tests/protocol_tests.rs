use tcp_server::parser::WBMsgType;
use tcp_server::session::WBServer;

fn connected_session() -> WBServer {
    let mut s = WBServer::new();
    s.on_accept();
    s
}

fn feed(s: &mut WBServer, line: &[u8]) -> WBMsgType {
    s.wait_for_line(Some(line))
}

#[test]
fn new_session_is_idle_and_zeroed() {
    let s = WBServer::new();
    assert!(!s.connected);
    assert_eq!(s.addr, 0);
    assert_eq!(s.data, 0);
}

#[test]
fn write_command_sets_both_registers() {
    let mut s = connected_session();
    let m = feed(&mut s, b"write 1000 deadbeef");
    assert_eq!(m, WBMsgType::WriteData);
    assert_eq!(s.addr, 0x1000);
    assert_eq!(s.data, 0xDEADBEEF);
    assert!(s.connected);
}

#[test]
fn read_command_sets_address_and_response_is_rendered() {
    let mut s = connected_session();
    let m = feed(&mut s, b"read 20");
    assert_eq!(m, WBMsgType::ReadData);
    assert_eq!(s.addr, 0x20);
    let reply = s.read_response(0xCAFEBABE).unwrap();
    assert_eq!(reply, b"cafebabe\n");
}

#[test]
fn wait_event_and_event_response() {
    let mut s = connected_session();
    let m = feed(&mut s, b"wait_event");
    assert_eq!(m, WBMsgType::WaitEvent);
    let reply = s.event_response(b"evt1").unwrap();
    assert_eq!(reply, b"event evt1\n");
}

#[test]
fn malformed_lines_classify_as_parsing_err_and_mutate_nothing() {
    let mut s = connected_session();
    feed(&mut s, b"write 55 66");
    assert_eq!((s.addr, s.data), (0x55, 0x66));
    let bad: [&[u8]; 8] = [
        b"",
        b"foo",
        b"write 1",
        b"write zz 10",
        b"read",
        b"read 1 2",
        b"write 1 2 3",
        b"exit now",
    ];
    for line in bad {
        let m = feed(&mut s, line);
        assert_eq!(m, WBMsgType::ParsingErr, "line {:?}", line);
        assert_eq!((s.addr, s.data), (0x55, 0x66));
        assert!(s.connected);
    }
}

#[test]
fn disconnect_closes_and_later_reads_see_no_connection() {
    let mut s = connected_session();
    let m = feed(&mut s, b"disconnect");
    assert_eq!(m, WBMsgType::Disconnected);
    assert!(!s.connected);
    // The next read on the closed session reports Disconnected at once
    // and does not reach the parser.
    let m2 = feed(&mut s, b"write 1 2");
    assert_eq!(m2, WBMsgType::Disconnected);
    assert_eq!((s.addr, s.data), (0, 0));
}

#[test]
fn zero_byte_read_disconnects_without_parsing() {
    let mut s = connected_session();
    feed(&mut s, b"write 9 a");
    let m = s.wait_for_line(None);
    assert_eq!(m, WBMsgType::Disconnected);
    assert!(!s.connected);
    assert_eq!((s.addr, s.data), (9, 0xA));
}

#[test]
fn exit_mutates_nothing() {
    let mut s = connected_session();
    feed(&mut s, b"write 9 a");
    let m = feed(&mut s, b"exit");
    assert_eq!(m, WBMsgType::Exit);
    assert!(s.connected);
    assert_eq!((s.addr, s.data), (9, 0xA));
}

#[test]
fn accepting_again_replaces_the_connection() {
    let mut s = connected_session();
    feed(&mut s, b"write 9 a");
    s.on_accept();
    assert!(s.connected);
    assert_eq!((s.addr, s.data), (9, 0xA));
    let m = feed(&mut s, b"read 30");
    assert_eq!(m, WBMsgType::ReadData);
    assert_eq!(s.addr, 0x30);
}

#[test]
fn debug_command_and_dump() {
    let mut s = connected_session();
    feed(&mut s, b"write 1000 deadbeef");
    let m = feed(&mut s, b"debug");
    assert_eq!(m, WBMsgType::Debug);
    assert_eq!(s.debug_dump(), b"Address: 0x00001000\nData: 0xdeadbeef\n");
}

#[test]
fn hex_fields_are_case_insensitive_and_unprefixed() {
    let mut s = connected_session();
    assert_eq!(feed(&mut s, b"read DeAdBeEf"), WBMsgType::ReadData);
    assert_eq!(s.addr, 0xDEADBEEF);
    assert_eq!(feed(&mut s, b"read 0x12"), WBMsgType::ParsingErr);
    assert_eq!(feed(&mut s, b"read -1"), WBMsgType::ParsingErr);
    assert_eq!(feed(&mut s, b"read +"), WBMsgType::ParsingErr);
    assert_eq!(feed(&mut s, b"read +1f"), WBMsgType::ReadData);
    assert_eq!(s.addr, 0x1F);
    assert_eq!(feed(&mut s, b"read ffffffff"), WBMsgType::ReadData);
    assert_eq!(s.addr, 0xFFFFFFFF);
    assert_eq!(feed(&mut s, b"read 00000000002a"), WBMsgType::ReadData);
    assert_eq!(s.addr, 0x2A);
    assert_eq!(feed(&mut s, b"read 100000000"), WBMsgType::ParsingErr);
    assert_eq!(s.addr, 0x2A);
}

#[test]
fn tokenization_is_literal_single_space() {
    let mut s = connected_session();
    // A doubled separator yields an empty token, which fails arity.
    assert_eq!(feed(&mut s, b"write  1 2"), WBMsgType::ParsingErr);
    // Tabs do not separate tokens.
    assert_eq!(feed(&mut s, b"read\t20"), WBMsgType::ParsingErr);
    // Surrounding spaces and line endings are trimmed.
    assert_eq!(feed(&mut s, b" read 20 "), WBMsgType::ReadData);
    assert_eq!(s.addr, 0x20);
    assert_eq!(feed(&mut s, b"read 21\r\n"), WBMsgType::ReadData);
    assert_eq!(s.addr, 0x21);
}

#[test]
fn responses_are_dropped_without_a_connection() {
    let s = WBServer::new();
    assert!(s.read_response(0x1234).is_none());
    assert!(s.event_response(b"evt1").is_none());
}

#[test]
fn read_response_is_zero_padded_lowercase() {
    let s = connected_session();
    assert_eq!(s.read_response(0).unwrap(), b"00000000\n");
    assert_eq!(s.read_response(0xABC).unwrap(), b"00000abc\n");
    assert_eq!(s.read_response(0xFFFFFFFF).unwrap(), b"ffffffff\n");
}

#[test]
fn pending_registers_render_as_logic_vectors() {
    let mut s = connected_session();
    feed(&mut s, b"write 3 80000000");
    let mut addr = [0u8; 32];
    let mut data = [0u8; 32];
    s.get_addr_data(&mut addr, &mut data);
    assert_eq!(addr[30..], [3, 3][..]);
    assert!(addr[..30].iter().all(|&e| e == 2));
    assert_eq!(data[0], 3);
    assert!(data[1..].iter().all(|&e| e == 2));
}
