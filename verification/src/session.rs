//! The session state machine: at most one active client connection and
//! the two pending 32-bit registers, driven line by line.
//!
//! The sockets live outside the library.  The owner tells the session
//! that a connection was accepted, hands it each received line (or the
//! end-of-stream signal), reads the message kind and the pending
//! registers back, and sends the byte responses the session renders.

use vstd::prelude::*;
use vstd::slice::slice_to_vec;
use crate::codec::{encode_spec, u32_to_std_vec};
use crate::hexnum::{hex8_spec, format_hex8, parse_hex_u32};
use crate::parser::{
    WBMsgType,
    classify,
    parsed_addr,
    parsed_data,
    line_tokens,
    trim_spec,
    split_spec,
    lemma_split_len,
    kw_write,
    kw_read,
    kw_wait_event,
    kw_debug,
    kw_disconnect,
    kw_exit,
    bytes_eq,
    trim_line,
    tokenize,
    ASCII_LF,
};

verus! {

/// The response to a successful read command: the word as eight
/// lowercase hex digits, then a line feed.
pub open spec fn read_response_spec(word: u32) -> Seq<u8> {
    hex8_spec(word).push(ASCII_LF)
}

/// The bytes of the literal prefix `event ` of an event notification.
pub open spec fn event_prefix() -> Seq<u8> {
    seq![101u8, 118u8, 101u8, 110u8, 116u8, 32u8]
}

/// The notification for one event: the literal prefix `event `, the
/// event identifier, then a line feed.
pub open spec fn event_response_spec(evt: Seq<u8>) -> Seq<u8> {
    event_prefix() + evt + seq![ASCII_LF]
}

/// The bytes of the label `Address: 0x` of the operator dump.
pub open spec fn addr_label() -> Seq<u8> {
    seq![65u8, 100u8, 100u8, 114u8, 101u8, 115u8, 115u8, 58u8, 32u8, 48u8, 120u8]
}

/// The bytes of the label `Data: 0x` of the operator dump.
pub open spec fn data_label() -> Seq<u8> {
    seq![68u8, 97u8, 116u8, 97u8, 58u8, 32u8, 48u8, 120u8]
}

/// The operator-facing dump of the pending registers: one labelled
/// line per register, each value as eight lowercase hex digits.
pub open spec fn debug_dump_spec(addr: u32, data: u32) -> Seq<u8> {
    addr_label() + hex8_spec(addr) + seq![ASCII_LF] + data_label() + hex8_spec(data)
        + seq![ASCII_LF]
}

/// One server session: a listening endpoint owned by the caller, at
/// most one active client connection, and the pending address and data
/// registers that write and read commands fill.
pub struct WBServer {
    /// Whether a client connection is currently active.
    pub connected: bool,
    /// The pending address: the last address a write or read command
    /// carried.  Only meaningful right after a `WriteData` or
    /// `ReadData` message.
    pub addr: u32,
    /// The pending data: the last data word a write command carried.
    /// Only meaningful right after a `WriteData` message.
    pub data: u32,
}

impl WBServer {
    /// A fresh session: no connection, both registers zero.
    pub fn new() -> (s: WBServer)
        ensures
            !s.connected,
            s.addr == 0,
            s.data == 0,
    {
        WBServer { connected: false, addr: 0, data: 0 }
    }

    /// Records that the caller accepted a client connection.  A
    /// connection that was still active is simply replaced: one
    /// connection at a time, the previous reference is dropped.
    pub fn on_accept(&mut self)
        ensures
            final(self).connected,
            final(self).addr == old(self).addr,
            final(self).data == old(self).data,
    {
        self.connected = true;
    }

    /// Classifies one received line and applies its session effects:
    /// a write command fills both pending registers, a read command
    /// the pending address, a disconnect command closes the
    /// connection; a malformed line changes nothing.
    fn parse_line(&mut self, line: &[u8]) -> (m: WBMsgType)
        ensures
            m == classify(line@),
            final(self).addr == parsed_addr(line@, old(self).addr),
            final(self).data == parsed_data(line@, old(self).data),
            final(self).connected == (old(self).connected && m != WBMsgType::Disconnected),
    {
        let trimmed = trim_line(line);
        let args = tokenize(trimmed.as_slice());
        proof {
            assert(split_spec(trimmed@) == line_tokens(line@));
            lemma_split_len(trim_spec(line@));
        }
        let kw_w: [u8; 5] = [119u8, 114u8, 105u8, 116u8, 101u8];
        let kw_r: [u8; 4] = [114u8, 101u8, 97u8, 100u8];
        let kw_we: [u8; 10] = [119u8, 97u8, 105u8, 116u8, 95u8, 101u8, 118u8, 101u8, 110u8, 116u8];
        let kw_dbg: [u8; 5] = [100u8, 101u8, 98u8, 117u8, 103u8];
        let kw_dc: [u8; 10] = [100u8, 105u8, 115u8, 99u8, 111u8, 110u8, 110u8, 101u8, 99u8, 116u8];
        let kw_ex: [u8; 4] = [101u8, 120u8, 105u8, 116u8];
        proof {
            assert(kw_w@ =~= kw_write());
            assert(kw_r@ =~= kw_read());
            assert(kw_we@ =~= kw_wait_event());
            assert(kw_dbg@ =~= kw_debug());
            assert(kw_dc@ =~= kw_disconnect());
            assert(kw_ex@ =~= kw_exit());
        }
        if bytes_eq(args[0].as_slice(), kw_w.as_slice()) {
            if args.len() == 3 {
                match parse_hex_u32(args[1].as_slice()) {
                    Some(a) => match parse_hex_u32(args[2].as_slice()) {
                        Some(d) => {
                            self.addr = a;
                            self.data = d;
                            WBMsgType::WriteData
                        },
                        None => WBMsgType::ParsingErr,
                    },
                    None => WBMsgType::ParsingErr,
                }
            } else {
                WBMsgType::ParsingErr
            }
        } else if bytes_eq(args[0].as_slice(), kw_r.as_slice()) {
            if args.len() == 2 {
                match parse_hex_u32(args[1].as_slice()) {
                    Some(a) => {
                        self.addr = a;
                        WBMsgType::ReadData
                    },
                    None => WBMsgType::ParsingErr,
                }
            } else {
                WBMsgType::ParsingErr
            }
        } else if bytes_eq(args[0].as_slice(), kw_we.as_slice()) {
            if args.len() == 1 {
                WBMsgType::WaitEvent
            } else {
                WBMsgType::ParsingErr
            }
        } else if bytes_eq(args[0].as_slice(), kw_dbg.as_slice()) {
            if args.len() == 1 {
                WBMsgType::Debug
            } else {
                WBMsgType::ParsingErr
            }
        } else if bytes_eq(args[0].as_slice(), kw_dc.as_slice()) {
            if args.len() == 1 {
                self.connected = false;
                WBMsgType::Disconnected
            } else {
                WBMsgType::ParsingErr
            }
        } else if bytes_eq(args[0].as_slice(), kw_ex.as_slice()) {
            if args.len() == 1 {
                WBMsgType::Exit
            } else {
                WBMsgType::ParsingErr
            }
        } else {
            WBMsgType::ParsingErr
        }
    }

    /// One step of the protocol: with no active connection the session
    /// reports `Disconnected` at once; the end-of-stream signal
    /// (`None`: zero bytes were read, the peer closed) closes the
    /// connection without invoking the parser; otherwise the line is
    /// parsed and its session effects applied.
    pub fn wait_for_line(&mut self, line: Option<&[u8]>) -> (m: WBMsgType)
        ensures
            !old(self).connected ==> m == WBMsgType::Disconnected && *final(self) == *old(self),
            old(self).connected && line is None ==> m == WBMsgType::Disconnected
                && !final(self).connected
                && final(self).addr == old(self).addr
                && final(self).data == old(self).data,
            old(self).connected ==> (line matches Some(l) ==> m == classify(l@)
                && final(self).addr == parsed_addr(l@, old(self).addr)
                && final(self).data == parsed_data(l@, old(self).data)
                && final(self).connected == (m != WBMsgType::Disconnected)),
    {
        if !self.connected {
            return WBMsgType::Disconnected;
        }
        match line {
            None => {
                self.connected = false;
                WBMsgType::Disconnected
            },
            Some(l) => self.parse_line(l),
        }
    }

    /// Fills the two caller-owned logic vectors with the pending
    /// address and data.
    pub fn get_addr_data(&self, addr_vec: &mut [u8; 32], data_vec: &mut [u8; 32])
        ensures
            final(addr_vec)@ == encode_spec(self.addr),
            final(data_vec)@ == encode_spec(self.data),
    {
        u32_to_std_vec(self.addr, addr_vec);
        u32_to_std_vec(self.data, data_vec);
    }

    /// Renders the response to a read command: the word as eight
    /// lowercase hex digits and a line feed — or nothing when no
    /// connection is active (the reply is silently dropped).
    pub fn read_response(&self, word: u32) -> (r: Option<Vec<u8>>)
        ensures
            self.connected ==> (r matches Some(v) && v@ == read_response_spec(word)),
            !self.connected ==> r is None,
    {
        if self.connected {
            let mut v = format_hex8(word);
            v.push(ASCII_LF);
            Some(v)
        } else {
            None
        }
    }

    /// Renders an event notification: the literal prefix `event `, the
    /// event identifier and a line feed — or nothing when no
    /// connection is active.
    pub fn event_response(&self, evt: &[u8]) -> (r: Option<Vec<u8>>)
        ensures
            self.connected ==> (r matches Some(v) && v@ == event_response_spec(evt@)),
            !self.connected ==> r is None,
    {
        if self.connected {
            let prefix: [u8; 6] = [101u8, 118u8, 101u8, 110u8, 116u8, 32u8];
            let mut v = slice_to_vec(prefix.as_slice());
            let mut id = slice_to_vec(evt);
            v.append(&mut id);
            v.push(ASCII_LF);
            proof {
                assert(prefix@ =~= event_prefix());
                assert(v@ =~= event_response_spec(evt@));
            }
            Some(v)
        } else {
            None
        }
    }

    /// Renders the operator-facing dump of the pending registers: one
    /// labelled line per register.
    pub fn debug_dump(&self) -> (r: Vec<u8>)
        ensures
            r@ == debug_dump_spec(self.addr, self.data),
    {
        let label_a: [u8; 11] = [65u8, 100u8, 100u8, 114u8, 101u8, 115u8, 115u8, 58u8, 32u8, 48u8, 120u8];
        let label_d: [u8; 8] = [68u8, 97u8, 116u8, 97u8, 58u8, 32u8, 48u8, 120u8];
        let mut v = slice_to_vec(label_a.as_slice());
        let mut ha = format_hex8(self.addr);
        v.append(&mut ha);
        v.push(ASCII_LF);
        let mut ld = slice_to_vec(label_d.as_slice());
        v.append(&mut ld);
        let mut hd = format_hex8(self.data);
        v.append(&mut hd);
        v.push(ASCII_LF);
        proof {
            assert(label_a@ =~= addr_label());
            assert(label_d@ =~= data_label());
            assert(v@ =~= debug_dump_spec(self.addr, self.data));
        }
        v
    }
}

} // verus!
