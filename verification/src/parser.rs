//! Line parser of the wire protocol: one command per line, tokens
//! separated by single spaces, addresses and data as bare hexadecimal.
//!
//! The line is first stripped of spaces, line feeds and carriage
//! returns at both ends, then split on every single space: consecutive
//! spaces yield empty tokens, which fail validation downstream — that
//! literal behaviour is part of the protocol.  Every malformed line
//! classifies as [`WBMsgType::ParsingErr`]; parsing never fails
//! fatally.

use vstd::prelude::*;
use crate::hexnum::{is_hex_u32, hex_u32_val, hex_body, is_hex_digit};

verus! {

/// ASCII space, the token separator.
pub const ASCII_SPACE: u8 = 32;

/// ASCII line feed.
pub const ASCII_LF: u8 = 10;

/// ASCII carriage return.
pub const ASCII_CR: u8 = 13;

/// The classification of one protocol line.
#[derive(Clone, Copy, Debug, PartialEq, Eq, Structural)]
pub enum WBMsgType {
    /// A word is to be read from the wishbone bus.
    ReadData,
    /// A word is to be written to the wishbone bus.
    WriteData,
    /// The client waits for an event or interrupt.
    WaitEvent,
    /// The pending registers are to be dumped to the operator.
    Debug,
    /// The client disconnected, by command, by closing its end, or
    /// because no connection is active.
    Disconnected,
    /// The line matched no command, or its arity or hex fields were
    /// wrong.
    ParsingErr,
    /// The simulation is asked to terminate.
    Exit,
}

/// The bytes of the `write` keyword.
pub open spec fn kw_write() -> Seq<u8> {
    seq![119u8, 114u8, 105u8, 116u8, 101u8]
}

/// The bytes of the `read` keyword.
pub open spec fn kw_read() -> Seq<u8> {
    seq![114u8, 101u8, 97u8, 100u8]
}

/// The bytes of the `wait_event` keyword.
pub open spec fn kw_wait_event() -> Seq<u8> {
    seq![119u8, 97u8, 105u8, 116u8, 95u8, 101u8, 118u8, 101u8, 110u8, 116u8]
}

/// The bytes of the `debug` keyword.
pub open spec fn kw_debug() -> Seq<u8> {
    seq![100u8, 101u8, 98u8, 117u8, 103u8]
}

/// The bytes of the `disconnect` keyword.
pub open spec fn kw_disconnect() -> Seq<u8> {
    seq![100u8, 105u8, 115u8, 99u8, 111u8, 110u8, 110u8, 101u8, 99u8, 116u8]
}

/// The bytes of the `exit` keyword.
pub open spec fn kw_exit() -> Seq<u8> {
    seq![101u8, 120u8, 105u8, 116u8]
}

/// A byte stripped from both ends of a line before tokenizing.
pub open spec fn is_trim_byte(b: u8) -> bool {
    b == ASCII_SPACE || b == ASCII_LF || b == ASCII_CR
}

/// A line with spaces, line feeds and carriage returns stripped from
/// both ends.
pub open spec fn trim_spec(s: Seq<u8>) -> Seq<u8>
    decreases s.len(),
{
    if s.len() > 0 && is_trim_byte(s.first()) {
        trim_spec(s.drop_first())
    } else if s.len() > 0 && is_trim_byte(s.last()) {
        trim_spec(s.drop_last())
    } else {
        s
    }
}

/// The tokens of a byte sequence split on every single space: one more
/// token than there are spaces, empty where two spaces are adjacent,
/// a single empty token for the empty sequence.
pub open spec fn split_spec(s: Seq<u8>) -> Seq<Seq<u8>>
    decreases s.len(),
{
    if s.len() == 0 {
        seq![Seq::<u8>::empty()]
    } else if s.last() == ASCII_SPACE {
        split_spec(s.drop_last()).push(Seq::<u8>::empty())
    } else {
        let rest = split_spec(s.drop_last());
        rest.update(rest.len() - 1, rest.last().push(s.last()))
    }
}

/// Splitting always yields at least one token.
pub proof fn lemma_split_len(s: Seq<u8>)
    ensures
        split_spec(s).len() >= 1,
    decreases s.len(),
{
    if s.len() > 0 {
        lemma_split_len(s.drop_last());
    }
}

/// The tokens of one protocol line: the line is trimmed at both ends,
/// then split on single spaces.
pub open spec fn line_tokens(line: Seq<u8>) -> Seq<Seq<u8>> {
    split_spec(trim_spec(line))
}

/// The classification of one line, exactly as the protocol table
/// states it: keyword, exact arity, hex validation; everything else is
/// a parsing error.
pub open spec fn classify(line: Seq<u8>) -> WBMsgType {
    let toks = line_tokens(line);
    if toks[0] == kw_write() {
        if toks.len() == 3 && is_hex_u32(toks[1]) && is_hex_u32(toks[2]) {
            WBMsgType::WriteData
        } else {
            WBMsgType::ParsingErr
        }
    } else if toks[0] == kw_read() {
        if toks.len() == 2 && is_hex_u32(toks[1]) {
            WBMsgType::ReadData
        } else {
            WBMsgType::ParsingErr
        }
    } else if toks[0] == kw_wait_event() {
        if toks.len() == 1 {
            WBMsgType::WaitEvent
        } else {
            WBMsgType::ParsingErr
        }
    } else if toks[0] == kw_debug() {
        if toks.len() == 1 {
            WBMsgType::Debug
        } else {
            WBMsgType::ParsingErr
        }
    } else if toks[0] == kw_disconnect() {
        if toks.len() == 1 {
            WBMsgType::Disconnected
        } else {
            WBMsgType::ParsingErr
        }
    } else if toks[0] == kw_exit() {
        if toks.len() == 1 {
            WBMsgType::Exit
        } else {
            WBMsgType::ParsingErr
        }
    } else {
        WBMsgType::ParsingErr
    }
}

/// The pending address after one line: a write or read command sets it
/// to its first hex argument, every other line leaves it alone.
pub open spec fn parsed_addr(line: Seq<u8>, prev: u32) -> u32 {
    match classify(line) {
        WBMsgType::WriteData => hex_u32_val(line_tokens(line)[1]),
        WBMsgType::ReadData => hex_u32_val(line_tokens(line)[1]),
        _ => prev,
    }
}

/// The pending data after one line: a write command sets it to its
/// second hex argument, every other line leaves it alone.
pub open spec fn parsed_data(line: Seq<u8>, prev: u32) -> u32 {
    match classify(line) {
        WBMsgType::WriteData => hex_u32_val(line_tokens(line)[2]),
        _ => prev,
    }
}

/// Splitting a sequence without spaces yields exactly that one token.
proof fn lemma_split_no_space(s: Seq<u8>)
    requires
        forall|i: int| 0 <= i < s.len() ==> s[i] != ASCII_SPACE,
    ensures
        split_spec(s) =~= seq![s],
    decreases s.len(),
{
    if s.len() == 0 {
        assert(s =~= Seq::<u8>::empty());
    } else {
        assert(s.last() != ASCII_SPACE);
        assert forall|i: int| 0 <= i < s.drop_last().len() implies s.drop_last()[i]
            != ASCII_SPACE by {
            assert(s.drop_last()[i] == s[i]);
        }
        lemma_split_no_space(s.drop_last());
        let rest = split_spec(s.drop_last());
        assert(rest =~= seq![s.drop_last()]);
        assert(rest.last() == s.drop_last());
        assert(s.drop_last().push(s.last()) =~= s);
        assert(rest.update(0, s) =~= seq![s]);
    }
}

/// Splitting around one space concatenates the splits of the halves.
proof fn lemma_split_concat(x: Seq<u8>, y: Seq<u8>)
    ensures
        split_spec(x + seq![ASCII_SPACE] + y) =~= split_spec(x) + split_spec(y),
    decreases y.len(),
{
    if y.len() == 0 {
        assert(x + seq![ASCII_SPACE] + y =~= x + seq![ASCII_SPACE]);
        assert((x + seq![ASCII_SPACE]).drop_last() =~= x);
        assert(split_spec(x) + split_spec(y) =~= split_spec(x).push(Seq::<u8>::empty()));
    } else {
        let s = x + seq![ASCII_SPACE] + y;
        lemma_split_concat(x, y.drop_last());
        assert(s.drop_last() =~= x + seq![ASCII_SPACE] + y.drop_last());
        assert(s.last() == y.last());
        lemma_split_len(x);
        lemma_split_len(y.drop_last());
        let restx = split_spec(x);
        let resty = split_spec(y.drop_last());
        if y.last() == ASCII_SPACE {
            assert((restx + resty).push(Seq::<u8>::empty()) =~= restx + resty.push(
                Seq::<u8>::empty(),
            ));
        } else {
            assert((restx + resty).last() == resty.last());
            assert((restx + resty).update(restx.len() + resty.len() - 1, resty.last().push(
                y.last(),
            )) =~= restx + resty.update(resty.len() - 1, resty.last().push(y.last())));
        }
    }
}

/// Trimming leaves a sequence alone when neither end holds a trim
/// byte.
proof fn lemma_trim_id(s: Seq<u8>)
    requires
        s.len() > 0 ==> !is_trim_byte(s.first()) && !is_trim_byte(s.last()),
    ensures
        trim_spec(s) == s,
{
}

/// A well-formed hex token holds neither spaces nor other trim bytes:
/// only digits and at most a leading plus sign.
proof fn lemma_hex_token_bytes(t: Seq<u8>)
    requires
        is_hex_u32(t),
    ensures
        forall|i: int| 0 <= i < t.len() ==> t[i] != ASCII_SPACE && !is_trim_byte(t[i]),
        t.len() > 0,
{
    let body = hex_body(t);
    assert forall|i: int| 0 <= i < t.len() implies t[i] != ASCII_SPACE && !is_trim_byte(
        t[i],
    ) by {
        if t[0] == 43u8 {
            if i > 0 {
                assert(is_hex_digit(body[i - 1]));
                assert(t[i] == body[i - 1]);
            }
        } else {
            assert(is_hex_digit(body[i]));
            assert(t[i] == body[i]);
        }
    }
}

/// A write command with two well-formed hex fields classifies as
/// `WriteData` and latches the parsed address and data, whatever the
/// registers held before.
pub proof fn lemma_write_command(a: Seq<u8>, d: Seq<u8>, prev_addr: u32, prev_data: u32)
    requires
        is_hex_u32(a),
        is_hex_u32(d),
    ensures
        classify(kw_write() + seq![ASCII_SPACE] + a + seq![ASCII_SPACE] + d)
            == WBMsgType::WriteData,
        parsed_addr(kw_write() + seq![ASCII_SPACE] + a + seq![ASCII_SPACE] + d, prev_addr)
            == hex_u32_val(a),
        parsed_data(kw_write() + seq![ASCII_SPACE] + a + seq![ASCII_SPACE] + d, prev_data)
            == hex_u32_val(d),
{
    let line = kw_write() + seq![ASCII_SPACE] + a + seq![ASCII_SPACE] + d;
    lemma_hex_token_bytes(a);
    lemma_hex_token_bytes(d);
    assert(line.first() == 119u8);
    assert(line.last() == d.last());
    lemma_trim_id(line);
    let tail = a + seq![ASCII_SPACE] + d;
    assert(line =~= kw_write() + seq![ASCII_SPACE] + tail);
    lemma_split_concat(kw_write(), tail);
    lemma_split_concat(a, d);
    assert(forall|i: int| 0 <= i < kw_write().len() ==> kw_write()[i] != ASCII_SPACE);
    lemma_split_no_space(kw_write());
    lemma_split_no_space(a);
    lemma_split_no_space(d);
    assert(line_tokens(line) =~= seq![kw_write(), a, d]);
}

/// A read command with one well-formed hex field classifies as
/// `ReadData` and latches the parsed address, leaving the pending data
/// alone.
pub proof fn lemma_read_command(a: Seq<u8>, prev_addr: u32, prev_data: u32)
    requires
        is_hex_u32(a),
    ensures
        classify(kw_read() + seq![ASCII_SPACE] + a) == WBMsgType::ReadData,
        parsed_addr(kw_read() + seq![ASCII_SPACE] + a, prev_addr) == hex_u32_val(a),
        parsed_data(kw_read() + seq![ASCII_SPACE] + a, prev_data) == prev_data,
{
    let line = kw_read() + seq![ASCII_SPACE] + a;
    lemma_hex_token_bytes(a);
    assert(line.first() == 114u8);
    assert(line.last() == a.last());
    lemma_trim_id(line);
    lemma_split_concat(kw_read(), a);
    assert(forall|i: int| 0 <= i < kw_read().len() ==> kw_read()[i] != ASCII_SPACE);
    lemma_split_no_space(kw_read());
    lemma_split_no_space(a);
    assert(line_tokens(line) =~= seq![kw_read(), a]);
    assert(kw_read()[0] != kw_write()[0]);
}

/// Only write and read commands ever touch the pending registers, and
/// a write alone touches the pending data: every other line — a
/// parsing error above all — leaves them exactly as they were.
pub proof fn lemma_no_mutation(line: Seq<u8>, prev_addr: u32, prev_data: u32)
    ensures
        classify(line) != WBMsgType::WriteData && classify(line) != WBMsgType::ReadData
            ==> parsed_addr(line, prev_addr) == prev_addr,
        classify(line) != WBMsgType::WriteData ==> parsed_data(line, prev_data) == prev_data,
{
}

/// Whether two byte slices hold the same bytes.
pub fn bytes_eq(a: &[u8], b: &[u8]) -> (r: bool)
    ensures
        r == (a@ == b@),
{
    if a.len() != b.len() {
        return false;
    }
    let mut i: usize = 0;
    while i < a.len()
        invariant
            i <= a@.len(),
            a@.len() == b@.len(),
            forall|j: int| 0 <= j < i ==> a@[j] == b@[j],
        decreases a@.len() - i,
    {
        if a[i] != b[i] {
            return false;
        }
        i = i + 1;
    }
    proof {
        assert(a@ =~= b@);
    }
    true
}

/// Strips spaces, line feeds and carriage returns from both ends of a
/// line.
pub fn trim_line(s: &[u8]) -> (r: Vec<u8>)
    ensures
        r@ == trim_spec(s@),
{
    let mut lo: usize = 0;
    let mut hi: usize = s.len();
    proof {
        assert(s@.subrange(0, s@.len() as int) =~= s@);
    }
    while lo < hi && (s[lo] == ASCII_SPACE || s[lo] == ASCII_LF || s[lo] == ASCII_CR)
        invariant
            0 <= lo <= hi <= s@.len(),
            trim_spec(s@) == trim_spec(s@.subrange(lo as int, hi as int)),
        decreases hi - lo,
    {
        proof {
            let part = s@.subrange(lo as int, hi as int);
            assert(part.first() == s@[lo as int]);
            assert(part.drop_first() =~= s@.subrange(lo + 1, hi as int));
        }
        lo = lo + 1;
    }
    while lo < hi && (s[hi - 1] == ASCII_SPACE || s[hi - 1] == ASCII_LF || s[hi - 1] == ASCII_CR)
        invariant
            0 <= lo <= hi <= s@.len(),
            trim_spec(s@) == trim_spec(s@.subrange(lo as int, hi as int)),
            lo < hi ==> !is_trim_byte(s@[lo as int]),
        decreases hi - lo,
    {
        proof {
            let part = s@.subrange(lo as int, hi as int);
            assert(part.first() == s@[lo as int]);
            assert(part.last() == s@[hi - 1]);
            assert(part.drop_last() =~= s@.subrange(lo as int, hi - 1));
        }
        hi = hi - 1;
    }
    proof {
        let part = s@.subrange(lo as int, hi as int);
        if part.len() > 0 {
            assert(part.first() == s@[lo as int]);
            assert(part.last() == s@[hi - 1]);
        }
        assert(trim_spec(part) == part);
    }
    let mut r: Vec<u8> = Vec::new();
    let mut j: usize = lo;
    while j < hi
        invariant
            lo <= j <= hi <= s@.len(),
            r@ == s@.subrange(lo as int, j as int),
        decreases hi - j,
    {
        r.push(s[j]);
        proof {
            assert(s@.subrange(lo as int, j + 1) =~= s@.subrange(lo as int, j as int).push(
                s@[j as int],
            ));
        }
        j = j + 1;
    }
    r
}

/// Splits a byte sequence on every single space.
pub fn tokenize(s: &[u8]) -> (r: Vec<Vec<u8>>)
    ensures
        r@.len() == split_spec(s@).len(),
        forall|i: int| 0 <= i < r@.len() ==> r@[i]@ == split_spec(s@)[i],
{
    let mut toks: Vec<Vec<u8>> = Vec::new();
    let mut cur: Vec<u8> = Vec::new();
    let mut i: usize = 0;
    proof {
        assert(s@.take(0) =~= Seq::<u8>::empty());
    }
    while i < s.len()
        invariant
            i <= s@.len(),
            split_spec(s@.take(i as int)).len() == toks@.len() + 1,
            forall|j: int|
                0 <= j < toks@.len() ==> toks@[j]@ == split_spec(s@.take(i as int))[j],
            cur@ == split_spec(s@.take(i as int)).last(),
        decreases s@.len() - i,
    {
        proof {
            assert(s@.take(i + 1).drop_last() =~= s@.take(i as int));
            assert(s@.take(i + 1).last() == s@[i as int]);
            lemma_split_len(s@.take(i as int));
        }
        if s[i] == ASCII_SPACE {
            toks.push(cur);
            cur = Vec::new();
        } else {
            cur.push(s[i]);
        }
        i = i + 1;
    }
    proof {
        assert(s@.take(s@.len() as int) =~= s@);
        lemma_split_len(s@);
    }
    toks.push(cur);
    toks
}

} // verus!
