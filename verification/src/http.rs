//! The bytes of one exchange: where a request's head ends, and the response
//! that carries the served content.

use vstd::prelude::*;

verus! {

/// The byte that ends a line.
pub const LF: u8 = 10;

/// The byte that may stand before the line's end.
pub const CR: u8 = 13;

/// The bytes of a text of ASCII characters.
pub open spec fn ascii(text: Seq<char>) -> Seq<u8> {
    Seq::new(text.len(), |i: int| text[i] as u8)
}

/// The digits of `n` in base ten, without leading zeros, as ASCII bytes.
pub open spec fn decimal(n: nat) -> Seq<u8>
    decreases n,
{
    if n < 10 {
        seq![(48 + n) as u8]
    } else {
        decimal(n / 10).push((48 + n % 10) as u8)
    }
}

/// The response that serves `contents`: the status line, the length of the
/// contents in bytes, an empty line, and the contents themselves.
pub open spec fn response_bytes(contents: Seq<u8>) -> Seq<u8> {
    ascii("HTTP/1.1 200 OK\r\nContent-Length: "@) + decimal(contents.len()) + ascii("\r\n\r\n"@)
        + contents
}

/// The length of the empty line that stands at `i`: one byte if the line ends
/// there, two if a carriage return and the line's end stand there, and zero
/// if the line that starts at `i` is not empty or has no end yet.
pub open spec fn empty_line_len(buf: Seq<u8>, i: int) -> int {
    if 0 <= i < buf.len() && buf[i] == LF {
        1
    } else if 0 <= i && i + 1 < buf.len() && buf[i] == CR && buf[i + 1] == LF {
        2
    } else {
        0
    }
}

/// Whether a line starts at `i` and is empty.
pub open spec fn empty_line_at(buf: Seq<u8>, i: int) -> bool {
    &&& 0 <= i < buf.len()
    &&& i == 0 || buf[i - 1] == LF
    &&& empty_line_len(buf, i) > 0
}

/// Whether the first empty line of `buf` starts at `i`.
pub open spec fn first_empty_line_at(buf: Seq<u8>, i: int) -> bool {
    &&& empty_line_at(buf, i)
    &&& forall|j: int| 0 <= j < i ==> !empty_line_at(buf, j)
}

/// Appends `bytes` to `out`.
fn push_bytes(out: &mut Vec<u8>, bytes: &[u8])
    ensures
        final(out)@ == old(out)@ + bytes@,
{
    let mut i: usize = 0;
    while i < bytes.len()
        invariant
            i <= bytes@.len(),
            out@ == old(out)@ + bytes@.take(i as int),
        decreases bytes@.len() - i,
    {
        out.push(bytes[i]);
        i += 1;
        assert(bytes@.take(i as int) =~= bytes@.take(i - 1).push(bytes@[i - 1]));
    }
    assert(bytes@.take(i as int) =~= bytes@);
}

/// Appends the digits of `n` in base ten to `out`.
fn push_decimal(out: &mut Vec<u8>, n: usize)
    ensures
        final(out)@ == old(out)@ + decimal(n as nat),
    decreases n,
{
    if n >= 10 {
        push_decimal(out, n / 10);
    }
    let digit: u8 = (n % 10) as u8;
    out.push(48 + digit);
}

/// Appends the bytes of `text`, which holds ASCII characters only.
fn push_ascii(out: &mut Vec<u8>, text: &str)
    requires
        text.is_ascii(),
    ensures
        final(out)@ == old(out)@ + ascii(text@),
{
    proof {
        vstd::string::is_ascii_spec_bytes(text);
    }
    push_bytes(out, text.as_bytes());
}

/// Builds the response that serves `contents`.
pub fn response(contents: &[u8]) -> (out: Vec<u8>)
    ensures
        out@ == response_bytes(contents@),
{
    let mut out: Vec<u8> = Vec::new();
    proof {
        reveal_strlit("HTTP/1.1 200 OK\r\nContent-Length: ");
        reveal_strlit("\r\n\r\n");
    }
    push_ascii(&mut out, "HTTP/1.1 200 OK\r\nContent-Length: ");
    push_decimal(&mut out, contents.len());
    push_ascii(&mut out, "\r\n\r\n");
    push_bytes(&mut out, contents);
    out
}

/// Finds the end of a request's head in the bytes read so far. The head ends
/// with the first empty line: a line's end, alone or after a carriage return,
/// at the start of a line. The result is the number of bytes up to and with
/// that empty line, or `None` if `buf` holds no empty line yet.
pub fn head_end(buf: &[u8]) -> (end: Option<usize>)
    ensures
        match end {
            Some(n) => exists|i: int| first_empty_line_at(buf@, i) && n == i + empty_line_len(buf@, i),
            None => forall|i: int| !empty_line_at(buf@, i),
        },
{
    let mut i: usize = 0;
    let mut at_start: bool = true;
    while i < buf.len()
        invariant
            i <= buf@.len(),
            at_start == (i == 0 || buf@[i - 1] == LF),
            forall|j: int| 0 <= j < i ==> !empty_line_at(buf@, j),
        decreases buf@.len() - i,
    {
        if at_start {
            if buf[i] == LF {
                assert(first_empty_line_at(buf@, i as int));
                return Some(i + 1);
            }
            if buf[i] == CR && i + 1 < buf.len() && buf[i + 1] == LF {
                assert(first_empty_line_at(buf@, i as int));
                return Some(i + 2);
            }
        }
        at_start = buf[i] == LF;
        i += 1;
    }
    None
}

} // verus!
