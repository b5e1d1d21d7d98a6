//! The text that publishes the latest detections: a body that lists the
//! top-left corner of each box, and a response that carries the body behind
//! a header with its length.

use vstd::prelude::*;
use vstd::string::{is_ascii, is_ascii_spec_bytes};
use crate::geometry::BoundingBox;

verus! {

/// The character of a decimal digit.
pub open spec fn digit(d: int) -> u8
    recommends
        0 <= d < 10,
{
    ('0' as u8 + d) as u8
}

/// The bytes of a text of ASCII characters.
pub open spec fn ascii(text: Seq<char>) -> Seq<u8> {
    Seq::new(text.len(), |i: int| text[i] as u8)
}

/// The decimal digits of a natural number, most significant first.
pub open spec fn decimal_digits(n: nat) -> Seq<u8>
    decreases n,
{
    if n < 10 {
        seq![digit(n as int)]
    } else {
        decimal_digits(n / 10).push(digit((n % 10) as int))
    }
}

/// The decimal text of an integer, with a minus sign when it is negative.
pub open spec fn decimal(i: int) -> Seq<u8> {
    if i < 0 {
        seq!['-' as u8] + decimal_digits((-i) as nat)
    } else {
        decimal_digits(i as nat)
    }
}

/// The number that a sequence of decimal digits denotes.
pub open spec fn digits_value(s: Seq<u8>) -> int
    decreases s.len(),
{
    if s.len() == 0 {
        0
    } else {
        digits_value(s.drop_last()) * 10 + (s.last() - '0' as u8)
    }
}

/// The text of one box: its top-left corner as `[x, y]`.
pub open spec fn pair_text(b: BoundingBox) -> Seq<u8> {
    seq!['[' as u8] + decimal(b.x as int) + seq![',' as u8, ' ' as u8] + decimal(b.y as int)
        + seq![']' as u8]
}

/// The texts of the boxes in order, separated by a comma and a space.
pub open spec fn pairs_text(boxes: Seq<BoundingBox>) -> Seq<u8>
    decreases boxes.len(),
{
    if boxes.len() == 0 {
        Seq::empty()
    } else if boxes.len() == 1 {
        pair_text(boxes[0])
    } else {
        pairs_text(boxes.drop_last()) + seq![',' as u8, ' ' as u8] + pair_text(boxes.last())
    }
}

/// The body of the response: the array of the pairs, `[]` when there is no
/// box.
pub open spec fn body_text(boxes: Seq<BoundingBox>) -> Seq<u8> {
    seq!['[' as u8] + pairs_text(boxes) + seq![']' as u8]
}

/// The status line of the response, with its line end.
pub open spec fn status_line() -> Seq<u8> {
    ascii("HTTP/1.1 200 OK\r\n"@)
}

/// The name of the length header.
pub open spec fn length_label() -> Seq<u8> {
    ascii("Content-Length: "@)
}

/// The end of the header block: the end of the last header line and an
/// empty line.
pub open spec fn head_end() -> Seq<u8> {
    ascii("\r\n\r\n"@)
}

/// The head of a response whose body has `length` bytes.
pub open spec fn head_text(length: nat) -> Seq<u8> {
    status_line() + length_label() + decimal_digits(length) + head_end()
}

/// The whole response for the given detections: the head, which states the
/// number of bytes of the body, and the body.
pub open spec fn response_text(boxes: Seq<BoundingBox>) -> Seq<u8> {
    head_text(body_text(boxes).len()) + body_text(boxes)
}

/// Appends the decimal digits of `n`.
fn push_digits(out: &mut Vec<u8>, n: u64)
    ensures
        final(out)@ == old(out)@ + decimal_digits(n as nat),
    decreases n,
{
    if n >= 10 {
        push_digits(out, n / 10);
    }
    let d: u8 = (n % 10) as u8;
    out.push('0' as u8 + d);
    assert(out@ =~= old(out)@ + decimal_digits(n as nat));
}

/// Appends the decimal text of `i`.
fn push_decimal(out: &mut Vec<u8>, i: i32)
    ensures
        final(out)@ == old(out)@ + decimal(i as int),
{
    if i < 0 {
        out.push('-' as u8);
        let magnitude: u64 = (-(i as i64)) as u64;
        push_digits(out, magnitude);
        assert(out@ =~= old(out)@ + decimal(i as int));
    } else {
        push_digits(out, i as u64);
    }
}

/// Appends the text of one box.
fn push_pair(out: &mut Vec<u8>, b: &BoundingBox)
    ensures
        final(out)@ == old(out)@ + pair_text(*b),
{
    out.push('[' as u8);
    push_decimal(out, b.x);
    out.push(',' as u8);
    out.push(' ' as u8);
    push_decimal(out, b.y);
    out.push(']' as u8);
    assert(out@ =~= old(out)@ + pair_text(*b));
}

/// Renders the body of the response: `[[x, y], [x, y]]` with one pair per
/// box, in the order of the boxes, and `[]` when there is none.
pub fn render_body(boxes: &Vec<BoundingBox>) -> (body: Vec<u8>)
    ensures
        body@ == body_text(boxes@),
{
    let n = boxes.len();
    let mut out: Vec<u8> = Vec::new();
    out.push('[' as u8);
    let mut i: usize = 0;
    while i < n
        invariant
            i <= n,
            n == boxes@.len(),
            out@ == seq!['[' as u8] + pairs_text(boxes@.take(i as int)),
        decreases n - i,
    {
        proof {
            let next = boxes@.take(i + 1);
            assert(next.drop_last() =~= boxes@.take(i as int));
            assert(next.last() == boxes@[i as int]);
            assert(next[0] == boxes@[0]);
        }
        if i > 0 {
            out.push(',' as u8);
            out.push(' ' as u8);
        }
        push_pair(&mut out, &boxes[i]);
        assert(out@ =~= seq!['[' as u8] + pairs_text(boxes@.take(i + 1)));
        i += 1;
    }
    assert(boxes@.take(n as int) =~= boxes@);
    out.push(']' as u8);
    out
}

/// Appends the bytes of an ASCII text.
fn push_text(out: &mut Vec<u8>, text: &str)
    requires
        is_ascii(text),
    ensures
        final(out)@ == old(out)@ + ascii(text@),
{
    broadcast use is_ascii_spec_bytes;

    let bytes = text.as_bytes();
    let n = bytes.len();
    let mut i: usize = 0;
    while i < n
        invariant
            i <= n,
            n == bytes@.len(),
            bytes@ == ascii(text@),
            out@ == old(out)@ + bytes@.take(i as int),
        decreases n - i,
    {
        out.push(bytes[i]);
        assert(bytes@.take(i + 1) =~= bytes@.take(i as int).push(bytes@[i as int]));
        assert(out@ =~= old(out)@ + bytes@.take(i + 1));
        i += 1;
    }
    assert(bytes@.take(n as int) =~= bytes@);
}

/// Renders the whole response: a status line, the length header with the
/// number of bytes of the body, an empty line, and the body.
pub fn render_response(boxes: &Vec<BoundingBox>) -> (response: Vec<u8>)
    ensures
        response@ == response_text(boxes@),
{
    let mut body = render_body(boxes);
    let length = body.len();
    let mut out: Vec<u8> = Vec::new();
    proof {
        reveal_strlit("HTTP/1.1 200 OK\r\n");
        reveal_strlit("Content-Length: ");
        reveal_strlit("\r\n\r\n");
    }
    push_text(&mut out, "HTTP/1.1 200 OK\r\n");
    push_text(&mut out, "Content-Length: ");
    push_digits(&mut out, length as u64);
    push_text(&mut out, "\r\n\r\n");
    out.append(&mut body);
    assert(out@ =~= response_text(boxes@));
    out
}

/// Reading the decimal digits of a number gives the number back.
pub proof fn lemma_digits_round_trip(n: nat)
    ensures
        digits_value(decimal_digits(n)) == n,
    decreases n,
{
    if n < 10 {
        let s = decimal_digits(n);
        assert(s.drop_last().len() == 0);
        assert(digits_value(s.drop_last()) == 0);
        assert(s.last() == digit(n as int));
        assert(digits_value(s) == digits_value(s.drop_last()) * 10 + (s.last() - '0' as u8));
    } else {
        lemma_digits_round_trip(n / 10);
        let s = decimal_digits(n);
        assert(s.drop_last() =~= decimal_digits(n / 10));
        assert(s.last() == digit((n % 10) as int));
        assert(digits_value(s) == digits_value(s.drop_last()) * 10 + (s.last() - '0' as u8));
    }
}

/// The length header of a response states the number of bytes of its body,
/// and the body follows the head unchanged.
pub proof fn lemma_response_states_body_length(boxes: Seq<BoundingBox>)
    ensures
        response_text(boxes) == status_line() + length_label() + decimal_digits(
            body_text(boxes).len(),
        ) + head_end() + body_text(boxes),
        digits_value(decimal_digits(body_text(boxes).len())) == body_text(boxes).len(),
{
    lemma_digits_round_trip(body_text(boxes).len());
}

} // verus!
