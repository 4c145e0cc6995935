//! MJPEG-over-HTTP framing of the relay: one HTTP response whose body is a
//! `multipart/x-mixed-replace` stream with one JPEG image per part.
use crate::decimal::{decimal_digits, law_decimal_digits_positional, push_decimal};
use vstd::arithmetic::power::pow;
use crate::text::ascii;
use vstd::prelude::*;

verus! {

pub open spec fn spec_relay_response_head() -> Seq<u8> {
    ascii(
        "HTTP/1.1 200 OK\r\nContent-Type: multipart/x-mixed-replace; boundary=frame\r\nCache-Control: no-cache\r\nConnection: close\r\n\r\n"@,
    )
}

pub open spec fn spec_part_header_start() -> Seq<u8> {
    ascii("--frame\r\nContent-Type: image/jpeg\r\nContent-Length: "@)
}

pub open spec fn spec_part_header_end() -> Seq<u8> {
    ascii("\r\n\r\n"@)
}

pub open spec fn spec_part_trailer() -> Seq<u8> {
    ascii("\r\n"@)
}

/// Header of one part carrying a JPEG image of `len` bytes.
pub open spec fn spec_part_header(len: nat) -> Seq<u8> {
    spec_part_header_start() + decimal_digits(len) + spec_part_header_end()
}

/// The part header's `Content-Length` states the image length: between the
/// fixed text before it and the empty line after it stand the decimal
/// digits of `len` in positional notation, with no leading zero.
pub proof fn law_part_header_states_length(len: nat)
    ensures
        exists|d: Seq<u8>|
            {
                &&& spec_part_header(len) == ascii(
                    "--frame\r\nContent-Type: image/jpeg\r\nContent-Length: "@,
                ) + d + ascii("\r\n\r\n"@)
                &&& d.len() >= 1
                &&& len < pow(10, d.len())
                &&& (d.len() == 1 || pow(10, (d.len() - 1) as nat) <= len)
                &&& forall|i: int|
                    0 <= i < d.len() ==> #[trigger] d[i] == 48 + (len as int / pow(
                        10,
                        (d.len() - 1 - i) as nat,
                    )) % 10
            },
{
    law_decimal_digits_positional(len);
    let d = decimal_digits(len);
    assert(spec_part_header(len) == ascii(
        "--frame\r\nContent-Type: image/jpeg\r\nContent-Length: "@,
    ) + d + ascii("\r\n\r\n"@));
}

/// The HTTP response head sent to a browser before the stream.
pub fn relay_response_head() -> (r: &'static [u8])
    ensures
        r@ == spec_relay_response_head(),
{
    let s: &'static str = "HTTP/1.1 200 OK\r\nContent-Type: multipart/x-mixed-replace; boundary=frame\r\nCache-Control: no-cache\r\nConnection: close\r\n\r\n";
    proof {
        reveal_strlit(
            "HTTP/1.1 200 OK\r\nContent-Type: multipart/x-mixed-replace; boundary=frame\r\nCache-Control: no-cache\r\nConnection: close\r\n\r\n",
        );
        vstd::string::is_ascii_spec_bytes(s);
    }
    s.as_bytes()
}

/// Bytes that end a part, after the image.
pub fn part_trailer() -> (r: &'static [u8])
    ensures
        r@ == spec_part_trailer(),
{
    let s: &'static str = "\r\n";
    proof {
        reveal_strlit("\r\n");
        vstd::string::is_ascii_spec_bytes(s);
    }
    s.as_bytes()
}

fn push_all(out: &mut Vec<u8>, bytes: &[u8])
    ensures
        final(out)@ == old(out)@ + bytes@,
{
    let mut j: usize = 0;
    while j < bytes.len()
        invariant
            j <= bytes@.len(),
            out@ == old(out)@ + bytes@.take(j as int),
        decreases bytes@.len() - j,
    {
        out.push(bytes[j]);
        j = j + 1;
        assert(out@ =~= old(out)@ + bytes@.take(j as int));
    }
    assert(bytes@.take(bytes@.len() as int) =~= bytes@);
}

/// The header of a part carrying a JPEG image of `len` bytes, with its
/// `Content-Length`.
pub fn part_header(len: usize) -> (r: Vec<u8>)
    ensures
        r@ == spec_part_header(len as nat),
{
    let start: &'static str = "--frame\r\nContent-Type: image/jpeg\r\nContent-Length: ";
    let end: &'static str = "\r\n\r\n";
    proof {
        reveal_strlit("--frame\r\nContent-Type: image/jpeg\r\nContent-Length: ");
        reveal_strlit("\r\n\r\n");
        vstd::string::is_ascii_spec_bytes(start);
        vstd::string::is_ascii_spec_bytes(end);
    }
    let mut out: Vec<u8> = Vec::new();
    push_all(&mut out, start.as_bytes());
    push_decimal(len, &mut out);
    push_all(&mut out, end.as_bytes());
    assert(out@ =~= spec_part_header(len as nat));
    out
}

} // verus!
