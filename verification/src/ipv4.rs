//! Reading a dotted IPv4 address such as `192.168.2.1`.
//!
//! The text is split at every `.`; the i-th piece, read as a decimal `u8`,
//! becomes byte i of the address, and bytes with no piece stay 0. A piece
//! is an optional `+` followed by one or more digits whose value is at most
//! 255 (leading zeros allowed). More than four pieces, or a piece that is
//! not such a number, is not an address.
use crate::decimal::{all_digits, decimal_value};
use vstd::prelude::*;
use vstd::string::StringSliceAdditionalSpecFns;

verus! {

/// ASCII `.`.
pub const DOT: u8 = 46;

/// ASCII `+`.
pub const PLUS: u8 = 43;

/// The pieces of `s` between the dots, in order (one empty piece for the
/// empty text; `n` dots give `n + 1` pieces).
pub open spec fn split_dots(s: Seq<u8>) -> Seq<Seq<u8>>
    decreases s.len(),
{
    if s.len() == 0 {
        seq![Seq::<u8>::empty()]
    } else {
        let p = split_dots(s.drop_last());
        if s.last() == DOT {
            p.push(Seq::<u8>::empty())
        } else {
            p.update(p.len() - 1, p.last().push(s.last()))
        }
    }
}

/// The digits of a piece: the piece without its leading `+`, if any.
pub open spec fn octet_digits(p: Seq<u8>) -> Seq<u8> {
    if p.len() > 0 && p[0] == PLUS {
        p.drop_first()
    } else {
        p
    }
}

/// The byte a piece denotes, if it is a valid one.
pub open spec fn octet_value(p: Seq<u8>) -> Option<u8> {
    let d = octet_digits(p);
    if d.len() == 0 || !all_digits(d) || decimal_value(d) > 255 {
        None
    } else {
        Some(decimal_value(d) as u8)
    }
}

/// The address `s` denotes, as four bytes, if it denotes one.
pub open spec fn spec_parse_ip(s: Seq<u8>) -> Option<Seq<u8>> {
    let parts = split_dots(s);
    if parts.len() > 4 || exists|k: int| 0 <= k < parts.len() && octet_value(#[trigger] parts[k]) is None {
        None
    } else {
        Some(
            Seq::new(
                4,
                |k: int|
                    if k < parts.len() {
                        octet_value(parts[k])->0
                    } else {
                        0u8
                    },
            ),
        )
    }
}

proof fn lemma_decimal_value_step(d: Seq<u8>, k: int)
    requires
        0 <= k < d.len(),
    ensures
        decimal_value(d.take(k + 1)) == decimal_value(d.take(k)) * 10 + (d[k] - 48) as nat,
{
    assert(d.take(k + 1).drop_last() =~= d.take(k));
}

/// Reads one piece of an address.
fn parse_octet(p: &[u8]) -> (r: Option<u8>)
    ensures
        r == octet_value(p@),
{
    let mut k: usize = 0;
    if p.len() > 0 && p[0] == PLUS {
        k = 1;
    }
    let ds = k;
    let ghost d = octet_digits(p@);
    assert(d =~= p@.skip(ds as int));
    if k == p.len() {
        return None;
    }
    let mut value: u32 = 0;
    let mut ok = true;
    while k < p.len()
        invariant
            ds <= k <= p@.len(),
            d == p@.skip(ds as int),
            ok == all_digits(d.take(k - ds)),
            ok ==> value == if decimal_value(d.take(k - ds)) < 256 {
                decimal_value(d.take(k - ds))
            } else {
                256
            },
            value <= 256,
        decreases p@.len() - k,
    {
        let c = p[k];
        let ghost i = k - ds;
        assert(d[i] == c);
        proof {
            lemma_decimal_value_step(d, i);
        }
        if c < 48 || c > 57 {
            ok = false;
            assert(!all_digits(d.take(i + 1))) by {
                assert(d.take(i + 1)[i] == c);
            }
        } else if ok {
            value = value * 10 + (c - 48) as u32;
            if value > 256 {
                value = 256;
            }
            assert(all_digits(d.take(i + 1))) by {
                assert forall|j: int| 0 <= j < i + 1 implies super::decimal::is_digit(
                    #[trigger] d.take(i + 1)[j],
                ) by {
                    if j < i {
                        assert(d.take(i + 1)[j] == d.take(i)[j]);
                    }
                }
            }
        } else {
            assert(!all_digits(d.take(i + 1))) by {
                let w = choose|j: int| 0 <= j < i && !super::decimal::is_digit(d.take(i)[j]);
                assert(d.take(i + 1)[w] == d.take(i)[w]);
            }
        }
        k = k + 1;
    }
    assert(d.take(k - ds) =~= d);
    if !ok || value > 255 {
        None
    } else {
        Some(value as u8)
    }
}

/// Reads the address `ip` denotes; `None` when it denotes none.
pub fn try_parse_ip(ip: &str) -> (r: Option<[u8; 4]>)
    ensures
        r is None <==> spec_parse_ip(ip.spec_bytes()) is None,
        r matches Some(a) ==> a@ == spec_parse_ip(ip.spec_bytes())->0,
{
    let b = ip.as_bytes();
    let n = b.len();
    let mut result = [0u8; 4];
    let mut count: usize = 0;
    let mut ok = true;
    let mut start: usize = 0;
    let mut i: usize = 0;
    let ghost mut done: Seq<Seq<u8>> = seq![];
    proof {
        assert(b@.take(0) =~= Seq::<u8>::empty());
    }
    while i < n
        invariant
            n == b@.len(),
            start <= i <= n,
            split_dots(b@.take(i as int)) == done.push(b@.subrange(start as int, i as int)),
            done.len() == count,
            ok <==> (count <= 4 && forall|k: int|
                0 <= k < count ==> octet_value(#[trigger] done[k]) is Some),
            ok ==> forall|k: int| 0 <= k < count ==> Some(result@[k]) == octet_value(done[k]),
            ok ==> forall|k: int| count <= k < 4 ==> result@[k] == 0,
            result@.len() == 4,
            count <= i,
        decreases n - i,
    {
        let ghost prefix = b@.take(i as int);
        assert(b@.take(i + 1).drop_last() =~= prefix);
        assert(b@.take(i + 1).last() == b@[i as int]);
        if b[i] == DOT {
            let piece = &b[start..i];
            let ghost old_done = done;
            let ghost old_ok = ok;
            if ok {
                if count < 4 {
                    match parse_octet(piece) {
                        Some(v) => {
                            result[count] = v;
                        },
                        None => {
                            ok = false;
                        },
                    }
                } else {
                    ok = false;
                }
            }
            proof {
                done = done.push(piece@);
                assert(split_dots(b@.take(i + 1)) =~= done.push(Seq::<u8>::empty()));
                assert(b@.subrange(i + 1, i + 1) =~= Seq::<u8>::empty());
                assert forall|k: int| 0 <= k < old_done.len() implies done[k] == old_done[k] by {}
                if !old_ok && count <= 4 {
                    let w = choose|k: int| 0 <= k < count && octet_value(#[trigger] old_done[k]) is None;
                    assert(done[w] == old_done[w]);
                }
                if old_ok && count < 4 {
                    assert(done[count as int] == piece@);
                }
            }
            count = count + 1;
            start = i + 1;
        } else {
            proof {
                assert(b@.subrange(start as int, i + 1) =~= b@.subrange(start as int, i as int).push(
                    b@[i as int],
                ));
                assert(split_dots(b@.take(i + 1)) =~= done.push(b@.subrange(start as int, i + 1)));
            }
        }
        i = i + 1;
    }
    assert(b@.take(n as int) =~= b@);
    let last = &b[start..n];
    let ghost parts = done.push(last@);
    assert(parts == split_dots(b@));
    if ok {
        if count < 4 {
            match parse_octet(last) {
                Some(v) => {
                    result[count] = v;
                },
                None => {
                    ok = false;
                },
            }
        } else {
            ok = false;
        }
    }
    if ok {
        assert(spec_parse_ip(b@) is Some) by {
            assert forall|k: int| 0 <= k < parts.len() implies octet_value(#[trigger] parts[k]) is Some by {
                if k < count {
                    assert(parts[k] == done[k]);
                }
            }
        }
        assert(result@ =~= spec_parse_ip(b@)->0) by {
            assert forall|k: int| 0 <= k < 4 implies result@[k] == spec_parse_ip(b@)->0[k] by {
                if k < count {
                    assert(parts[k] == done[k]);
                }
            }
        }
        Some(result)
    } else {
        assert(spec_parse_ip(b@) is None) by {
            if parts.len() <= 4 {
                if forall|k: int| 0 <= k < count ==> octet_value(#[trigger] done[k]) is Some {
                    assert(parts[count as int] == last@);
                    assert(octet_value(parts[count as int]) is None);
                } else {
                    let w = choose|k: int| 0 <= k < count && octet_value(#[trigger] done[k]) is None;
                    assert(parts[w] == done[w]);
                }
            }
        }
        None
    }
}

/// Reads the address `ip` denotes; `ip` must denote one.
pub fn parse_ip(ip: &str) -> (r: [u8; 4])
    requires
        spec_parse_ip(ip.spec_bytes()) is Some,
    ensures
        r@ == spec_parse_ip(ip.spec_bytes())->0,
{
    match try_parse_ip(ip) {
        Some(a) => a,
        None => [0u8; 4],
    }
}

} // verus!
