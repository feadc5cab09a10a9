//! Human-readable size formatting: a byte count is shown in the largest
//! unit from B to TB that keeps the value at least one, with two rounded
//! decimal places for every unit above bytes.

use vstd::prelude::*;

verus! {

/// The characters an ASCII byte string denotes.
pub open spec fn chars_of(s: Seq<u8>) -> Seq<char> {
    Seq::new(s.len(), |i: int| s[i] as char)
}

/// The decimal digits of `n`, most significant first.
pub open spec fn dec_bytes(n: nat) -> Seq<u8>
    decreases n,
{
    if n < 10 {
        seq![(48 + n) as u8]
    } else {
        dec_bytes(n / 10) + seq![(48 + n % 10) as u8]
    }
}

/// Two digits with a leading zero.
pub open spec fn pad2(r: nat) -> Seq<u8>
    recommends
        r < 100,
{
    seq![(48 + r / 10) as u8, (48 + r % 10) as u8]
}

/// `1024 ^ e` for the exponents in use.
pub open spec fn unit_div(e: int) -> nat {
    if e <= 1 {
        1024
    } else if e == 2 {
        1048576
    } else if e == 3 {
        1073741824
    } else {
        1099511627776
    }
}

/// The unit suffix: B, KB, MB, GB or TB.
pub open spec fn unit_name(e: int) -> Seq<u8> {
    if e <= 0 {
        seq![66u8]
    } else if e == 1 {
        seq![75u8, 66u8]
    } else if e == 2 {
        seq![77u8, 66u8]
    } else if e == 3 {
        seq![71u8, 66u8]
    } else {
        seq![84u8, 66u8]
    }
}

/// The largest exponent up to 4 whose unit stays at or under `size`.
pub open spec fn unit_exp(size: nat) -> int {
    if size < 1048576 {
        1
    } else if size < 1073741824 {
        2
    } else if size < 1099511627776 {
        3
    } else {
        4
    }
}

/// The fraction `frac / d` in hundredths, rounded to nearest with an exact
/// half going to the even hundredth, as fixed-precision formatting rounds.
pub open spec fn round_hundredths(frac: nat, d: nat) -> nat
    recommends
        d >= 1,
{
    let q = frac * 100 / d;
    let rem = (frac * 100) % d;
    if 2 * rem > d || (2 * rem == d && q % 2 == 1) {
        q + 1
    } else {
        q
    }
}

/// The formatted text: `<n> B` below 1024; otherwise `<whole>.<hundredths>
/// <unit>`, the fraction rounded to two places with ties to even, carrying
/// into the whole part when it rounds to one.
pub open spec fn spec_format_size(size: nat) -> Seq<u8> {
    if size < 1024 {
        dec_bytes(size) + seq![32u8, 66u8]
    } else {
        let e = unit_exp(size);
        let d = unit_div(e);
        let whole = size / d;
        let r = round_hundredths(size % d, d);
        if r == 100 {
            dec_bytes(whole + 1) + seq![46u8, 48u8, 48u8, 32u8] + unit_name(e)
        } else {
            dec_bytes(whole) + seq![46u8] + pad2(r) + seq![32u8] + unit_name(e)
        }
    }
}

/// Relies on `String::from_utf8`: a sequence of ASCII bytes is valid UTF-8
/// and decodes to exactly those characters.
#[verifier::external_body]
fn ascii_to_string(v: Vec<u8>) -> (r: String)
    requires
        forall|i: int| 0 <= i < v@.len() ==> v@[i] < 128,
    ensures
        r@ == chars_of(v@),
{
    String::from_utf8(v).unwrap_or_default()
}

proof fn lemma_dec_bytes_ascii(n: nat)
    ensures
        forall|i: int| 0 <= i < dec_bytes(n).len() ==> 48 <= #[trigger] dec_bytes(n)[i] <= 57,
    decreases n,
{
    if n >= 10 {
        lemma_dec_bytes_ascii(n / 10);
        assert forall|i: int| 0 <= i < dec_bytes(n).len() implies 48 <= #[trigger] dec_bytes(n)[i]
            <= 57 by {
            if i < dec_bytes(n / 10).len() {
                assert(dec_bytes(n)[i] == dec_bytes(n / 10)[i]);
            } else {
                assert(dec_bytes(n)[i] == (48 + n % 10) as u8);
            }
        }
    }
}

/// Appends the decimal digits of `n`.
fn push_dec(out: &mut Vec<u8>, n: u64)
    ensures
        final(out)@ == old(out)@ + dec_bytes(n as nat),
    decreases n,
{
    if n >= 10 {
        push_dec(out, n / 10);
        let ghost mid = out@;
        out.push(48 + (n % 10) as u8);
        proof {
            assert(out@ =~= mid + seq![(48 + n as nat % 10) as u8]);
            assert(out@ =~= old(out)@ + dec_bytes(n as nat));
        }
    } else {
        out.push(48 + (n % 10) as u8);
        proof {
            assert(dec_bytes(n as nat) == seq![(48 + n as nat) as u8]);
            assert(out@ =~= old(out)@ + dec_bytes(n as nat));
        }
    }
}

/// Whole units and rounded hundredths of the remainder.
fn scaled_parts(s: u64, d: u64) -> (r: (u64, u64))
    requires
        1024 <= d <= 1099511627776,
    ensures
        r.0 as nat == s as nat / d as nat,
        r.1 as nat == round_hundredths((s as nat % d as nat), d as nat),
        r.1 <= 100,
        r.0 as nat * 1024 <= s as nat,
{
    let whole = s / d;
    let frac = s % d;
    proof {
        assert(whole as nat * 1024 <= s as nat) by (nonlinear_arith)
            requires
                whole == s / d,
                d >= 1024,
        ;
        assert(frac < d);
        assert(frac as nat * 100 / (d as nat) < 100) by (nonlinear_arith)
            requires
                frac < d,
                d >= 1024,
        ;
    }
    let t = frac * 100;
    let q = t / d;
    let rem = t % d;
    let r = if 2 * rem > d || (2 * rem == d && q % 2 == 1) {
        q + 1
    } else {
        q
    };
    (whole, r)
}

/// Formats a byte count for people, as the download report shows it.
#[verifier::rlimit(60)]
pub fn format_size(size: usize) -> (r: String)
    ensures
        r@ == chars_of(spec_format_size(size as nat)),
{
    let s: u64 = size as u64;
    let mut out: Vec<u8> = Vec::new();
    if s < 1024 {
        push_dec(&mut out, s);
        out.push(32);
        out.push(66);
        proof {
            assert(out@ =~= dec_bytes(s as nat) + seq![32u8, 66u8]);
        }
    } else {
        let d: u64;
        let u0: u8;
        if s < 1048576 {
            d = 1024;
            u0 = 75;
        } else if s < 1073741824 {
            d = 1048576;
            u0 = 77;
        } else if s < 1099511627776 {
            d = 1073741824;
            u0 = 71;
        } else {
            d = 1099511627776;
            u0 = 84;
        }
        let ghost e = unit_exp(s as nat);
        proof {
            assert(d as nat == unit_div(e));
            assert(seq![u0, 66u8] == unit_name(e));
        }
        let parts = scaled_parts(s, d);
        let whole = parts.0;
        let r = parts.1;
        if r == 100 {
            push_dec(&mut out, whole + 1);
            out.push(46);
            out.push(48);
            out.push(48);
            out.push(32);
            out.push(u0);
            out.push(66);
            proof {
                assert(out@ =~= dec_bytes((whole + 1) as nat) + seq![46u8, 48u8, 48u8, 32u8]
                    + unit_name(e));
            }
        } else {
            push_dec(&mut out, whole);
            out.push(46);
            out.push(48 + (r / 10) as u8);
            out.push(48 + (r % 10) as u8);
            out.push(32);
            out.push(u0);
            out.push(66);
            proof {
                assert(pad2(r as nat) == seq![(48 + r as nat / 10) as u8, (48 + r as nat % 10) as u8]);
                assert(out@ =~= dec_bytes(whole as nat) + seq![46u8] + pad2(r as nat) + seq![32u8]
                    + unit_name(e));
            }
        }
    }
    proof {
        assert(out@ == spec_format_size(size as nat));
        lemma_dec_bytes_ascii(s as nat);
        if s >= 1024 {
            lemma_dec_bytes_ascii((s as nat / unit_div(unit_exp(s as nat)) + 1) as nat);
            lemma_dec_bytes_ascii((s as nat / unit_div(unit_exp(s as nat))) as nat);
        }
        assert forall|i: int| 0 <= i < out@.len() implies out@[i] < 128 by {}
    }
    ascii_to_string(out)
}

} // verus!
