//! The port-spec parser: a comma-separated list of tokens, each a single
//! port number or an inclusive `start-end` range, expanded in token order.
//! Malformed tokens (not a number, a reversed range, out of range) contribute
//! nothing rather than failing the whole scan.

use vstd::prelude::*;
use vstd::string::StringSliceAdditionalSpecFns;

use crate::text::{parse_u16_bytes, parse_u16_spec, split_bytes, split_on, trim_bytes, trim_spec};

verus! {

/// The ports `a..=b` in ascending order; empty when the range is reversed.
pub open spec fn range_seq(a: u16, b: u16) -> Seq<u16> {
    if a <= b {
        Seq::new((b - a + 1) as nat, |k: int| (a + k) as u16)
    } else {
        Seq::empty()
    }
}

/// The ports one comma-delimited token contributes: the token is trimmed and
/// read as either a single port or a `start-end` range of exactly two ports;
/// anything else contributes nothing.
pub open spec fn expand_token(t: Seq<u8>) -> Seq<u16> {
    let w = trim_spec(t);
    let ps = split_on(w, 45);
    if ps.len() == 1 {
        match parse_u16_spec(w) {
            Some(p) => seq![p],
            None => Seq::empty(),
        }
    } else if ps.len() == 2 {
        match (parse_u16_spec(ps[0]), parse_u16_spec(ps[1])) {
            (Some(a), Some(b)) => range_seq(a, b),
            _ => Seq::empty(),
        }
    } else {
        Seq::empty()
    }
}

/// The concatenation, in token order, of each token's expansion.
pub open spec fn expand_tokens(ts: Seq<Seq<u8>>) -> Seq<u16>
    decreases ts.len(),
{
    if ts.len() == 0 {
        Seq::empty()
    } else {
        expand_token(ts[0]) + expand_tokens(ts.drop_first())
    }
}

/// What parsing a whole port specification yields: the input is split on
/// commas and every token's expansion is appended in order.
pub open spec fn parse_ports_spec(s: Seq<u8>) -> Seq<u16> {
    expand_tokens(split_on(s, 44))
}

/// Range expansion is strictly ascending: within the ports one `start-end`
/// token contributes, each port is one more than the port before it.
pub proof fn lemma_range_ascending(a: u16, b: u16)
    ensures
        forall|i: int, j: int|
            0 <= i < j < range_seq(a, b).len() ==> #[trigger] range_seq(a, b)[i]
                < #[trigger] range_seq(a, b)[j],
        a <= b ==> range_seq(a, b).len() == b - a + 1,
        a > b ==> range_seq(a, b).len() == 0,
{
}

/// Appends the ports `a..=b`, in ascending order, to `out`;
/// a reversed range appends nothing.
fn push_range(out: &mut Vec<u16>, a: u16, b: u16)
    ensures
        final(out)@ == old(out)@ + range_seq(a, b),
{
    let ghost base = out@;
    if a > b {
        proof {
            assert(base + range_seq(a, b) =~= base);
        }
        return ;
    }
    let mut p: u32 = a as u32;
    while p <= b as u32
        invariant
            a <= b,
            a as u32 <= p <= b as u32 + 1,
            out@ == base + range_seq(a, b).take(p - a),
        decreases b as u32 + 1 - p,
    {
        out.push(p as u16);
        proof {
            assert(range_seq(a, b).take(p + 1 - a) =~= range_seq(a, b).take(p - a).push(p as u16));
            assert(base + range_seq(a, b).take(p - a).push(p as u16) =~= (base + range_seq(a,
            b).take(p - a)).push(p as u16));
        }
        p = p + 1;
    }
    proof {
        assert(range_seq(a, b).take(p - a) =~= range_seq(a, b));
    }
}

/// Expands one comma-delimited token and appends its ports to `out`.
fn expand_into(t: &[u8], out: &mut Vec<u16>)
    ensures
        final(out)@ == old(out)@ + expand_token(t@),
{
    let ghost base = out@;
    let w = trim_bytes(t);
    let ps = split_bytes(w, 45);
    if ps.len() == 1 {
        match parse_u16_bytes(w) {
            Some(p) => {
                out.push(p);
                proof {
                    assert(base + seq![p] =~= base.push(p));
                }
            },
            None => {
                proof {
                    assert(base + Seq::<u16>::empty() =~= base);
                }
            },
        }
    } else if ps.len() == 2 {
        proof {
            assert(ps.deep_view()[0] =~= ps@[0]@);
            assert(ps.deep_view()[1] =~= ps@[1]@);
        }
        match (parse_u16_bytes(ps[0].as_slice()), parse_u16_bytes(ps[1].as_slice())) {
            (Some(a), Some(b)) => {
                push_range(out, a, b);
            },
            _ => {
                proof {
                    assert(base + Seq::<u16>::empty() =~= base);
                }
            },
        }
    } else {
        proof {
            assert(base + Seq::<u16>::empty() =~= base);
        }
    }
}

proof fn lemma_expand_tokens_push(ts: Seq<Seq<u8>>, x: Seq<u8>)
    ensures
        expand_tokens(ts.push(x)) == expand_tokens(ts) + expand_token(x),
    decreases ts.len(),
{
    assert(ts.push(x).len() != 0);
    assert(expand_tokens(ts.push(x)) == expand_token(ts.push(x)[0]) + expand_tokens(
        ts.push(x).drop_first(),
    ));
    if ts.len() == 0 {
        assert(ts.push(x)[0] == x);
        assert(ts.push(x).drop_first() =~= Seq::<Seq<u8>>::empty());
        assert(expand_tokens(Seq::<Seq<u8>>::empty()) == Seq::<u16>::empty());
        assert(expand_token(x) + Seq::<u16>::empty() =~= expand_token(x));
        assert(Seq::<u16>::empty() + expand_token(x) =~= expand_token(x));
    } else {
        assert(ts.push(x).drop_first() =~= ts.drop_first().push(x));
        lemma_expand_tokens_push(ts.drop_first(), x);
        assert(ts.push(x)[0] == ts[0]);
        assert(expand_tokens(ts) == expand_token(ts[0]) + expand_tokens(ts.drop_first()));
        assert(expand_token(ts[0]) + (expand_tokens(ts.drop_first()) + expand_token(x))
            =~= (expand_token(ts[0]) + expand_tokens(ts.drop_first())) + expand_token(x));
    }
}

/// Parses a port specification held in raw bytes.
pub(crate) fn parse_port_bytes(s: &[u8]) -> (r: Vec<u16>)
    ensures
        r@ == parse_ports_spec(s@),
{
    let parts = split_bytes(s, 44);
    let mut out: Vec<u16> = Vec::new();
    let mut i: usize = 0;
    proof {
        assert(parts.deep_view().take(0) =~= Seq::<Seq<u8>>::empty());
    }
    while i < parts.len()
        invariant
            0 <= i <= parts.len(),
            out@ == expand_tokens(parts.deep_view().take(i as int)),
        decreases parts.len() - i,
    {
        proof {
            assert(parts.deep_view()[i as int] =~= parts@[i as int]@);
        }
        expand_into(parts[i].as_slice(), &mut out);
        proof {
            lemma_expand_tokens_push(parts.deep_view().take(i as int), parts.deep_view()[i as int]);
            assert(parts.deep_view().take(i + 1) =~= parts.deep_view().take(i as int).push(
                parts.deep_view()[i as int],
            ));
        }
        i = i + 1;
    }
    proof {
        assert(parts.deep_view().take(i as int) =~= parts.deep_view());
    }
    out
}

/// Parses a textual port specification such as `"80,443,1000-1002"` into the
/// ordered sequence of ports it denotes.
pub fn parse_port_list(s: &str) -> (r: Vec<u16>)
    ensures
        r@ == parse_ports_spec(s.spec_bytes()),
{
    parse_port_bytes(s.as_bytes())
}

} // verus!
