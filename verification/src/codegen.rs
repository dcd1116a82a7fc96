//! Generation of the code fragment that feeds a control's value into the
//! compiled program.
//!
//! With no automation the fragment is a constant-signal term over the
//! control's payload slot. With lanes it is the sum, in lane-connection
//! order, of one affine term per lane, whose payload indices follow the
//! coefficient layout exactly (the compiled language indexes from one, so
//! the value sits at index 1 and lane coefficients start at index 2). The
//! per-lane signal expressions come from the surrounding code generator and
//! are passed in as byte strings.

use crate::bytes::push_bytes;
use crate::graph::{Control, ControlV};
use vstd::prelude::*;

verus! {

/// The decimal digits of a number, most significant first.
pub open spec fn dec_digits(n: nat) -> Seq<u8>
    decreases n,
{
    if n < 10 {
        seq![(n + 48) as u8]
    } else {
        dec_digits(n / 10) + seq![(n % 10 + 48) as u8]
    }
}

/// Appends the decimal digits of `n`.
pub fn push_dec(n: usize, out: &mut Vec<u8>)
    ensures
        final(out)@ == old(out)@ + dec_digits(n as nat),
    decreases n,
{
    if n < 10 {
        out.push((n as u8) + 48);
        assert(out@ =~= old(out)@ + dec_digits(n as nat));
    } else {
        push_dec(n / 10, out);
        out.push(((n % 10) as u8) + 48);
        assert(out@ =~= old(out)@ + dec_digits(n as nat));
    }
}

pub open spec fn frag_static_open() -> Seq<u8> {
    seq![
        83u8, 116u8, 97u8, 116u8, 105u8, 99u8, 67u8, 111u8, 110u8, 116u8, 114u8, 111u8, 108u8,
        83u8, 105u8, 103u8, 110u8, 97u8, 108u8, 40u8,
    ]
}

pub open spec fn frag_static_close() -> Seq<u8> {
    seq![91u8, 49u8, 93u8, 41u8]
}

pub open spec fn frag_term_open() -> Seq<u8> {
    seq![40u8, 97u8, 50u8, 99u8, 115u8, 40u8]
}

pub open spec fn frag_term_mul() -> Seq<u8> {
    seq![41u8, 32u8, 46u8, 42u8, 32u8]
}

pub open spec fn frag_term_add() -> Seq<u8> {
    seq![93u8, 32u8, 46u8, 43u8, 32u8]
}

pub open spec fn frag_term_close() -> Seq<u8> {
    seq![93u8, 41u8]
}

pub open spec fn frag_join() -> Seq<u8> {
    seq![32u8, 46u8, 43u8, 32u8]
}

/// One lane's affine term: its signal expression scaled and offset by the
/// two payload slots starting at `base`.
pub open spec fn lane_term(param: Seq<u8>, value: Seq<u8>, base: nat) -> Seq<u8> {
    frag_term_open() + value + frag_term_mul() + param + seq![91u8] + dec_digits(base)
        + frag_term_add() + param + seq![91u8] + dec_digits(base + 1) + frag_term_close()
}

/// The first `k` lane terms, joined in lane-connection order.
pub open spec fn lane_terms(param: Seq<u8>, values: Seq<Seq<u8>>, k: int) -> Seq<u8>
    decreases k,
{
    if k <= 0 {
        Seq::empty()
    } else {
        lane_terms(param, values, k - 1) + (if k == 1 {
            Seq::<u8>::empty()
        } else {
            frag_join()
        }) + lane_term(param, values[k - 1], (2 * (k - 1) + 2) as nat)
    }
}

pub open spec fn byte_table_view(vs: Seq<Vec<u8>>) -> Seq<Seq<u8>> {
    vs.map_values(|v: Vec<u8>| v@)
}

/// The code fragment for one control: a constant-signal term when nothing
/// is automated, else the sum of its lane terms.
pub open spec fn spec_generate_code(c: ControlV, param: Seq<u8>, values: Seq<Seq<u8>>) -> Seq<u8> {
    if c.automation.len() == 0 {
        frag_static_open() + param + frag_static_close()
    } else {
        lane_terms(param, values, c.automation.len() as int)
    }
}

fn push_frag_static_open(out: &mut Vec<u8>)
    ensures
        final(out)@ == old(out)@ + frag_static_open(),
{
    let mut f: Vec<u8> = Vec::new();
    f.push(83);
    f.push(116);
    f.push(97);
    f.push(116);
    f.push(105);
    f.push(99);
    f.push(67);
    f.push(111);
    f.push(110);
    f.push(116);
    f.push(114);
    f.push(111);
    f.push(108);
    f.push(83);
    f.push(105);
    f.push(103);
    f.push(110);
    f.push(97);
    f.push(108);
    f.push(40);
    proof {
        assert(f@ =~= frag_static_open());
    }
    push_bytes(out, &f);
}

fn push_frag(out: &mut Vec<u8>, which: u8)
    requires
        which < 6,
    ensures
        which == 0 ==> final(out)@ == old(out)@ + frag_static_close(),
        which == 1 ==> final(out)@ == old(out)@ + frag_term_open(),
        which == 2 ==> final(out)@ == old(out)@ + frag_term_mul(),
        which == 3 ==> final(out)@ == old(out)@ + frag_term_add(),
        which == 4 ==> final(out)@ == old(out)@ + frag_term_close(),
        which == 5 ==> final(out)@ == old(out)@ + frag_join(),
{
    let mut f: Vec<u8> = Vec::new();
    if which == 0 {
        f.push(91);
        f.push(49);
        f.push(93);
        f.push(41);
        proof {
            assert(f@ =~= frag_static_close());
        }
    } else if which == 1 {
        f.push(40);
        f.push(97);
        f.push(50);
        f.push(99);
        f.push(115);
        f.push(40);
        proof {
            assert(f@ =~= frag_term_open());
        }
    } else if which == 2 {
        f.push(41);
        f.push(32);
        f.push(46);
        f.push(42);
        f.push(32);
        proof {
            assert(f@ =~= frag_term_mul());
        }
    } else if which == 3 {
        f.push(93);
        f.push(32);
        f.push(46);
        f.push(43);
        f.push(32);
        proof {
            assert(f@ =~= frag_term_add());
        }
    } else if which == 4 {
        f.push(93);
        f.push(41);
        proof {
            assert(f@ =~= frag_term_close());
        }
    } else {
        f.push(32);
        f.push(46);
        f.push(43);
        f.push(32);
        proof {
            assert(f@ =~= frag_join());
        }
    }
    push_bytes(out, &f);
}

/// The code fragment for `control`, given the name of its payload slot and
/// one signal expression per connected lane.
#[verifier::loop_isolation(false)]
pub fn generate_code(control: &Control, param: &Vec<u8>, lane_values: &Vec<Vec<u8>>) -> (r: Vec<
    u8,
>)
    requires
        control@.wf(),
        lane_values@.len() == control@.automation.len(),
    ensures
        r@ == spec_generate_code(control@, param@, byte_table_view(lane_values@)),
{
    let ghost table = byte_table_view(lane_values@);
    let mut out: Vec<u8> = Vec::new();
    let n = control.automation.len();
    if n == 0 {
        push_frag_static_open(&mut out);
        push_bytes(&mut out, param);
        push_frag(&mut out, 0);
        assert(out@ =~= spec_generate_code(control@, param@, table));
        return out;
    }
    let mut k: usize = 0;
    while k < n
        invariant
            k <= n,
            out@ == lane_terms(param@, table, k as int),
        decreases n - k,
    {
        if k > 0 {
            push_frag(&mut out, 5);
        }
        push_frag(&mut out, 1);
        assert(lane_values@[k as int]@ == table[k as int]);
        push_bytes(&mut out, &lane_values[k]);
        push_frag(&mut out, 2);
        push_bytes(&mut out, param);
        out.push(91);
        push_dec(2 * k + 2, &mut out);
        push_frag(&mut out, 3);
        push_bytes(&mut out, param);
        out.push(91);
        push_dec(2 * k + 3, &mut out);
        push_frag(&mut out, 4);
        k = k + 1;
        proof {
            assert(out@ =~= lane_terms(param@, table, k as int));
        }
    }
    out
}

} // verus!
