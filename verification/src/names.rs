//! Deterministic names for synthetic exports.
//!
//! The export normalizer names each export it adds from a counter; the name
//! is a fixed prefix followed by the counter's decimal digits.

use vstd::prelude::*;

verus! {

/// The character for one decimal digit.
pub open spec fn dec_digit(d: nat) -> char {
    if d == 0 {
        '0'
    } else if d == 1 {
        '1'
    } else if d == 2 {
        '2'
    } else if d == 3 {
        '3'
    } else if d == 4 {
        '4'
    } else if d == 5 {
        '5'
    } else if d == 6 {
        '6'
    } else if d == 7 {
        '7'
    } else if d == 8 {
        '8'
    } else {
        '9'
    }
}

/// The decimal digits of `n`, most significant first, with no leading zero
/// except for `n == 0` itself.
pub open spec fn dec_rep(n: nat) -> Seq<char>
    decreases n,
{
    if n < 10 {
        seq![dec_digit(n)]
    } else {
        dec_rep(n / 10) + seq![dec_digit(n % 10)]
    }
}

/// The prefix shared by every synthetic export name.
pub open spec fn synth_prefix() -> Seq<char> {
    "$probed_global:"@
}

/// The name given to the synthetic export numbered `n`.
pub open spec fn synth_name(n: nat) -> Seq<char> {
    synth_prefix() + dec_rep(n)
}

/// A decimal rendering is one character for a small number, longer
/// otherwise.
proof fn lemma_dec_rep_len(n: nat)
    ensures
        dec_rep(n).len() >= 1,
        n >= 10 ==> dec_rep(n).len() >= 2,
    decreases n,
{
    if n >= 10 {
        lemma_dec_rep_len(n / 10);
    }
}

/// Distinct counters render to distinct digit strings.
pub proof fn lemma_dec_rep_injective(a: nat, b: nat)
    requires
        dec_rep(a) == dec_rep(b),
    ensures
        a == b,
    decreases a,
{
    lemma_dec_rep_len(a);
    lemma_dec_rep_len(b);
    if a < 10 && b < 10 {
        assert(dec_rep(a)[0] == dec_digit(a));
        assert(dec_rep(b)[0] == dec_digit(b));
    } else if a < 10 || b < 10 {
        assert(dec_rep(a).len() == dec_rep(b).len());
        assert(false);
    } else {
        let pa = dec_rep(a / 10);
        let pb = dec_rep(b / 10);
        assert(pa.len() == pb.len());
        assert(pa =~= pb) by {
            assert(forall|i: int| 0 <= i < pa.len() ==> pa[i] == dec_rep(a)[i] && pb[i] == dec_rep(
                b,
            )[i]);
        }
        assert(dec_rep(a).last() == dec_digit(a % 10));
        assert(dec_rep(b).last() == dec_digit(b % 10));
        assert(a % 10 == b % 10);
        assert(a as int / 10 < a) by (nonlinear_arith)
            requires
                a >= 10,
        ;
        lemma_dec_rep_injective(a / 10, b / 10);
    }
}

/// Distinct counters give distinct synthetic names.
pub proof fn lemma_synth_name_injective(a: nat, b: nat)
    requires
        synth_name(a) == synth_name(b),
    ensures
        a == b,
{
    let p = synth_prefix().len() as int;
    assert(dec_rep(a) =~= synth_name(a).skip(p));
    assert(dec_rep(b) =~= synth_name(b).skip(p));
    lemma_dec_rep_injective(a, b);
}

/// Appends the decimal digits of `n` to `s`.
fn push_dec(s: &mut String, n: u64)
    ensures
        final(s)@ == old(s)@ + dec_rep(n as nat),
    decreases n,
{
    if n >= 10 {
        assert(n as nat / 10 < n as nat) by (nonlinear_arith)
            requires
                n >= 10,
        ;
        push_dec(s, n / 10);
    }
    let ghost mid = s@;
    let d = n % 10;
    if d == 0 {
        s.append("0");
    } else if d == 1 {
        s.append("1");
    } else if d == 2 {
        s.append("2");
    } else if d == 3 {
        s.append("3");
    } else if d == 4 {
        s.append("4");
    } else if d == 5 {
        s.append("5");
    } else if d == 6 {
        s.append("6");
    } else if d == 7 {
        s.append("7");
    } else if d == 8 {
        s.append("8");
    } else {
        s.append("9");
    }
    proof {
        reveal_strlit("0");
        reveal_strlit("1");
        reveal_strlit("2");
        reveal_strlit("3");
        reveal_strlit("4");
        reveal_strlit("5");
        reveal_strlit("6");
        reveal_strlit("7");
        reveal_strlit("8");
        reveal_strlit("9");
        assert(s@ =~= mid + seq![dec_digit((n % 10) as nat)]);
        if n < 10 {
            assert(s@ =~= old(s)@ + dec_rep(n as nat));
        } else {
            assert(dec_rep(n as nat) == dec_rep(n as nat / 10) + seq![
                dec_digit((n % 10) as nat),
            ]);
            assert(s@ =~= old(s)@ + dec_rep(n as nat));
        }
    }
}

/// Builds the name of the synthetic export numbered `n`.
pub fn make_synth_name(n: u64) -> (r: String)
    ensures
        r@ == synth_name(n as nat),
{
    let mut s = String::from_str("$probed_global:");
    push_dec(&mut s, n);
    s
}

} // verus!
