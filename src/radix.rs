//! Mixed-radix numbering: a list of digits below `g`, least significant
//! first, and the number it writes in base `g`.
use vstd::arithmetic::div_mod::{
    lemma_div_denominator, lemma_div_multiples_vanish_fancy, lemma_fundamental_div_mod, lemma_mod_multiples_vanish,
    lemma_small_mod,
};
use vstd::arithmetic::power::{lemma_pow_positive, pow};
use vstd::prelude::*;

use crate::puzzle::digit;

verus! {

/// The number that `d` writes in base `g`, least significant digit first.
pub open spec fn radix_value(d: Seq<int>, g: int) -> int
    decreases d.len(),
{
    if d.len() == 0 {
        0
    } else {
        d[0] + g * radix_value(d.drop_first(), g)
    }
}

/// Every digit is below `g`.
pub open spec fn digits_below(d: Seq<int>, g: int) -> bool {
    forall|j: int| 0 <= j < d.len() ==> 0 <= #[trigger] d[j] < g
}

/// The digits of `i` in base `g`, `n` of them.
pub open spec fn digits_of(i: int, g: int, n: nat) -> Seq<int> {
    Seq::new(n, |j: int| digit(i, g, j as nat))
}

/// `n` digits below `g` write a number below `g` to the power `n`.
pub proof fn lemma_radix_bound(d: Seq<int>, g: int)
    requires
        g > 0,
        digits_below(d, g),
    ensures
        0 <= radix_value(d, g) < pow(g, d.len()),
    decreases d.len(),
{
    reveal(pow);
    if d.len() > 0 {
        let rest = d.drop_first();
        assert(digits_below(rest, g)) by {
            assert forall|j: int| 0 <= j < rest.len() implies 0 <= #[trigger] rest[j] < g by {
                assert(rest[j] == d[j + 1]);
            }
        }
        lemma_radix_bound(rest, g);
        let v = radix_value(rest, g);
        let p = pow(g, rest.len());
        assert(pow(g, d.len()) == g * p);
        assert(0 <= d[0] < g);
        assert(0 <= d[0] + g * v < g * p) by (nonlinear_arith)
            requires
                0 <= d[0] < g,
                0 <= v < p,
                g > 0,
        ;
    }
}

/// Digit `j` of the number that `d` writes is `d[j]`.
pub proof fn lemma_radix_digit(d: Seq<int>, g: int, j: nat)
    requires
        g > 0,
        digits_below(d, g),
        j < d.len(),
    ensures
        digit(radix_value(d, g), g, j) == d[j as int],
    decreases j,
{
    reveal(pow);
    let rest = d.drop_first();
    assert(digits_below(rest, g)) by {
        assert forall|k: int| 0 <= k < rest.len() implies 0 <= #[trigger] rest[k] < g by {
            assert(rest[k] == d[k + 1]);
        }
    }
    lemma_radix_bound(rest, g);
    let v = radix_value(d, g);
    let w = radix_value(rest, g);
    assert(v == g * w + d[0]);
    assert(0 <= d[0] < g);
    if j == 0 {
        assert(pow(g, 0) == 1);
        assert(v / 1 == v);
        lemma_mod_multiples_vanish(w, d[0], g);
        lemma_small_mod(d[0] as nat, g as nat);
    } else {
        lemma_radix_digit(rest, g, (j - 1) as nat);
        lemma_div_multiples_vanish_fancy(w, d[0], g);
        assert(v / g == w);
        lemma_pow_positive(g, (j - 1) as nat);
        lemma_div_denominator(v, g, pow(g, (j - 1) as nat));
        assert(pow(g, j) == g * pow(g, (j - 1) as nat));
        assert(rest[j - 1] == d[j as int]);
    }
}

/// The digits of a number below `g` to the power `n` write that number.
pub proof fn lemma_radix_of_digits(i: int, g: int, n: nat)
    requires
        g > 0,
        0 <= i < pow(g, n),
    ensures
        radix_value(digits_of(i, g, n), g) == i,
        digits_below(digits_of(i, g, n), g),
    decreases n,
{
    reveal(pow);
    let d = digits_of(i, g, n);
    assert forall|j: int| 0 <= j < d.len() implies 0 <= #[trigger] d[j] < g by {
        lemma_pow_positive(g, j as nat);
        vstd::arithmetic::div_mod::lemma_mod_pos_bound((i / pow(g, j as nat)) as int, g);
        assert(i / pow(g, j as nat) >= 0) by {
            vstd::arithmetic::div_mod::lemma_div_pos_is_pos(i, pow(g, j as nat));
        }
    }
    if n > 0 {
        let q = i / g;
        lemma_fundamental_div_mod(i, g);
        assert(0 <= q < pow(g, (n - 1) as nat)) by {
            assert(pow(g, n) == g * pow(g, (n - 1) as nat));
            vstd::arithmetic::div_mod::lemma_div_pos_is_pos(i, g);
            vstd::arithmetic::div_mod::lemma_mod_pos_bound(i, g);
            assert(q < pow(g, (n - 1) as nat)) by (nonlinear_arith)
                requires
                    i == g * q + i % g,
                    0 <= i % g,
                    i < g * pow(g, (n - 1) as nat),
                    g > 0,
            ;
        }
        lemma_radix_of_digits(q, g, (n - 1) as nat);
        assert forall|j: int| 0 <= j < n - 1 implies #[trigger] d.drop_first()[j] == digits_of(q, g, (n - 1) as nat)[j] by {
            lemma_pow_positive(g, j as nat);
            lemma_div_denominator(i, g, pow(g, j as nat));
            assert(pow(g, (j + 1) as nat) == g * pow(g, j as nat));
        }
        assert(d.drop_first() =~= digits_of(q, g, (n - 1) as nat));
        assert(pow(g, 0) == 1);
        assert(d[0] == i % g);
    }
}

} // verus!
