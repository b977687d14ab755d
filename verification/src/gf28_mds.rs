//! The systematic erasure code is a maximum-distance-separable code: its
//! generator is the Vandermonde matrix over the points 1..=16 times the
//! inverse of its first ten rows, so any ten of its rows are invertible.
use vstd::prelude::*;
use crate::gf28::{
    chosen_indices, chosen_rows, has_kernel, kernel_vector, lemma_present_bounds, present_indices, lemma_col_dot_exchange, lemma_col_dot_ext, lemma_col_dot_unit, systematic_generator, byte_at, col_dot, column, gf_mul, gf_pow, lemma_gf_mul_assoc, lemma_gf_mul_cancel, lemma_gf_mul_comm,
    lemma_gf_mul_distrib_left, lemma_gf_mul_distrib_right, lemma_gf_mul_one, lemma_gf_mul_zero, lemma_xor_assoc,
    lemma_xor_zero,
};

verus! {

/// The polynomial with coefficients `x` (lowest first) at `t`, by Horner's
/// rule: `x[0] + t * (x[1] + t * (...))`.
pub open spec fn horner(x: Seq<u8>, t: u8) -> u8
    decreases x.len(),
{
    if x.len() == 0 {
        0u8
    } else {
        x[0] ^ gf_mul(t, horner(x.drop_first(), t))
    }
}

/// The quotient of the polynomial `x` divided by `X + a` (synthetic
/// division); the remainder is `horner(x, a)`.
pub open spec fn quot(x: Seq<u8>, a: u8) -> Seq<u8>
    decreases x.len(),
{
    if x.len() <= 1 {
        Seq::empty()
    } else {
        seq![horner(x.drop_first(), a)] + quot(x.drop_first(), a)
    }
}

proof fn lemma_xor_facts(x0: u8, p: u8, q: u8, r: u8, u: u8, v: u8)
    ensures
        x0 ^ (p ^ q) == ((q ^ r) ^ p) ^ (x0 ^ r),
        u != v ==> u ^ v != 0u8,
        (x0 ^ p) ^ q == x0 ^ (p ^ q),
{
    assert(x0 ^ (p ^ q) == ((q ^ r) ^ p) ^ (x0 ^ r) && (u != v ==> u ^ v != 0u8) && (x0 ^ p) ^ q == x0
        ^ (p ^ q)) by (bit_vector);
}

proof fn lemma_quot_len(x: Seq<u8>, a: u8)
    ensures
        quot(x, a).len() == if x.len() == 0 {
            0
        } else {
            x.len() - 1
        },
    decreases x.len(),
{
    if x.len() > 1 {
        lemma_quot_len(x.drop_first(), a);
    }
}

/// Synthetic division: `x(t) = (t + a) * q(t) + x(a)`.
proof fn lemma_horner_div(x: Seq<u8>, a: u8, t: u8)
    ensures
        horner(x, t) == gf_mul(t ^ a, horner(quot(x, a), t)) ^ horner(x, a),
    decreases x.len(),
{
    if x.len() == 0 {
        lemma_gf_mul_zero(t ^ a);
        lemma_xor_zero(0u8);
    } else if x.len() == 1 {
        let x1 = x.drop_first();
        assert(horner(x1, t) == 0u8);
        assert(horner(x1, a) == 0u8);
        lemma_gf_mul_zero(t);
        lemma_gf_mul_zero(a);
        lemma_gf_mul_zero(t ^ a);
        lemma_xor_zero(x[0]);
    } else {
        let x1 = x.drop_first();
        let q1 = quot(x1, a);
        let r1 = horner(x1, a);
        let hq1 = horner(q1, t);
        lemma_horner_div(x1, a, t);
        let q = quot(x, a);
        assert(q == seq![r1] + q1);
        assert(q.drop_first() =~= q1);
        assert(horner(q, t) == r1 ^ gf_mul(t, hq1));
        let s = t ^ a;
        lemma_gf_mul_distrib_right(t, gf_mul(s, hq1), r1);
        lemma_gf_mul_distrib_right(s, r1, gf_mul(t, hq1));
        lemma_gf_mul_distrib_left(t, a, r1);
        lemma_gf_mul_assoc(s, t, hq1);
        lemma_gf_mul_comm(s, t);
        lemma_gf_mul_assoc(t, s, hq1);
        lemma_xor_facts(x[0], gf_mul(t, gf_mul(s, hq1)), gf_mul(t, r1), gf_mul(a, r1), 0u8, 0u8);
    }
}

/// A polynomial whose quotient by `X + a` and remainder at `a` are zero is
/// zero.
proof fn lemma_quot_zero(x: Seq<u8>, a: u8)
    requires
        x.len() >= 1,
        horner(x, a) == 0u8,
        forall|j: int| 0 <= j < quot(x, a).len() ==> #[trigger] quot(x, a)[j] == 0u8,
    ensures
        forall|j: int| 0 <= j < x.len() ==> #[trigger] x[j] == 0u8,
    decreases x.len(),
{
    let x1 = x.drop_first();
    if x.len() == 1 {
        assert(horner(x1, a) == 0u8);
        lemma_gf_mul_zero(a);
        lemma_xor_zero(x[0]);
    } else {
        let q = quot(x, a);
        let r1 = horner(x1, a);
        assert(q == seq![r1] + quot(x1, a));
        assert(q[0] == r1);
        lemma_quot_len(x1, a);
        assert forall|j: int| 0 <= j < quot(x1, a).len() implies #[trigger] quot(x1, a)[j] == 0u8 by {
            assert(q[j + 1] == quot(x1, a)[j]);
        }
        lemma_quot_zero(x1, a);
        lemma_gf_mul_zero(a);
        lemma_xor_zero(x[0]);
        assert forall|j: int| 0 <= j < x.len() implies #[trigger] x[j] == 0u8 by {
            if j > 0 {
                assert(x[j] == x1[j - 1]);
            }
        }
    }
}

/// A polynomial of fewer than `n + 1` coefficients that vanishes at `n`
/// distinct points is zero.
pub proof fn lemma_roots(x: Seq<u8>, pts: Seq<u8>)
    requires
        x.len() == pts.len(),
        forall|i: int, j: int| 0 <= i < j < pts.len() ==> #[trigger] pts[i] != #[trigger] pts[j],
        forall|j: int| 0 <= j < pts.len() ==> #[trigger] horner(x, pts[j]) == 0u8,
    ensures
        forall|j: int| 0 <= j < x.len() ==> #[trigger] x[j] == 0u8,
    decreases x.len(),
{
    if x.len() > 0 {
        let n = x.len();
        let a = pts[n - 1];
        let q = quot(x, a);
        let p1 = pts.drop_last();
        lemma_quot_len(x, a);
        assert forall|j: int| 0 <= j < p1.len() implies #[trigger] horner(q, p1[j]) == 0u8 by {
            let t = pts[j];
            assert(p1[j] == t);
            lemma_horner_div(x, a, t);
            assert(horner(x, t) == 0u8);
            assert(horner(x, a) == 0u8);
            lemma_xor_zero(gf_mul(t ^ a, horner(q, t)));
            lemma_xor_facts(0u8, 0u8, 0u8, 0u8, t, a);
            lemma_gf_mul_comm(t ^ a, horner(q, t));
            lemma_gf_mul_cancel(horner(q, t), t ^ a);
        }
        lemma_roots(q, p1);
        lemma_quot_zero(x, a);
    }
}

/// Evaluating at `t` after appending `v` adds `t^len * v`.
proof fn lemma_horner_push(z: Seq<u8>, v: u8, t: u8)
    ensures
        horner(z.push(v), t) == horner(z, t) ^ gf_mul(gf_pow(t, z.len()), v),
    decreases z.len(),
{
    if z.len() == 0 {
        let w = z.push(v);
        assert(w.drop_first() =~= Seq::<u8>::empty());
        lemma_gf_mul_zero(t);
        lemma_gf_mul_one(v);
        lemma_xor_zero(v);
        assert(w[0] == v);
        assert(horner(w.drop_first(), t) == 0u8);
        assert(horner(w, t) == v ^ gf_mul(t, 0u8));
        assert(gf_pow(t, 0) == 1u8);
    } else {
        let z1 = z.drop_first();
        let w = z.push(v);
        assert(w.drop_first() =~= z1.push(v));
        lemma_horner_push(z1, v, t);
        let p = gf_pow(t, z1.len());
        assert(gf_pow(t, z.len()) == gf_mul(p, t));
        lemma_gf_mul_distrib_right(t, horner(z1, t), gf_mul(p, v));
        lemma_gf_mul_assoc(p, t, v);
        lemma_gf_mul_assoc(t, p, v);
        lemma_gf_mul_comm(t, p);
        lemma_xor_facts(z[0], gf_mul(t, horner(z1, t)), gf_mul(t, gf_mul(p, v)), 0u8, 0u8, 0u8);
        assert(w[0] == z[0]);
        assert(horner(w, t) == z[0] ^ gf_mul(t, horner(z1.push(v), t)));
        assert(horner(z, t) == z[0] ^ gf_mul(t, horner(z1, t)));
        assert(gf_mul(gf_mul(p, t), v) == gf_mul(t, gf_mul(p, v)));
    }
}

/// The Vandermonde row of the point `p`: `p^0, p^1, ..., p^9`.
pub open spec fn power_row(p: u8) -> Seq<u8> {
    Seq::new(10, |j: int| gf_pow(p, j as nat))
}

/// Applying a Vandermonde row to a vector evaluates the polynomial with that
/// vector's coefficients at the row's point.
pub proof fn lemma_power_row_evaluates(y: Seq<u8>, t: u8, n: nat)
    requires
        n <= 10,
        y.len() >= n,
    ensures
        col_dot(power_row(t), column(y), 0, n) == horner(y.take(n as int), t),
    decreases n,
{
    if n == 0 {
        assert(y.take(0) =~= Seq::<u8>::empty());
    } else {
        let m = (n - 1) as nat;
        lemma_power_row_evaluates(y, t, m);
        assert(y.take(n as int) =~= y.take(m as int).push(y[m as int]));
        lemma_horner_push(y.take(m as int), y[m as int], t);
        assert(byte_at(column(y)[m as int], 0) == y[m as int]);
    }
}

/// A vector of zeros evaluates to zero everywhere.
proof fn lemma_horner_zero(y: Seq<u8>, t: u8)
    requires
        forall|j: int| 0 <= j < y.len() ==> #[trigger] y[j] == 0u8,
    ensures
        horner(y, t) == 0u8,
    decreases y.len(),
{
    if y.len() > 0 {
        lemma_horner_zero(y.drop_first(), t);
        lemma_gf_mul_zero(t);
        lemma_xor_zero(0u8);
    }
}

/// The inverse of the Vandermonde rows for the points 1..=10.
pub open spec fn systematic_basis() -> Seq<Seq<u8>> {
    Seq::new(10, |j: int| Seq::new(10, |c: int| basis_entry(j as u8, c as u8)))
}

/// Row `r` of the Vandermonde matrix holds the powers of `r + 1`.
proof fn lemma_power_entry(r: u8, j: nat)
    requires
        r < 16,
        j < 10,
    ensures
        gf_pow((r + 1) as u8, j) == power_entry(r, j as u8),
    decreases j,
{
    if j == 0 {
        lemma_power_zero_bits(r);
    } else {
        lemma_power_entry(r, (j - 1) as nat);
        let jj = (j - 1) as u8;
        lemma_power_step_bits(r, jj, power_entry(r, jj));
        assert(power_entry(r, (jj + 1u8) as u8) == gf_mul(power_entry(r, jj), (r + 1u8) as u8));
        assert((jj + 1u8) as u8 == j as u8);
    }
}

/// The generator is the Vandermonde matrix over the points 1..=16 times
/// the basis: `G[r][c]` is row `r + 1` of powers applied to column `c`.
pub proof fn lemma_generator_is_vandermonde_product()
    ensures
        forall|r: int, c: int|
            0 <= r < 16 && 0 <= c < 10 ==> #[trigger] systematic_generator()[r][c] == col_dot(
                power_row((r + 1) as u8),
                systematic_basis(),
                c,
                10,
            ),
{
    assert forall|r: int, c: int| 0 <= r < 16 && 0 <= c < 10 implies #[trigger] systematic_generator()[r][c]
        == col_dot(power_row((r + 1) as u8), systematic_basis(), c, 10) by {
        let r8 = r as u8;
        let c8 = c as u8;
        assert(systematic_generator()[r][c] == generator_entry(r8, c8));
        lemma_generator_entry_bits(
            r8,
            c8,
            power_entry(r8, 0u8),
            power_entry(r8, 1u8),
            power_entry(r8, 2u8),
            power_entry(r8, 3u8),
            power_entry(r8, 4u8),
            power_entry(r8, 5u8),
            power_entry(r8, 6u8),
            power_entry(r8, 7u8),
            power_entry(r8, 8u8),
            power_entry(r8, 9u8),
            basis_entry(0u8, c8),
            basis_entry(1u8, c8),
            basis_entry(2u8, c8),
            basis_entry(3u8, c8),
            basis_entry(4u8, c8),
            basis_entry(5u8, c8),
            basis_entry(6u8, c8),
            basis_entry(7u8, c8),
            basis_entry(8u8, c8),
            basis_entry(9u8, c8),
        );
        let u = power_row((r + 1) as u8);
        let w = systematic_basis();
        assert forall|j: int| 0 <= j < 10 implies #[trigger] u[j] == power_entry(r8, j as u8) by {
            lemma_power_entry(r8, j as nat);
        }
        assert forall|j: int| 0 <= j < 10 implies #[trigger] byte_at(w[j], c) == basis_entry(j as u8, c8) by {}
        reveal_with_fuel(col_dot, 11);
        assert(u[0] == power_entry(r8, 0u8) && byte_at(w[0], c) == basis_entry(0u8, c8));
        assert(u[1] == power_entry(r8, 1u8) && byte_at(w[1], c) == basis_entry(1u8, c8));
        assert(u[2] == power_entry(r8, 2u8) && byte_at(w[2], c) == basis_entry(2u8, c8));
        assert(u[3] == power_entry(r8, 3u8) && byte_at(w[3], c) == basis_entry(3u8, c8));
        assert(u[4] == power_entry(r8, 4u8) && byte_at(w[4], c) == basis_entry(4u8, c8));
        assert(u[5] == power_entry(r8, 5u8) && byte_at(w[5], c) == basis_entry(5u8, c8));
        assert(u[6] == power_entry(r8, 6u8) && byte_at(w[6], c) == basis_entry(6u8, c8));
        assert(u[7] == power_entry(r8, 7u8) && byte_at(w[7], c) == basis_entry(7u8, c8));
        assert(u[8] == power_entry(r8, 8u8) && byte_at(w[8], c) == basis_entry(8u8, c8));
        assert(u[9] == power_entry(r8, 9u8) && byte_at(w[9], c) == basis_entry(9u8, c8));
    }
}

/// The basis applied to `x`: the coefficients of the polynomial whose values
/// at the points 1..=16 are the generator rows applied to `x`.
pub open spec fn basis_apply(x: Seq<u8>) -> Seq<u8> {
    Seq::new(10, |j: int| col_dot(systematic_basis()[j], column(x), 0, 10))
}

/// Applying generator row `s` to `x` evaluates that polynomial at `s + 1`.
proof fn lemma_generator_row_eval(s: int, x: Seq<u8>)
    requires
        0 <= s < 16,
        x.len() == 10,
    ensures
        col_dot(systematic_generator()[s], column(x), 0, 10) == horner(basis_apply(x), (s + 1) as u8),
{
    lemma_generator_is_vandermonde_product();
    let w = systematic_basis();
    let y = basis_apply(x);
    let u = power_row((s + 1) as u8);
    assert forall|j: int| 0 <= j < 10 implies #[trigger] byte_at(column(y)[j], 0) == col_dot(w[j], column(x), 0, 10) by {}
    assert forall|j: int| 0 <= j < 10 implies #[trigger] w[j].len() >= 10 by {}
    lemma_col_dot_exchange(u, column(y), w, column(x), 0, 10, 10);
    let g = Seq::new(10, |c: int| col_dot(u, w, c, 10));
    assert forall|c: int| 0 <= c < 10 implies #[trigger] g[c] == systematic_generator()[s][c] by {}
    lemma_col_dot_ext(g, systematic_generator()[s], column(x), 0, 10);
    lemma_power_row_evaluates(y, (s + 1) as u8, 10);
    assert(y.take(10) =~= y);
}

/// The erasure code is maximum distance separable: any ten distinct rows of
/// the systematic generator send only the zero vector to zero, so they are
/// invertible and any ten shards determine the data.
pub proof fn lemma_any_ten_rows_injective(a: Seq<int>, x: Seq<u8>)
    requires
        a.len() == 10,
        forall|j: int| 0 <= j < 10 ==> 0 <= #[trigger] a[j] < 16,
        forall|i: int, j: int| 0 <= i < j < 10 ==> #[trigger] a[i] != #[trigger] a[j],
        x.len() == 10,
        forall|j: int| 0 <= j < 10 ==> #[trigger] col_dot(systematic_generator()[a[j]], column(x), 0, 10) == 0u8,
    ensures
        forall|c: int| 0 <= c < 10 ==> #[trigger] x[c] == 0u8,
{
    let y = basis_apply(x);
    let pts = Seq::new(10, |j: int| (a[j] + 1) as u8);
    assert forall|j: int| 0 <= j < pts.len() implies #[trigger] horner(y, pts[j]) == 0u8 by {
        lemma_generator_row_eval(a[j], x);
        assert(col_dot(systematic_generator()[a[j]], column(x), 0, 10) == 0u8);
    }
    assert forall|i: int, j: int| 0 <= i < j < pts.len() implies #[trigger] pts[i] != #[trigger] pts[j] by {
        assert(a[i] != a[j]);
    }
    lemma_roots(y, pts);
    assert forall|c: int| 0 <= c < 10 implies #[trigger] x[c] == 0u8 by {
        lemma_generator_row_eval(c, x);
        lemma_horner_zero(y, (c + 1) as u8);
        let g = systematic_generator()[c];
        assert forall|j: int| 0 <= j < 10 implies #[trigger] g[j] == if j == c { 1u8 } else { 0u8 } by {
            assert(g[j] == generator_entry(c as u8, j as u8));
        }
        lemma_col_dot_unit(g, column(x), 0, 10, c);
        assert(byte_at(column(x)[c], 0) == x[c]);
    }
}

/// The rows of the systematic generator that decoding picks (the first ten
/// present shards of sixteen) are never singular.
pub proof fn lemma_chosen_rows_nonsingular(surv: Seq<Option<Vec<u8>>>)
    requires
        surv.len() == 16,
        chosen_indices(surv, 10).len() == 10,
    ensures
        !has_kernel(chosen_rows(systematic_generator(), chosen_indices(surv, 10), 10), 10),
{
    let a = chosen_indices(surv, 10);
    let s0 = chosen_rows(systematic_generator(), a, 10);
    lemma_present_bounds(surv, 16);
    let p = present_indices(surv, 16);
    assert forall|j: int| 0 <= j < 10 implies a[j] == p[j] by {
        if p.len() > 10 {
            assert(p.take(10)[j] == p[j]);
        }
    }
    assert forall|j: int| 0 <= j < 10 implies 0 <= #[trigger] a[j] < 16 by {
        assert(a[j] == p[j]);
    }
    assert forall|i: int, j: int| 0 <= i < j < 10 implies #[trigger] a[i] != #[trigger] a[j] by {
        assert(a[i] == p[i] && a[j] == p[j]);
        assert(p[i] < p[j]);
    }
    if has_kernel(s0, 10) {
        let x = choose|x: Seq<u8>| #[trigger] kernel_vector(s0, 10, x);
        assert forall|j: int| 0 <= j < 10 implies #[trigger] col_dot(systematic_generator()[a[j]], column(x), 0, 10)
            == 0u8 by {
            assert(col_dot(s0[j], column(x), 0, 10) == 0u8);
            assert(s0[j] == systematic_generator()[a[j]].take(10));
            lemma_col_dot_ext(s0[j], systematic_generator()[a[j]], column(x), 0, 10);
        }
        lemma_any_ten_rows_injective(a, x);
        let c = choose|c: int| 0 <= c < 10 && x[c] != 0u8;
        assert(x[c] == 0u8);
    }
}

/// Entry `(r, c)` of the systematic generator: the unit rows, then the
/// parity rows.
pub open spec fn generator_entry(r: u8, c: u8) -> u8 {
    if r < 10 {
        if r == c {
            1u8
        } else {
            0u8
        }
    } else {
        parity_entry((r - 10) as u8, c)
    }
}

/// Entry `(j, c)` of the inverse of the Vandermonde rows for the points
/// 1..=10 (rows past 9 read as row 9).
pub open spec fn basis_entry(j: u8, c: u8) -> u8 {
    if j == 0 {
        if c == 0 {
            153u8
        } else if c == 1 {
            44u8
        } else if c == 2 {
            180u8
        } else if c == 3 {
            112u8
        } else if c == 4 {
            188u8
        } else if c == 5 {
            245u8
        } else if c == 6 {
            57u8
        } else if c == 7 {
            252u8
        } else if c == 8 {
            168u8
        } else {
            84u8
        }
    } else if j == 1 {
        if c == 0 {
            72u8
        } else if c == 1 {
            110u8
        } else if c == 2 {
            115u8
        } else if c == 3 {
            118u8
        } else if c == 4 {
            179u8
        } else if c == 5 {
            136u8
        } else if c == 6 {
            49u8
        } else if c == 7 {
            209u8
        } else if c == 8 {
            104u8
        } else {
            144u8
        }
    } else if j == 2 {
        if c == 0 {
            146u8
        } else if c == 1 {
            61u8
        } else if c == 2 {
            107u8
        } else if c == 3 {
            20u8
        } else if c == 4 {
            232u8
        } else if c == 5 {
            137u8
        } else if c == 6 {
            167u8
        } else if c == 7 {
            76u8
        } else if c == 8 {
            27u8
        } else {
            65u8
        }
    } else if j == 3 {
        if c == 0 {
            113u8
        } else if c == 1 {
            38u8
        } else if c == 2 {
            87u8
        } else if c == 3 {
            165u8
        } else if c == 4 {
            136u8
        } else if c == 5 {
            45u8
        } else if c == 6 {
            0u8
        } else if c == 7 {
            242u8
        } else if c == 8 {
            174u8
        } else {
            92u8
        }
    } else if j == 4 {
        if c == 0 {
            172u8
        } else if c == 1 {
            101u8
        } else if c == 2 {
            34u8
        } else if c == 3 {
            213u8
        } else if c == 4 {
            142u8
        } else if c == 5 {
            2u8
        } else if c == 6 {
            156u8
        } else if c == 7 {
            213u8
        } else if c == 8 {
            137u8
        } else {
            114u8
        }
    } else if j == 5 {
        if c == 0 {
            97u8
        } else if c == 1 {
            41u8
        } else if c == 2 {
            72u8
        } else if c == 3 {
            232u8
        } else if c == 4 {
            251u8
        } else if c == 5 {
            11u8
        } else if c == 6 {
            24u8
        } else if c == 7 {
            184u8
        } else if c == 8 {
            202u8
        } else {
            114u8
        }
    } else if j == 6 {
        if c == 0 {
            81u8
        } else if c == 1 {
            162u8
        } else if c == 2 {
            243u8
        } else if c == 3 {
            89u8
        } else if c == 4 {
            8u8
        } else if c == 5 {
            251u8
        } else if c == 6 {
            170u8
        } else if c == 7 {
            0u8
        } else if c == 8 {
            0u8
        } else {
            0u8
        }
    } else if j == 7 {
        if c == 0 {
            36u8
        } else if c == 1 {
            72u8
        } else if c == 2 {
            108u8
        } else if c == 3 {
            35u8
        } else if c == 4 {
            222u8
        } else if c == 5 {
            196u8
        } else if c == 6 {
            57u8
        } else if c == 7 {
            118u8
        } else if c == 8 {
            175u8
        } else {
            217u8
        }
    } else if j == 8 {
        if c == 0 {
            5u8
        } else if c == 1 {
            132u8
        } else if c == 2 {
            251u8
        } else if c == 3 {
            89u8
        } else if c == 4 {
            216u8
        } else if c == 5 {
            74u8
        } else if c == 6 {
            160u8
        } else if c == 7 {
            204u8
        } else if c == 8 {
            238u8
        } else {
            51u8
        }
    } else {
        if c == 0 {
            142u8
        } else if c == 1 {
            123u8
        } else if c == 2 {
            245u8
        } else if c == 3 {
            169u8
        } else if c == 4 {
            20u8
        } else if c == 5 {
            165u8
        } else if c == 6 {
            24u8
        } else if c == 7 {
            68u8
        } else if c == 8 {
            119u8
        } else {
            51u8
        }
    }
}

/// Entry `(i, c)` of the six parity rows (rows past 5 read as row 5): the
/// Vandermonde rows for the points 11..=16 times `basis_entry`.
pub open spec fn parity_entry(i: u8, c: u8) -> u8 {
    if i == 0 {
        if c == 0 {
            154u8
        } else if c == 1 {
            41u8
        } else if c == 2 {
            179u8
        } else if c == 3 {
            8u8
        } else if c == 4 {
            10u8
        } else if c == 5 {
            12u8
        } else if c == 6 {
            14u8
        } else if c == 7 {
            180u8
        } else if c == 8 {
            44u8
        } else {
            153u8
        }
    } else if i == 1 {
        if c == 0 {
            34u8
        } else if c == 1 {
            75u8
        } else if c == 2 {
            104u8
        } else if c == 3 {
            187u8
        } else if c == 4 {
            156u8
        } else if c == 5 {
            254u8
        } else if c == 6 {
            216u8
        } else if c == 7 {
            10u8
        } else if c == 8 {
            14u8
        } else {
            5u8
        }
    } else if i == 2 {
        if c == 0 {
            45u8
        } else if c == 1 {
            84u8
        } else if c == 2 {
            120u8
        } else if c == 3 {
            242u8
        } else if c == 4 {
            226u8
        } else if c == 5 {
            216u8
        } else if c == 6 {
            201u8
        } else if c == 7 {
            67u8
        } else if c == 8 {
            127u8
        } else {
            61u8
        }
    } else if i == 3 {
        if c == 0 {
            52u8
        } else if c == 1 {
            101u8
        } else if c == 2 {
            80u8
        } else if c == 3 {
            232u8
        } else if c == 4 {
            216u8
        } else if c == 5 {
            129u8
        } else if c == 6 {
            176u8
        } else if c == 7 {
            8u8
        } else if c == 8 {
            12u8
        } else {
            5u8
        }
    } else if i == 4 {
        if c == 0 {
            57u8
        } else if c == 1 {
            126u8
        } else if c == 2 {
            70u8
        } else if c == 3 {
            216u8
        } else if c == 4 {
            17u8
        } else if c == 5 {
            95u8
        } else if c == 6 {
            151u8
        } else if c == 7 {
            8u8
        } else if c == 8 {
            248u8
        } else {
            241u8
        }
    } else {
        if c == 0 {
            13u8
        } else if c == 1 {
            146u8
        } else if c == 2 {
            126u8
        } else if c == 3 {
            39u8
        } else if c == 4 {
            248u8
        } else if c == 5 {
            57u8
        } else if c == 6 {
            13u8
        } else if c == 7 {
            143u8
        } else if c == 8 {
            160u8
        } else {
            36u8
        }
    }
}

/// `(r + 1)^j`: entry `(r, j)` of the Vandermonde matrix over the points
/// 1..=16 (rows past 15 read as row 15).
pub open spec fn power_entry(r: u8, j: u8) -> u8 {
    if r == 0 {
        if j == 0 {
            1u8
        } else if j == 1 {
            1u8
        } else if j == 2 {
            1u8
        } else if j == 3 {
            1u8
        } else if j == 4 {
            1u8
        } else if j == 5 {
            1u8
        } else if j == 6 {
            1u8
        } else if j == 7 {
            1u8
        } else if j == 8 {
            1u8
        } else {
            1u8
        }
    } else if r == 1 {
        if j == 0 {
            1u8
        } else if j == 1 {
            2u8
        } else if j == 2 {
            4u8
        } else if j == 3 {
            8u8
        } else if j == 4 {
            16u8
        } else if j == 5 {
            32u8
        } else if j == 6 {
            64u8
        } else if j == 7 {
            128u8
        } else if j == 8 {
            29u8
        } else {
            58u8
        }
    } else if r == 2 {
        if j == 0 {
            1u8
        } else if j == 1 {
            3u8
        } else if j == 2 {
            5u8
        } else if j == 3 {
            15u8
        } else if j == 4 {
            17u8
        } else if j == 5 {
            51u8
        } else if j == 6 {
            85u8
        } else if j == 7 {
            255u8
        } else if j == 8 {
            28u8
        } else {
            36u8
        }
    } else if r == 3 {
        if j == 0 {
            1u8
        } else if j == 1 {
            4u8
        } else if j == 2 {
            16u8
        } else if j == 3 {
            64u8
        } else if j == 4 {
            29u8
        } else if j == 5 {
            116u8
        } else if j == 6 {
            205u8
        } else if j == 7 {
            19u8
        } else if j == 8 {
            76u8
        } else {
            45u8
        }
    } else if r == 4 {
        if j == 0 {
            1u8
        } else if j == 1 {
            5u8
        } else if j == 2 {
            17u8
        } else if j == 3 {
            85u8
        } else if j == 4 {
            28u8
        } else if j == 5 {
            108u8
        } else if j == 6 {
            193u8
        } else if j == 7 {
            226u8
        } else if j == 8 {
            77u8
        } else {
            100u8
        }
    } else if r == 5 {
        if j == 0 {
            1u8
        } else if j == 1 {
            6u8
        } else if j == 2 {
            20u8
        } else if j == 3 {
            120u8
        } else if j == 4 {
            13u8
        } else if j == 5 {
            46u8
        } else if j == 6 {
            228u8
        } else if j == 7 {
            98u8
        } else if j == 8 {
            81u8
        } else {
            251u8
        }
    } else if r == 6 {
        if j == 0 {
            1u8
        } else if j == 1 {
            7u8
        } else if j == 2 {
            21u8
        } else if j == 3 {
            107u8
        } else if j == 4 {
            12u8
        } else if j == 5 {
            36u8
        } else if j == 6 {
            252u8
        } else if j == 7 {
            206u8
        } else if j == 8 {
            80u8
        } else {
            173u8
        }
    } else if r == 7 {
        if j == 0 {
            1u8
        } else if j == 1 {
            8u8
        } else if j == 2 {
            64u8
        } else if j == 3 {
            58u8
        } else if j == 4 {
            205u8
        } else if j == 5 {
            38u8
        } else if j == 6 {
            45u8
        } else if j == 7 {
            117u8
        } else if j == 8 {
            143u8
        } else {
            12u8
        }
    } else if r == 8 {
        if j == 0 {
            1u8
        } else if j == 1 {
            9u8
        } else if j == 2 {
            65u8
        } else if j == 3 {
            115u8
        } else if j == 4 {
            204u8
        } else if j == 5 {
            226u8
        } else if j == 6 {
            161u8
        } else if j == 7 {
            192u8
        } else if j == 8 {
            142u8
        } else {
            138u8
        }
    } else if r == 9 {
        if j == 0 {
            1u8
        } else if j == 1 {
            10u8
        } else if j == 2 {
            68u8
        } else if j == 3 {
            146u8
        } else if j == 4 {
            221u8
        } else if j == 5 {
            1u8
        } else if j == 6 {
            10u8
        } else if j == 7 {
            68u8
        } else if j == 8 {
            146u8
        } else {
            221u8
        }
    } else if r == 10 {
        if j == 0 {
            1u8
        } else if j == 1 {
            11u8
        } else if j == 2 {
            69u8
        } else if j == 3 {
            221u8
        } else if j == 4 {
            220u8
        } else if j == 5 {
            215u8
        } else if j == 6 {
            146u8
        } else if j == 7 {
            79u8
        } else if j == 8 {
            147u8
        } else {
            68u8
        }
    } else if r == 11 {
        if j == 0 {
            1u8
        } else if j == 1 {
            12u8
        } else if j == 2 {
            80u8
        } else if j == 3 {
            231u8
        } else if j == 4 {
            208u8
        } else if j == 5 {
            169u8
        } else if j == 6 {
            191u8
        } else if j == 7 {
            87u8
        } else if j == 8 {
            195u8
        } else {
            125u8
        }
    } else if r == 12 {
        if j == 0 {
            1u8
        } else if j == 1 {
            13u8
        } else if j == 2 {
            81u8
        } else if j == 3 {
            186u8
        } else if j == 4 {
            209u8
        } else if j == 5 {
            116u8
        } else if j == 6 {
            62u8
        } else if j == 7 {
            43u8
        } else if j == 8 {
            194u8
        } else {
            179u8
        }
    } else if r == 13 {
        if j == 0 {
            1u8
        } else if j == 1 {
            14u8
        } else if j == 2 {
            84u8
        } else if j == 3 {
            127u8
        } else if j == 4 {
            192u8
        } else if j == 5 {
            244u8
        } else if j == 6 {
            241u8
        } else if j == 7 {
            199u8
        } else if j == 8 {
            222u8
        } else {
            64u8
        }
    } else if r == 14 {
        if j == 0 {
            1u8
        } else if j == 1 {
            15u8
        } else if j == 2 {
            85u8
        } else if j == 3 {
            36u8
        } else if j == 4 {
            193u8
        } else if j == 5 {
            59u8
        } else if j == 6 {
            100u8
        } else if j == 7 {
            38u8
        } else if j == 8 {
            223u8
        } else {
            145u8
        }
    } else {
        if j == 0 {
            1u8
        } else if j == 1 {
            16u8
        } else if j == 2 {
            29u8
        } else if j == 3 {
            205u8
        } else if j == 4 {
            76u8
        } else if j == 5 {
            180u8
        } else if j == 6 {
            143u8
        } else if j == 7 {
            24u8
        } else if j == 8 {
            157u8
        } else {
            37u8
        }
    }
}

/// Generator entry `(r, c)` is the dot product of Vandermonde row `r`,
/// read as `p0..p9`, with basis column `c`, read as `w0..w9`.
proof fn lemma_generator_entry_bits(
    r: u8,
    c: u8,
    p0: u8,
    p1: u8,
    p2: u8,
    p3: u8,
    p4: u8,
    p5: u8,
    p6: u8,
    p7: u8,
    p8: u8,
    p9: u8,
    w0: u8,
    w1: u8,
    w2: u8,
    w3: u8,
    w4: u8,
    w5: u8,
    w6: u8,
    w7: u8,
    w8: u8,
    w9: u8,
)
    by (bit_vector)
    requires
        r < 16,
        c < 10,
        p0 == power_entry(r, 0u8),
        w0 == basis_entry(0u8, c),
        p1 == power_entry(r, 1u8),
        w1 == basis_entry(1u8, c),
        p2 == power_entry(r, 2u8),
        w2 == basis_entry(2u8, c),
        p3 == power_entry(r, 3u8),
        w3 == basis_entry(3u8, c),
        p4 == power_entry(r, 4u8),
        w4 == basis_entry(4u8, c),
        p5 == power_entry(r, 5u8),
        w5 == basis_entry(5u8, c),
        p6 == power_entry(r, 6u8),
        w6 == basis_entry(6u8, c),
        p7 == power_entry(r, 7u8),
        w7 == basis_entry(7u8, c),
        p8 == power_entry(r, 8u8),
        w8 == basis_entry(8u8, c),
        p9 == power_entry(r, 9u8),
        w9 == basis_entry(9u8, c),
    ensures
        generator_entry(r, c) == ((((((((((0u8 ^ gf_mul(p0, w0)) ^ gf_mul(p1, w1)) ^ gf_mul(p2, w2))
            ^ gf_mul(p3, w3)) ^ gf_mul(p4, w4)) ^ gf_mul(p5, w5)) ^ gf_mul(p6, w6)) ^ gf_mul(p7, w7))
            ^ gf_mul(p8, w8)) ^ gf_mul(p9, w9)),
{
}

/// Row `r` of the Vandermonde matrix starts with one.
proof fn lemma_power_zero_bits(r: u8)
    by (bit_vector)
    requires
        r < 16,
    ensures
        power_entry(r, 0u8) == 1u8,
{
}

/// The next Vandermonde entry of row `r` is the one before it, `p`, times
/// the row's point.
proof fn lemma_power_step_bits(r: u8, j: u8, p: u8)
    by (bit_vector)
    requires
        r < 16,
        j < 9,
        p == power_entry(r, j),
    ensures
        power_entry(r, (j + 1u8) as u8) == gf_mul(p, (r + 1u8) as u8),
{
}

} // verus!
