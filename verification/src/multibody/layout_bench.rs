//! The same back-solves in two memory layouts, to compare their speed.
//!
//! Each constraint of each environment is solved with the factors of its
//! environment. One layout keeps the data of an environment together; the other
//! interleaves the environments. All environments share one tree of parents.
use super::ltdl::{factors_of, ltdl_solve, ltdl_solve_mapped, parents_in_range};
use super::sweeps::dot_fold;
use crate::batch::{ivec_spec, lemma_imat_fits, lemma_ivec_fits, mbi_spec};
use crate::scalar::Scalar;
use crate::views::{MatView, VecView, copy_vec, same_outside_vec, vec_get, vec_of};
use vstd::prelude::*;

verus! {

/// The reciprocal of a positive number, zero for the rest.
pub open spec fn positive_inverse<S: Scalar>(x: S) -> S {
    if S::zero_spec().lt_spec(x) {
        S::one_spec().over_spec(x)
    } else {
        S::zero_spec()
    }
}

/// The parents of all degrees of freedom.
pub open spec fn whole(n: int) -> VecView {
    VecView { base: 0, stride: 1, len: n as usize }
}

/// What one back-solve leaves behind: the response and the effective mass.
pub open spec fn bench_solved<S: Scalar>(
    factors: Seq<Seq<S>>,
    parents: Seq<u32>,
    jac: Seq<S>,
    col: Seq<S>,
    inv_lhs: S,
) -> bool {
    &&& col == ltdl_solve(factors, parents, jac)
    &&& inv_lhs == positive_inverse(dot_fold(jac, col, jac.len() as int))
}

/// Solves for the response of one constraint.
pub fn finalize_one<S: Scalar>(
    mat: &[S],
    jacs: &[S],
    cols: &mut [S],
    inv_lhs: &mut [S],
    parents: &[u32],
    mv: MatView,
    v: VecView,
    out_idx: usize,
)
    requires
        mv.fits(mat@.len() as int),
        mv.nrows == mv.ncols,
        v.fits(jacs@.len() as int),
        v.fits(old(cols)@.len() as int),
        v.len == mv.nrows,
        mv.nrows <= parents@.len(),
        parents_in_range(vec_of(parents@, whole(mv.nrows as int))),
        out_idx < old(inv_lhs)@.len(),
    ensures
        bench_solved(
            factors_of(mat@, mv, true),
            vec_of(parents@, whole(mv.nrows as int)),
            vec_of(jacs@, v),
            vec_of(final(cols)@, v),
            final(inv_lhs)@[out_idx as int],
        ),
        same_outside_vec(old(cols)@, final(cols)@, v),
        final(inv_lhs)@ == old(inv_lhs)@.update(
            out_idx as int,
            final(inv_lhs)@[out_idx as int],
        ),
{
    let n: usize = mv.nrows;
    let plen: usize = parents.len();
    let pv = VecView { base: 0, stride: 1, len: n };
    copy_vec(jacs, v, cols, v);
    ltdl_solve_mapped(mat, mv, cols, v, parents, pv);
    let ghost jac = vec_of(jacs@, v);
    let ghost col = vec_of(cols@, v);
    let mut acc = S::zero();
    let mut i: usize = 0;
    while i < n
        invariant
            v.fits(jacs@.len() as int),
            v.fits(cols@.len() as int),
            v.len == n,
            jac == vec_of(jacs@, v),
            col == vec_of(cols@, v),
            i <= n,
            acc == dot_fold(jac, col, i as int),
        decreases n - i,
    {
        acc = acc.plus(vec_get(jacs, v, i).times(vec_get(cols, v, i)));
        i = i + 1;
    }
    inv_lhs[out_idx] = if S::zero().lt(acc) {
        S::one().over(acc)
    } else {
        S::zero()
    };
}

/// The factors of environment `env`, kept together.
pub open spec fn env_mat(n: int, env: int) -> MatView {
    MatView {
        base: (env * (n * n)) as usize,
        row_stride: 1,
        col_stride: n as usize,
        nrows: n as usize,
        ncols: n as usize,
    }
}

/// The vector of constraint `s` of environment `env`, kept together.
pub open spec fn env_vec(n: int, num_cons: int, env: int, s: int) -> VecView {
    VecView { base: ((env * num_cons + s) * n) as usize, stride: 1, len: n as usize }
}

proof fn lemma_env_vec(n: int, num_cons: int, env: int, s: int, len: int)
    requires
        0 <= n,
        0 <= env,
        0 <= s < num_cons,
        (env + 1) * num_cons * n <= len,
        len <= usize::MAX,
    ensures
        0 <= env * num_cons,
        0 <= (env * num_cons + s) * n,
        (env * num_cons + s) * n + n <= (env + 1) * num_cons * n,
        env * num_cons * n <= (env * num_cons + s) * n,
        env_vec(n, num_cons, env, s).fits(len),
        env_vec(n, num_cons, env, s).base == (env * num_cons + s) * n,
{
    let k = env * num_cons + s;
    assert(0 <= env * num_cons && (env + 1) * num_cons == env * num_cons + num_cons)
        by (nonlinear_arith)
        requires
            env >= 0,
            num_cons >= 0,
    ;
    let e = (env + 1) * num_cons;
    assert(0 <= k * n && k * n + n <= e * n) by (nonlinear_arith)
        requires
            0 <= k,
            k + 1 <= e,
            n >= 0,
    ;
    assert(env * num_cons * n <= k * n) by (nonlinear_arith)
        requires
            env * num_cons <= k,
            n >= 0,
    ;
}

/// Solves every constraint of environment `env`, with the data of an
/// environment kept together.
pub fn gpu_bench_finalize_env_major<S: Scalar>(
    env: u32,
    mat: &[S],
    jacs: &[S],
    cols: &mut [S],
    inv_lhs: &mut [S],
    parents: &[u32],
    n: u32,
    num_cons: u32,
)
    requires
        (env + 1) * (n * n) <= mat@.len() <= usize::MAX,
        (env + 1) * num_cons * n <= jacs@.len() <= usize::MAX,
        (env + 1) * num_cons * n <= old(cols)@.len() <= usize::MAX,
        (env + 1) * num_cons <= old(inv_lhs)@.len() <= usize::MAX,
        n <= parents@.len(),
        parents_in_range(vec_of(parents@, whole(n as int))),
    ensures
        forall|s: int|
            0 <= s < num_cons ==> bench_solved(
                factors_of(mat@, env_mat(n as int, env as int), true),
                vec_of(parents@, whole(n as int)),
                #[trigger] vec_of(jacs@, env_vec(n as int, num_cons as int, env as int, s)),
                vec_of(final(cols)@, env_vec(n as int, num_cons as int, env as int, s)),
                final(inv_lhs)@[env * num_cons + s],
            ),
        final(cols)@.len() == old(cols)@.len(),
        forall|e: int|
            0 <= e < old(cols)@.len() && !(env * num_cons * n <= e < (env + 1) * num_cons * n)
                ==> #[trigger] final(cols)@[e] == old(cols)@[e],
        final(inv_lhs)@.len() == old(inv_lhs)@.len(),
        forall|e: int|
            0 <= e < old(inv_lhs)@.len() && !(env * num_cons <= e < (env + 1) * num_cons)
                ==> #[trigger] final(inv_lhs)@[e] == old(inv_lhs)@[e],
{
    let nn: usize = n as usize;
    let mlen: usize = mat.len();
    let jlen: usize = jacs.len();
    let clen: usize = cols.len();
    let ilen: usize = inv_lhs.len();
    let ghost ng = n as int;
    let ghost cg = num_cons as int;
    let ghost eg = env as int;
    proof {
        let q = n * n;
        assert(0 <= q && n <= q * n + n) by (nonlinear_arith)
            requires
                q == n * n,
                n >= 0,
        ;
        assert(0 <= env * q && (env + 1) * q == env * q + q && q <= (env + 1) * q)
            by (nonlinear_arith)
            requires
                q >= 0,
                env >= 0,
        ;
        assert(0 <= env * num_cons && (env + 1) * num_cons == env * num_cons + num_cons)
            by (nonlinear_arith)
            requires
                env >= 0,
                num_cons >= 0,
        ;
    }
    let mv = MatView {
        base: env as usize * (nn * nn),
        row_stride: 1,
        col_stride: nn,
        nrows: nn,
        ncols: nn,
    };
    assert(mv == env_mat(ng, eg));
    assert(mv.fits(mlen as int)) by {
        if n > 0 {
            assert((n - 1) + (n - 1) * n == n * n - 1) by (nonlinear_arith);
        }
    }
    let mut s: u32 = 0;
    while s < num_cons
        invariant
            ng == n,
            nn == n,
            cg == num_cons,
            eg == env,
            mv == env_mat(ng, eg),
            mv.fits(mat@.len() as int),
            mv.nrows == n,
            mv.ncols == n,
            (env + 1) * num_cons * n <= jacs@.len() <= usize::MAX,
            (env + 1) * num_cons * n <= old(cols)@.len() <= usize::MAX,
            0 <= env * num_cons,
            env * num_cons + num_cons <= old(inv_lhs)@.len() <= usize::MAX,
            n <= parents@.len(),
            parents_in_range(vec_of(parents@, whole(ng))),
            s <= num_cons,
            forall|i: int|
                0 <= i < s ==> bench_solved(
                    factors_of(mat@, mv, true),
                    vec_of(parents@, whole(ng)),
                    #[trigger] vec_of(jacs@, env_vec(ng, cg, eg, i)),
                    vec_of(cols@, env_vec(ng, cg, eg, i)),
                    inv_lhs@[eg * cg + i],
                ),
            cols@.len() == old(cols)@.len(),
            forall|e: int|
                0 <= e < cols@.len() && !(env * num_cons * n <= e < (env + 1) * num_cons * n)
                    ==> #[trigger] cols@[e] == old(cols)@[e],
            inv_lhs@.len() == old(inv_lhs)@.len(),
            forall|e: int|
                0 <= e < inv_lhs@.len() && !(env * num_cons <= e < env * num_cons + num_cons)
                    ==> #[trigger] inv_lhs@[e] == old(inv_lhs)@[e],
        decreases num_cons - s,
    {
        proof {
            lemma_env_vec(ng, cg, eg, s as int, jacs@.len() as int);
            lemma_env_vec(ng, cg, eg, s as int, cols@.len() as int);
        }
        let slot: usize = env as usize * num_cons as usize + s as usize;
        let v = VecView { base: slot * nn, stride: 1, len: nn };
        assert(v == env_vec(ng, cg, eg, s as int));
        let ghost c0 = cols@;
        let ghost i0 = inv_lhs@;
        finalize_one(mat, jacs, cols, inv_lhs, parents, mv, v, slot);
        proof {
            assert forall|e: int|
                0 <= e < cols@.len() && !(v.base <= e < v.base + n) implies #[trigger] cols@[e]
                == c0[e] by {
                if v.holds(e) {
                    let q = choose|q: int| 0 <= q < v.len && #[trigger] v.idx_spec(q) == e;
                }
            }
            assert forall|i: int| 0 <= i < s + 1 implies bench_solved(
                factors_of(mat@, mv, true),
                vec_of(parents@, whole(ng)),
                #[trigger] vec_of(jacs@, env_vec(ng, cg, eg, i)),
                vec_of(cols@, env_vec(ng, cg, eg, i)),
                inv_lhs@[eg * cg + i],
            ) by {
                if i < s {
                    lemma_env_vec(ng, cg, eg, i, cols@.len() as int);
                    let w = env_vec(ng, cg, eg, i);
                    assert((eg * cg + i) * ng + ng <= (eg * cg + s) * ng) by (nonlinear_arith)
                        requires
                            i + 1 <= s,
                            ng >= 0,
                    ;
                    assert forall|q: int| 0 <= q < w.len implies #[trigger] vec_of(cols@, w)[q]
                        == vec_of(c0, w)[q] by {
                        assert(w.idx_spec(q) == w.base + q);
                    }
                    assert(vec_of(cols@, w) =~= vec_of(c0, w));
                }
            }
        }
        s = s + 1;
    }
}

/// The environment and constraint of flat position `t`, or nothing past the
/// last one. Environments vary fastest.
pub open spec fn bench_slot(num_envs: int, num_cons: int, t: int) -> Option<(int, int)> {
    if num_envs > 0 && 0 <= t < num_envs * num_cons {
        Some((t % num_envs, t / num_envs))
    } else {
        None
    }
}

/// The factors of environment `env`, interleaved.
pub open spec fn soa_mat(n: int, num_envs: int, env: int) -> MatView {
    MatView {
        base: env as usize,
        row_stride: num_envs as usize,
        col_stride: (n * num_envs) as usize,
        nrows: n as usize,
        ncols: n as usize,
    }
}

/// Solves the constraint at flat position `t`, with the environments
/// interleaved.
pub fn gpu_bench_finalize_soa<S: Scalar>(
    t: u32,
    mat: &[S],
    jacs: &[S],
    cols: &mut [S],
    inv_lhs: &mut [S],
    parents: &[u32],
    n: u32,
    num_envs: u32,
    num_cons: u32,
)
    requires
        n * n * num_envs <= mat@.len() <= usize::MAX,
        num_cons * n * num_envs <= jacs@.len() <= usize::MAX,
        num_cons * n * num_envs <= old(cols)@.len() <= usize::MAX,
        num_envs * num_cons <= old(inv_lhs)@.len() <= usize::MAX,
        n <= parents@.len(),
        parents_in_range(vec_of(parents@, whole(n as int))),
    ensures
        match bench_slot(num_envs as int, num_cons as int, t as int) {
            None => {
                &&& final(cols)@ == old(cols)@
                &&& final(inv_lhs)@ == old(inv_lhs)@
            },
            Some((env, s)) => {
                let v = ivec_spec(num_envs as int, env, s * n, n as int);
                &&& bench_solved(
                    factors_of(mat@, soa_mat(n as int, num_envs as int, env), true),
                    vec_of(parents@, whole(n as int)),
                    vec_of(jacs@, v),
                    vec_of(final(cols)@, v),
                    final(inv_lhs)@[t as int],
                )
                &&& same_outside_vec(old(cols)@, final(cols)@, v)
                &&& final(inv_lhs)@ == old(inv_lhs)@.update(t as int, final(inv_lhs)@[t as int])
            },
        },
{
    if num_envs == 0 {
        return ;
    }
    let mlen: usize = mat.len();
    let jlen: usize = jacs.len();
    let clen: usize = cols.len();
    let ilen: usize = inv_lhs.len();
    assert(0 <= num_envs * num_cons <= 0xffff_ffff * 0xffff_ffff) by (nonlinear_arith)
        requires
            0 <= num_envs <= 0xffff_ffff,
            0 <= num_cons <= 0xffff_ffff,
    ;
    if t as u64 >= num_envs as u64 * num_cons as u64 {
        return ;
    }
    let s: u32 = t / num_envs;
    let env: u32 = t % num_envs;
    let nn: usize = n as usize;
    let e: usize = num_envs as usize;
    proof {
        assert(s < num_cons && t == s * num_envs + env) by (nonlinear_arith)
            requires
                t < num_envs * num_cons,
                s == t / num_envs,
                env == t % num_envs,
                num_envs > 0,
                t >= 0,
        ;
        assert(0 <= s * n && (s * n + n) * num_envs <= num_cons * n * num_envs) by (nonlinear_arith)
            requires
                0 <= s,
                s + 1 <= num_cons,
                n >= 0,
                num_envs >= 0,
        ;
        lemma_ivec_fits(num_envs as int, env as int, s * n, n as int, jlen as int);
        lemma_ivec_fits(num_envs as int, env as int, s * n, n as int, clen as int);
        let k = n * n;
        assert(0 <= k && k * num_envs == n * n * num_envs) by (nonlinear_arith)
            requires
                k == n * n,
        ;
        if n > 0 {
            assert(n <= n * num_envs && n * num_envs <= k * num_envs) by (nonlinear_arith)
                requires
                    k == n * n,
                    n >= 1,
                    num_envs >= 1,
            ;
            lemma_imat_fits(num_envs as int, env as int, 0, n as int, n as int, mlen as int);
            assert(mbi_spec(num_envs as int, env as int, 0) == env);
            assert(s * n <= s * n * num_envs) by (nonlinear_arith)
                requires
                    s * n >= 0,
                    num_envs >= 1,
            ;
        }
    }
    let v = if n == 0 {
        VecView { base: 0, stride: e, len: 0 }
    } else {
        VecView { base: s as usize * nn * e + env as usize, stride: e, len: nn }
    };
    assert(v == ivec_spec(num_envs as int, env as int, s * n, n as int));
    let mv = MatView {
        base: env as usize,
        row_stride: e,
        col_stride: nn * e,
        nrows: nn,
        ncols: nn,
    };
    finalize_one(mat, jacs, cols, inv_lhs, parents, mv, v, t as usize);
}

/// Fed with the same factors, parents and jacobian, both layouts give the same
/// response and the same effective mass.
pub proof fn layouts_agree<S: Scalar>(
    factors: Seq<Seq<S>>,
    parents: Seq<u32>,
    jac: Seq<S>,
    env_major: (Seq<S>, S),
    interleaved: (Seq<S>, S),
)
    requires
        bench_solved(factors, parents, jac, env_major.0, env_major.1),
        bench_solved(factors, parents, jac, interleaved.0, interleaved.1),
    ensures
        env_major == interleaved,
{
}

} // verus!
