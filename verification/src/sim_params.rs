//! Simulation parameters and the softness of the constraints.
use crate::exact::exact;
use crate::scalar::{Scalar, max_flt, max_flt_spec, safe_div, safe_div_spec, two, two_spec};
use vstd::prelude::*;

verus! {

/// A full turn.
pub open spec fn two_pi_spec<S: Scalar>() -> S {
    S::dec_spec(628318531, (-8) as i32)
}

pub fn two_pi<S: Scalar>() -> (r: S)
    ensures
        r == two_pi_spec::<S>(),
{
    S::dec(628318531, -8)
}

/// Softness of the constraints over one time step.
#[derive(Clone, Copy)]
pub struct ConstraintSoftness<S: Scalar> {
    pub dt: S,
    pub inv_dt: S,
    /// Fraction of a contact's penetration to correct per unit of time.
    pub erp_inv_dt: S,
    /// Penetration that is left alone.
    pub allowed_lin_err: S,
    /// Bound on the corrective velocity of a contact.
    pub max_corr_velocity: S,
    /// Factor on the impulses of contacts.
    pub cfm_factor: S,
    /// Fraction of a joint's error to correct per unit of time.
    pub joint_erp_inv_dt: S,
    /// Compliance of a joint, relative to its effective mass.
    pub joint_cfm_coeff: S,
}

/// Parameters of a time step.
#[derive(Clone, Copy)]
pub struct RbdSimParams<S: Scalar> {
    /// Length of the step.
    pub dt: S,
    /// Damping ratio of the springs that stabilize contacts.
    pub contact_damping_ratio: S,
    /// Natural frequency of the springs that stabilize contacts.
    pub contact_natural_frequency: S,
    /// Natural frequency of the springs that stabilize joints.
    pub joint_natural_frequency: S,
    /// Damping ratio of the springs that stabilize joints.
    pub joint_damping_ratio: S,
    /// Factor on the impulses that a step starts from.
    pub warmstart_coefficient: S,
    /// Size of most objects; scales the lengths below.
    pub length_unit: S,
    /// Penetration that is left alone, per unit of length.
    pub normalized_allowed_linear_error: S,
    /// Bound on the corrective velocity, per unit of length.
    pub normalized_max_corrective_velocity: S,
    /// Distance of predicted contacts, per unit of length.
    pub normalized_prediction_distance: S,
    pub num_solver_iterations: u32,
}

/// The fraction of the error to correct per unit of time, for a spring of
/// angular frequency `freq` and damping ratio `damping`.
pub open spec fn erp_inv_dt_spec<S: Scalar>(freq: S, dt: S, damping: S) -> S {
    freq.over_spec(dt.times_spec(freq).plus_spec(two_spec::<S>().times_spec(damping)))
}

fn spring_erp_inv_dt<S: Scalar>(freq: S, dt: S, damping: S) -> (r: S)
    ensures
        r == erp_inv_dt_spec(freq, dt, damping),
{
    freq.over(dt.times(freq).plus(two::<S>().times(damping)))
}

/// The compliance of a spring that corrects the fraction `erp` of its error in
/// one step, relative to the effective mass.
pub open spec fn cfm_coeff_spec<S: Scalar>(erp: S, damping: S) -> S {
    let k = S::one_spec().over_spec(erp).minus_spec(S::one_spec());
    k.times_spec(k).over_spec(
        S::one_spec().plus_spec(k).times_spec(S::dec_spec(4, 0)).times_spec(damping).times_spec(
            damping,
        ),
    )
}

fn spring_cfm_coeff<S: Scalar>(erp: S, damping: S) -> (r: S)
    ensures
        r == cfm_coeff_spec(erp, damping),
{
    let k = S::one().over(erp).minus(S::one());
    k.times(k).over(S::one().plus(k).times(S::dec(4, 0)).times(damping).times(damping))
}

impl<S: Scalar> RbdSimParams<S> {
    /// The default parameters: a soft solver with warm starts.
    pub open spec fn tgs_soft_spec() -> Self {
        RbdSimParams {
            dt: S::one_spec().over_spec(S::dec_spec(60, 0)),
            contact_natural_frequency: S::dec_spec(30, 0),
            contact_damping_ratio: S::dec_spec(5, 0),
            joint_natural_frequency: S::dec_spec(1, 6),
            joint_damping_ratio: S::one_spec(),
            warmstart_coefficient: S::one_spec(),
            num_solver_iterations: 4,
            normalized_allowed_linear_error: S::dec_spec(1, (-3) as i32),
            normalized_max_corrective_velocity: S::dec_spec(10, 0),
            normalized_prediction_distance: S::dec_spec(2, (-3) as i32),
            length_unit: S::one_spec(),
        }
    }

    /// The default parameters: a soft solver with warm starts.
    pub fn tgs_soft() -> (r: Self)
        ensures
            r == Self::tgs_soft_spec(),
    {
        RbdSimParams {
            dt: S::one().over(S::dec(60, 0)),
            contact_natural_frequency: S::dec(30, 0),
            contact_damping_ratio: S::dec(5, 0),
            joint_natural_frequency: S::dec(1, 6),
            joint_damping_ratio: S::one(),
            warmstart_coefficient: S::one(),
            num_solver_iterations: 4,
            normalized_allowed_linear_error: S::dec(1, -3),
            normalized_max_corrective_velocity: S::dec(10, 0),
            normalized_prediction_distance: S::dec(2, -3),
            length_unit: S::one(),
        }
    }

    pub open spec fn inv_dt_spec(self) -> S {
        safe_div_spec(S::one_spec(), self.dt)
    }

    /// The reciprocal of the step length, zero for a step of length zero.
    pub fn inv_dt(&self) -> (r: S)
        ensures
            r == self.inv_dt_spec(),
    {
        safe_div(S::one(), self.dt)
    }

    pub open spec fn contact_angular_frequency_spec(self) -> S {
        self.contact_natural_frequency.times_spec(two_pi_spec())
    }

    /// Angular frequency of the springs that stabilize contacts.
    pub fn contact_angular_frequency(&self) -> (r: S)
        ensures
            r == self.contact_angular_frequency_spec(),
    {
        self.contact_natural_frequency.times(two_pi())
    }

    pub open spec fn contact_erp_inv_dt_spec(self) -> S {
        erp_inv_dt_spec(
            self.contact_angular_frequency_spec(),
            self.dt,
            self.contact_damping_ratio,
        )
    }

    /// Fraction of a contact's penetration to correct per unit of time.
    pub fn contact_erp_inv_dt(&self) -> (r: S)
        ensures
            r == self.contact_erp_inv_dt_spec(),
    {
        spring_erp_inv_dt(self.contact_angular_frequency(), self.dt, self.contact_damping_ratio)
    }

    pub open spec fn contact_erp_spec(self) -> S {
        self.dt.times_spec(self.contact_erp_inv_dt_spec())
    }

    /// Fraction of a contact's penetration to correct per step.
    pub fn contact_erp(&self) -> (r: S)
        ensures
            r == self.contact_erp_spec(),
    {
        self.dt.times(self.contact_erp_inv_dt())
    }

    pub open spec fn joint_angular_frequency_spec(self) -> S {
        self.joint_natural_frequency.times_spec(two_pi_spec())
    }

    /// Angular frequency of the springs that stabilize joints.
    pub fn joint_angular_frequency(&self) -> (r: S)
        ensures
            r == self.joint_angular_frequency_spec(),
    {
        self.joint_natural_frequency.times(two_pi())
    }

    pub open spec fn joint_erp_inv_dt_spec(self) -> S {
        erp_inv_dt_spec(self.joint_angular_frequency_spec(), self.dt, self.joint_damping_ratio)
    }

    /// Fraction of a joint's error to correct per unit of time.
    pub fn joint_erp_inv_dt(&self) -> (r: S)
        ensures
            r == self.joint_erp_inv_dt_spec(),
    {
        spring_erp_inv_dt(self.joint_angular_frequency(), self.dt, self.joint_damping_ratio)
    }

    pub open spec fn joint_erp_spec(self) -> S {
        self.dt.times_spec(self.joint_erp_inv_dt_spec())
    }

    /// Fraction of a joint's error to correct per step.
    pub fn joint_erp(&self) -> (r: S)
        ensures
            r == self.joint_erp_spec(),
    {
        self.dt.times(self.joint_erp_inv_dt())
    }

    pub open spec fn contact_cfm_factor_spec(self) -> S {
        let erp = self.contact_erp_spec();
        if erp.same_spec(S::zero_spec()) {
            S::zero_spec()
        } else {
            S::one_spec().over_spec(
                S::one_spec().plus_spec(cfm_coeff_spec(erp, self.contact_damping_ratio)),
            )
        }
    }

    /// Factor on the impulses of contacts.
    pub fn contact_cfm_factor(&self) -> (r: S)
        ensures
            r == self.contact_cfm_factor_spec(),
    {
        let erp = self.contact_erp();
        if erp.same(S::zero()) {
            return S::zero();
        }
        S::one().over(S::one().plus(spring_cfm_coeff(erp, self.contact_damping_ratio)))
    }

    pub open spec fn joint_cfm_coeff_spec(self) -> S {
        let erp = self.joint_erp_spec();
        if erp.same_spec(S::zero_spec()) {
            S::zero_spec()
        } else {
            cfm_coeff_spec(erp, self.joint_damping_ratio)
        }
    }

    /// Compliance of joints, relative to their effective mass.
    pub fn joint_cfm_coeff(&self) -> (r: S)
        ensures
            r == self.joint_cfm_coeff_spec(),
    {
        let erp = self.joint_erp();
        if erp.same(S::zero()) {
            return S::zero();
        }
        spring_cfm_coeff(erp, self.joint_damping_ratio)
    }

    pub open spec fn allowed_linear_error_spec(self) -> S {
        self.normalized_allowed_linear_error.times_spec(self.length_unit)
    }

    /// Penetration that is left alone.
    pub fn allowed_linear_error(&self) -> (r: S)
        ensures
            r == self.allowed_linear_error_spec(),
    {
        self.normalized_allowed_linear_error.times(self.length_unit)
    }

    pub open spec fn max_corrective_velocity_spec(self) -> S {
        if self.normalized_max_corrective_velocity.same_spec(max_flt_spec()) {
            max_flt_spec()
        } else {
            self.normalized_max_corrective_velocity.times_spec(self.length_unit)
        }
    }

    /// Bound on the corrective velocity. The largest number means no bound and
    /// does not scale.
    pub fn max_corrective_velocity(&self) -> (r: S)
        ensures
            r == self.max_corrective_velocity_spec(),
    {
        if self.normalized_max_corrective_velocity.same(max_flt()) {
            max_flt()
        } else {
            self.normalized_max_corrective_velocity.times(self.length_unit)
        }
    }

    pub open spec fn prediction_distance_spec(self) -> S {
        self.normalized_prediction_distance.times_spec(self.length_unit)
    }

    /// Distance of predicted contacts.
    pub fn prediction_distance(&self) -> (r: S)
        ensures
            r == self.prediction_distance_spec(),
    {
        self.normalized_prediction_distance.times(self.length_unit)
    }
}

impl<S: Scalar> Default for RbdSimParams<S> {
    fn default() -> (r: Self)
        ensures
            r == Self::tgs_soft_spec(),
    {
        Self::tgs_soft()
    }
}

impl<S: Scalar> ConstraintSoftness<S> {
    pub open spec fn from_params_spec(p: RbdSimParams<S>) -> Self {
        ConstraintSoftness {
            erp_inv_dt: p.contact_erp_inv_dt_spec(),
            cfm_factor: p.contact_cfm_factor_spec(),
            allowed_lin_err: p.allowed_linear_error_spec(),
            max_corr_velocity: p.max_corrective_velocity_spec(),
            inv_dt: p.inv_dt_spec(),
            joint_erp_inv_dt: p.joint_erp_inv_dt_spec(),
            joint_cfm_coeff: p.joint_cfm_coeff_spec(),
            dt: p.dt,
        }
    }

    /// The softness that belongs to the parameters of a step.
    pub fn from_params(params: &RbdSimParams<S>) -> (r: Self)
        ensures
            r == Self::from_params_spec(*params),
    {
        ConstraintSoftness {
            erp_inv_dt: params.contact_erp_inv_dt(),
            cfm_factor: params.contact_cfm_factor(),
            allowed_lin_err: params.allowed_linear_error(),
            max_corr_velocity: params.max_corrective_velocity(),
            inv_dt: params.inv_dt(),
            joint_erp_inv_dt: params.joint_erp_inv_dt(),
            joint_cfm_coeff: params.joint_cfm_coeff(),
            dt: params.dt,
        }
    }
}

/// In exact arithmetic a spring with positive parameters corrects more than
/// none and less than all of its error in one step.
pub proof fn erp_is_a_proper_fraction<S: Scalar>(
    v: spec_fn(S) -> real,
    freq: S,
    dt: S,
    damping: S,
)
    requires
        exact(v),
        v(two_spec::<S>()) == 2real,
        v(freq) > 0real,
        v(dt) > 0real,
        v(damping) > 0real,
    ensures
        0real < v(dt.times_spec(erp_inv_dt_spec(freq, dt, damping))) < 1real,
{
    let f = v(freq);
    let t = v(dt);
    let d = v(damping);
    let den = t * f + 2real * d;
    assert(t * f > 0real) by (nonlinear_arith)
        requires
            t > 0real,
            f > 0real,
    ;
    assert(v(dt.times_spec(freq).plus_spec(two_spec::<S>().times_spec(damping))) == den);
    assert(0real < t * (f / den) < 1real) by (nonlinear_arith)
        requires
            den == t * f + 2real * d,
            d > 0real,
            t * f > 0real,
    ;
}

/// In exact arithmetic the springs that stabilize contacts and joints are implicit
/// ones. For the stiffness `k == freq^2` and the damping `c == 2 damping freq` of a
/// unit mass, the correction rate is `k / (dt k + c)`, and the compliance that goes
/// with it `1 / (dt^2 k + dt c)`.
pub proof fn softness_is_an_implicit_spring<S: Scalar>(
    v: spec_fn(S) -> real,
    freq: S,
    dt: S,
    damping: S,
)
    requires
        exact(v),
        v(two_spec::<S>()) == 2real,
        v(S::dec_spec(4, 0)) == 4real,
        v(freq) > 0real,
        v(dt) > 0real,
        v(damping) > 0real,
    ensures
        ({
            let k = v(freq) * v(freq);
            let c = (2real * v(damping)) * v(freq);
            let rate = erp_inv_dt_spec(freq, dt, damping);
            let compliance = cfm_coeff_spec(dt.times_spec(rate), damping);
            &&& v(rate) * (v(dt) * k + c) == k
            &&& v(compliance) * ((v(dt) * v(dt)) * k + v(dt) * c) == 1real
        }),
{
    let f = v(freq);
    let t = v(dt);
    let z = v(damping);
    let a = t * f;
    let den = a + 2real * z;
    assert(0real < a) by (nonlinear_arith)
        requires
            0real < t,
            0real < f,
            a == t * f,
    ;
    let rate = erp_inv_dt_spec(freq, dt, damping);
    let r = v(rate);
    assert(r == f / den);
    assert(r * den == f) by (nonlinear_arith)
        requires
            r == f / den,
            0real < den,
    ;
    let k = f * f;
    let c = (2real * z) * f;
    assert(t * k + c == den * f) by (nonlinear_arith)
        requires
            k == f * f,
            c == (2real * z) * f,
            a == t * f,
            den == a + 2real * z,
    ;
    assert(r * (den * f) == (r * den) * f) by (nonlinear_arith);
    // The compliance.
    let e = t * r;
    assert(e * den == a) by (nonlinear_arith)
        requires
            e == t * r,
            r * den == f,
            a == t * f,
    ;
    assert(e != 0real) by {
        if e == 0real {
            assert(e * den == 0real) by (nonlinear_arith)
                requires
                    e == 0real,
            ;
        }
    }
    let ie = 1real / e;
    assert(ie * e == 1real) by (nonlinear_arith)
        requires
            ie == 1real / e,
            e != 0real,
    ;
    let g = ie - 1real;
    // a (1 + g) == den, so a g == 2 z.
    assert(a * ie == den) by (nonlinear_arith)
        requires
            e * den == a,
            ie * e == 1real,
    ;
    assert(a * g == 2real * z) by (nonlinear_arith)
        requires
            a * ie == den,
            g == ie - 1real,
            den == a + 2real * z,
    ;
    let y = v(cfm_coeff_spec(dt.times_spec(rate), damping));
    let d = (((1real + g) * 4real) * z) * z;
    let zz = z * z;
    assert(d == ie * (4real * zz)) by (nonlinear_arith)
        requires
            d == (((1real + g) * 4real) * z) * z,
            g == ie - 1real,
            zz == z * z,
    ;
    assert(0real < zz) by (nonlinear_arith)
        requires
            0real < z,
            zz == z * z,
    ;
    assert(0real < ie) by (nonlinear_arith)
        requires
            a * ie == den,
            0real < a,
            0real < den,
    ;
    assert(0real < d) by (nonlinear_arith)
        requires
            d == ie * (4real * zz),
            0real < ie,
            0real < zz,
    ;
    assert(y == (g * g) / d);
    let gg = g * g;
    assert(y * d == gg) by (nonlinear_arith)
        requires
            y == gg / d,
            0real < d,
    ;
    // Multiply by a a.
    let ag = a * g;
    assert((a * a) * gg == ag * ag) by (nonlinear_arith)
        requires
            gg == g * g,
            ag == a * g,
    ;
    assert(ag * ag == 4real * zz) by (nonlinear_arith)
        requires
            ag == 2real * z,
            zz == z * z,
    ;
    let q = 4real * zz;
    let m = y * (a * den);
    assert(m * q == q) by {
        let aie = a * ie;
        assert(m * q == (y * (ie * q)) * (a * a)) by (nonlinear_arith)
            requires
                m == y * (a * den),
                a * ie == den,
        ;
        assert((y * (ie * q)) * (a * a) == (a * a) * (y * d)) by (nonlinear_arith)
            requires
                d == ie * q,
        ;
    }
    assert(m == 1real) by (nonlinear_arith)
        requires
            m * q == q,
            0real < q,
    ;
    assert((t * t) * k + t * c == a * den) by (nonlinear_arith)
        requires
            k == f * f,
            c == (2real * z) * f,
            a == t * f,
            den == a + 2real * z,
    ;
}

/// In exact arithmetic the factor on a rigid contact step makes it a step with
/// compliance: for the compliance `c / m`, the effective mass `m` becomes
/// `m / (1 + c)`, and the impulse adds `c / m` times its size to the velocity.
pub proof fn cfm_factor_is_compliance<S: Scalar>(
    v: spec_fn(S) -> real,
    p: RbdSimParams<S>,
    old_impulse: real,
    m: real,
    dvel: real,
)
    requires
        exact(v),
        v(p.contact_erp_spec()) != 0real,
        v(cfm_coeff_spec(p.contact_erp_spec(), p.contact_damping_ratio)) >= 0real,
        m > 0real,
    ensures
        ({
            let c = v(cfm_coeff_spec(p.contact_erp_spec(), p.contact_damping_ratio));
            v(p.contact_cfm_factor_spec()) * (old_impulse - m * dvel) == old_impulse - (m / (1real
                + c)) * (dvel + (c / m) * old_impulse)
        }),
{
    let c = v(cfm_coeff_spec(p.contact_erp_spec(), p.contact_damping_ratio));
    lemma_compliance(old_impulse, m, dvel, c);
}

proof fn lemma_compliance(old_impulse: real, m: real, dvel: real, c: real)
    requires
        m > 0real,
        c >= 0real,
    ensures
        (1real / (1real + c)) * (old_impulse - m * dvel) == old_impulse - (m / (1real + c)) * (dvel
            + (c / m) * old_impulse),
{
    let k = 1real + c;
    let x = old_impulse;
    let lhs = (1real / k) * (x - m * dvel);
    let rhs = x - (m / k) * (dvel + (c / m) * x);
    assert(k * lhs == x - m * dvel) by (nonlinear_arith)
        requires
            k > 0real,
            lhs == (1real / k) * (x - m * dvel),
    ;
    let y = dvel + (c / m) * x;
    assert(m * y == m * dvel + c * x) by (nonlinear_arith)
        requires
            m > 0real,
            y == dvel + (c / m) * x,
    ;
    assert(k * ((m / k) * y) == m * y) by (nonlinear_arith)
        requires
            k > 0real,
    ;
    assert(k * rhs == k * x - m * y) by (nonlinear_arith)
        requires
            k * ((m / k) * y) == m * y,
            rhs == x - (m / k) * y,
    ;
    assert(k * x == x + c * x) by (nonlinear_arith)
        requires
            k == 1real + c,
    ;
    assert(lhs == rhs) by (nonlinear_arith)
        requires
            k * lhs == k * rhs,
            k > 0real,
    ;
}

} // verus!
