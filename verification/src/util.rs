//! Random sampling. Every draw comes from an explicit, caller-owned
//! generator, so a whole render is a pure function of its seed and two
//! runs with the same seed produce identical images.

use vstd::prelude::*;
use crate::fx;
use crate::vec3::{Vec3, len_sq_raw};

verus! {

/// How a draw advances the generator state.
pub open spec fn next_state_spec(s: u64) -> u64 {
    vstd::wrapping::u64_specs::wrapping_add(s, 0x9E3779B97F4A7C15)
}

/// The output word of one draw: the advanced state sent through two
/// multiply-xor-shift mixing rounds.
#[verifier::opaque]
pub open spec fn output_spec(s: u64) -> u64 {
    let z0 = next_state_spec(s);
    let z1 = vstd::wrapping::u64_specs::wrapping_mul(z0 ^ (z0 >> 30u64), 0xBF58476D1CE4E5B9);
    let z2 = vstd::wrapping::u64_specs::wrapping_mul(z1 ^ (z1 >> 27u64), 0x94D049BB133111EB);
    z2 ^ (z2 >> 31u64)
}

/// A jitter draw: the top sixteen output bits, a scalar in `[0, ONE)`.
pub open spec fn unit_draw_spec(s: u64) -> int {
    (output_spec(s) >> 48u64) as int
}

/// A symmetric draw: a scalar in `[-ONE, ONE]`.
pub open spec fn sym_draw_spec(s: u64) -> int {
    (output_spec(s) % 131073) as int - 65536
}

/// A free-flight draw: a scalar in `[1, ONE]`, so exactly zero is never
/// drawn and its logarithm is always defined.
pub open spec fn pos_unit_draw_spec(s: u64) -> int {
    (output_spec(s) % 65536) as int + 1
}

/// A splittable counter-based generator: the state walks a fixed odd
/// stride and each output is a mix of the new state.
pub struct Rng {
    pub state: u64,
}

/// Relies on rand::random: one draw from the operating-system-seeded
/// thread generator. The value depends on ambient entropy, so nothing
/// is promised of it; whoever consumes it must hold for every outcome.
#[verifier::external_body]
fn entropy_seed() -> u64 {
    rand::random()
}

impl Rng {
    pub fn new(seed: u64) -> (r: Rng)
        ensures
            r.state == seed,
    {
        Rng { state: seed }
    }

    /// A generator seeded from ambient entropy. Renders driven by it
    /// are not reproducible; for a repeatable image, seed `new`
    /// explicitly.
    pub fn from_entropy() -> (r: Rng)
    {
        Rng { state: entropy_seed() }
    }

    /// One raw draw.
    pub fn next_u64(&mut self) -> (r: u64)
        ensures
            final(self).state == next_state_spec(old(self).state),
            r == output_spec(old(self).state),
    {
        proof {
            reveal(output_spec);
        }
        self.state = self.state.wrapping_add(0x9E3779B97F4A7C15);
        let z0: u64 = self.state;
        let z1: u64 = (z0 ^ (z0 >> 30u64)).wrapping_mul(0xBF58476D1CE4E5B9);
        let z2: u64 = (z1 ^ (z1 >> 27u64)).wrapping_mul(0x94D049BB133111EB);
        z2 ^ (z2 >> 31u64)
    }

    /// A fixed-point scalar uniform over `[0, ONE)`.
    pub fn next_unit(&mut self) -> (r: i64)
        ensures
            final(self).state == next_state_spec(old(self).state),
            r == unit_draw_spec(old(self).state),
            0 <= r < fx::ONE,
    {
        let w: u64 = self.next_u64();
        proof {
            assert(w >> 48u64 < 65536) by (bit_vector);
        }
        (w >> 48u64) as i64
    }

    /// A fixed-point scalar uniform over `[-ONE, ONE]`.
    pub fn next_sym(&mut self) -> (r: i64)
        ensures
            final(self).state == next_state_spec(old(self).state),
            r == sym_draw_spec(old(self).state),
            -fx::ONE <= r <= fx::ONE,
    {
        let w: u64 = self.next_u64();
        (w % 131073) as i64 - 65536
    }

    /// A fixed-point scalar uniform over `[1, ONE]`: never zero, so a
    /// free-flight length `-ln(u)` is always defined.
    pub fn next_pos_unit(&mut self) -> (r: i64)
        ensures
            final(self).state == next_state_spec(old(self).state),
            r == pos_unit_draw_spec(old(self).state),
            1 <= r <= fx::ONE,
    {
        let w: u64 = self.next_u64();
        (w % 65536) as i64 + 1
    }
}

/// What `rand_in_square` returns: two jitter coordinates and the state
/// after both draws.
pub open spec fn square_draw_spec(s: u64) -> (int, int, u64) {
    let s1 = next_state_spec(s);
    (unit_draw_spec(s), unit_draw_spec(s1), next_state_spec(s1))
}

/// A jitter offset uniform in the unit square `[0, 1) x [0, 1)`.
pub fn rand_in_square(rng: &mut Rng) -> (r: (i64, i64))
    ensures
        r.0 == square_draw_spec(old(rng).state).0,
        r.1 == square_draw_spec(old(rng).state).1,
        final(rng).state == square_draw_spec(old(rng).state).2,
        0 <= r.0 < fx::ONE,
        0 <= r.1 < fx::ONE,
{
    let a: i64 = rng.next_unit();
    let b: i64 = rng.next_unit();
    (a, b)
}

/// How many attempts rejection sampling makes before falling back to a
/// fixed direction; the chance of exhausting them is negligible.
pub const BALL_TRIES: u32 = 32;

/// One candidate for a point in the unit ball: three symmetric draws.
pub open spec fn ball_candidate_spec(s: u64) -> (Vec3, u64) {
    let s1 = next_state_spec(s);
    let s2 = next_state_spec(s1);
    let v = Vec3 {
        x: sym_draw_spec(s) as i64,
        y: sym_draw_spec(s1) as i64,
        z: sym_draw_spec(s2) as i64,
    };
    (v, next_state_spec(s2))
}

/// A candidate is kept when it lies in the unit ball but is not so short
/// that normalizing it would lose all precision.
pub open spec fn ball_ok(v: Vec3) -> bool {
    &&& len_sq_raw(v) < (fx::ONE as int) * (fx::ONE as int)
    &&& len_sq_raw(v) >= crate::ray::MIN_DIR_SQ as int
}

/// The rejection loop as a function of the state and remaining tries.
pub open spec fn ball_draw_spec(s: u64, k: nat) -> (Vec3, u64)
    decreases k,
{
    if k == 0 {
        (Vec3 { x: 32768i64, y: 0i64, z: 0i64 }, s)
    } else {
        let (v, s3) = ball_candidate_spec(s);
        if ball_ok(v) {
            (v, s3)
        } else {
            ball_draw_spec(s3, (k - 1) as nat)
        }
    }
}

/// A random point inside the unit ball, by rejection sampling of the
/// enclosing cube, never degenerately close to the origin. After an
/// (astronomically unlikely) run of rejections a fixed half-unit vector
/// is returned so the function stays total.
#[verifier::rlimit(60)]
pub fn rand_unit_vec(rng: &mut Rng) -> (r: Vec3)
    ensures
        r == ball_draw_spec(old(rng).state, BALL_TRIES as nat).0,
        final(rng).state == ball_draw_spec(old(rng).state, BALL_TRIES as nat).1,
        ball_ok(r),
        r.bounded(fx::ONE as int),
{
    let ghost s0 = rng.state;
    let mut k: u32 = BALL_TRIES;
    proof {
        assert((fx::ONE as int) * (fx::ONE as int) == 0x1_0000_0000) by (nonlinear_arith);
        assert(ball_ok(Vec3 { x: 32768i64, y: 0i64, z: 0i64 })) by {
            assert(32768int * 32768 + 0 * 0 + 0 * 0 == 0x4000_0000) by (nonlinear_arith);
        }
    }
    while k > 0
        invariant
            s0 == old(rng).state,
            ball_draw_spec(s0, BALL_TRIES as nat) == ball_draw_spec(rng.state, k as nat),
            k <= BALL_TRIES,
        decreases k,
    {
        let ghost s_in = rng.state;
        let x: i64 = rng.next_sym();
        let y: i64 = rng.next_sym();
        let z: i64 = rng.next_sym();
        let v = Vec3 { x, y, z };
        proof {
            assert((fx::ONE as int) * (fx::ONE as int) == 0x1_0000_0000) by (nonlinear_arith);
            assert(ball_candidate_spec(s_in).0 == v);
            assert(ball_candidate_spec(s_in).1 == rng.state);
            assert(ball_draw_spec(s_in, k as nat) == if ball_ok(v) {
                (v, rng.state)
            } else {
                ball_draw_spec(rng.state, (k - 1) as nat)
            });
        }
        let lsq: i128 = v.length_squared_raw();
        if lsq < (fx::ONE as i128) * (fx::ONE as i128) && lsq >= crate::ray::MIN_DIR_SQ as i128 {
            return v;
        }
        k = k - 1;
    }
    Vec3 { x: 32768, y: 0, z: 0 }
}

} // verus!
