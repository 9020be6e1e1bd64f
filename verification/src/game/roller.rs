use vstd::arithmetic::power::{lemma_pow_positive, pow};
use vstd::prelude::*;

verus! {

broadcast use vstd::array::group_array_axioms;

/// The base-`s` value of a roll: its faces read left to right are the
/// digits (each offset by one, so face `1` is digit zero) of a number
/// written in base `s`.
pub open spec fn roll_value(r: Seq<u8>, s: u8) -> int
    decreases r.len(),
{
    if r.len() == 0 {
        0
    } else {
        roll_value(r.drop_last(), s) * (s as int) + (r.last() - 1)
    }
}

/// Every face of the roll lies in `1 ..= s`.
pub open spec fn roll_in_range(r: Seq<u8>, s: u8) -> bool {
    forall|j: int| 0 <= j < r.len() ==> 1 <= #[trigger] r[j] && r[j] <= s
}

/// A roll showing face `1` everywhere has value zero.
proof fn lemma_roll_value_all_ones(r: Seq<u8>, s: u8)
    requires
        forall|j: int| 0 <= j < r.len() ==> #[trigger] r[j] == 1,
    ensures
        roll_value(r, s) == 0,
    decreases r.len(),
{
    if r.len() > 0 {
        lemma_roll_value_all_ones(r.drop_last(), s);
    }
}

/// An in-range roll's value lies below `s` to the power of its length.
proof fn lemma_roll_value_bounds(r: Seq<u8>, s: u8)
    requires
        s >= 1,
        roll_in_range(r, s),
    ensures
        0 <= roll_value(r, s) < pow(s as int, r.len() as nat),
    decreases r.len(),
{
    reveal(pow);
    if r.len() > 0 {
        lemma_roll_value_bounds(r.drop_last(), s);
        let v = roll_value(r.drop_last(), s);
        let p = pow(s as int, (r.len() - 1) as nat);
        let d = r.last() - 1;
        assert(pow(s as int, r.len() as nat) == (s as int) * p);
        assert(0 <= v * (s as int) + d && v * (s as int) + d < p * (s as int))
            by (nonlinear_arith)
            requires
                0 <= v,
                v <= p - 1,
                0 <= d,
                d < s as int,
        ;
        assert(p * (s as int) == (s as int) * p) by (nonlinear_arith);
    }
}

/// A roll showing face `s` everywhere has the largest in-range value,
/// `s` to the power of its length, minus one.
proof fn lemma_roll_value_all_max(r: Seq<u8>, s: u8)
    requires
        s >= 1,
        forall|j: int| 0 <= j < r.len() ==> #[trigger] r[j] == s,
    ensures
        roll_value(r, s) == pow(s as int, r.len() as nat) - 1,
    decreases r.len(),
{
    reveal(pow);
    if r.len() > 0 {
        lemma_roll_value_all_max(r.drop_last(), s);
        let p = pow(s as int, (r.len() - 1) as nat);
        assert(pow(s as int, r.len() as nat) == (s as int) * p);
        assert((p - 1) * (s as int) + ((s as int) - 1) == (s as int) * p - 1) by (nonlinear_arith);
    }
}

/// Odometer step: raising face `i` by one while resetting every later face
/// from `s` back to `1` adds exactly one to the roll's value.
proof fn lemma_roll_increment(r0: Seq<u8>, r1: Seq<u8>, s: u8, i: int)
    requires
        s >= 1,
        r0.len() == r1.len(),
        0 <= i < r0.len(),
        roll_in_range(r0, s),
        r0[i] < s,
        forall|j: int| 0 <= j < i ==> #[trigger] r1[j] == r0[j],
        r1[i] == r0[i] + 1,
        forall|j: int| i < j < r0.len() ==> #[trigger] r0[j] == s,
        forall|j: int| i < j < r1.len() ==> #[trigger] r1[j] == 1,
    ensures
        roll_value(r1, s) == roll_value(r0, s) + 1,
        roll_in_range(r1, s),
    decreases r0.len(),
{
    if i == r0.len() - 1 {
        assert(r1.drop_last() =~= r0.drop_last());
    } else {
        lemma_roll_increment(r0.drop_last(), r1.drop_last(), s, i);
        let v0 = roll_value(r0.drop_last(), s);
        assert((v0 + 1) * (s as int) == v0 * (s as int) + (s as int)) by (nonlinear_arith);
    }
}

/// Enumerates every roll of `D` dice whose faces run from `1` to `S`: the
/// table lists all `S` to the power `D` rolls in ascending base-`S` order.
pub struct Roller<const D: usize, const S: u8> {
    pub rolls: Vec<[u8; D]>,
}

impl<const D: usize, const S: u8> Roller<D, S> {
    /// Builds the full roll table by running an odometer over the faces:
    /// position `k` holds the unique in-range roll whose base-`S` value
    /// is `k`.
    #[verifier::loop_isolation(false)]
    pub fn new() -> (roller: Roller<D, S>)
        requires
            D >= 1,
            S >= 1,
            pow(S as int, D as nat) <= usize::MAX,
        ensures
            roller.rolls@.len() == pow(S as int, D as nat),
            forall|k: int|
                0 <= k < roller.rolls@.len() ==> roll_in_range((#[trigger] roller.rolls@[k])@, S)
                    && roll_value(roller.rolls@[k]@, S) == k,
    {
        let mut rolls: Vec<[u8; D]> = Vec::new();
        let mut roll: [u8; D] = [1u8; D];
        proof {
            lemma_roll_value_all_ones(roll@, S);
            lemma_pow_positive(S as int, D as nat);
        }
        loop
            invariant
                roll_in_range(roll@, S),
                rolls@.len() == roll_value(roll@, S),
                rolls@.len() < pow(S as int, D as nat),
                forall|k: int|
                    0 <= k < rolls@.len() ==> roll_in_range((#[trigger] rolls@[k])@, S)
                        && roll_value(rolls@[k]@, S) == k,
            decreases pow(S as int, D as nat) - rolls@.len(),
        {
            rolls.push(roll);
            let ghost prev = roll@;
            let mut i: usize = D - 1;
            while roll[i] == S && i > 0
                invariant
                    i < D,
                    forall|j: int| i < j < D ==> #[trigger] roll@[j] == S,
                decreases i,
            {
                i = i - 1;
            }
            if roll[i] < S {
                roll[i] = roll[i] + 1;
                let mut j: usize = i + 1;
                while j < D
                    invariant
                        i < j <= D,
                        forall|k: int| 0 <= k < i ==> #[trigger] roll@[k] == prev[k],
                        roll@[i as int] == prev[i as int] + 1,
                        forall|k: int| i < k < j ==> #[trigger] roll@[k] == 1,
                        forall|k: int| j <= k < D ==> #[trigger] roll@[k] == prev[k],
                    decreases D - j,
                {
                    roll[j] = 1;
                    j = j + 1;
                }
                proof {
                    lemma_roll_increment(prev, roll@, S, i as int);
                    lemma_roll_value_bounds(roll@, S);
                }
            } else {
                proof {
                    lemma_roll_value_all_max(roll@, S);
                }
                return Roller { rolls };
            }
        }
    }

    /// Picks the roll at `draw` reduced modulo the table size, so any
    /// uniformly drawn `draw` picks a uniform roll; the caller supplies
    /// `draw` from whatever randomness source it uses.
    pub fn get_roll(&self, draw: usize) -> (r: [u8; D])
        requires
            self.rolls@.len() >= 1,
        ensures
            r == self.rolls@[draw as int % self.rolls@.len() as int],
    {
        let index = draw % self.rolls.len();
        self.rolls[index]
    }
}

} // verus!
