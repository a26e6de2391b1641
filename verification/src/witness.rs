//! Whether the witness of a ledger fulfils its constraints.
//!
//! The ledger keeps integers. A prime field of modulus `p` reads them modulo
//! `p`, and so does the check here, for the modulus that its caller supplies.
//! A witness that fulfils the constraints over the integers fulfils them
//! modulo every modulus.

use crate::errors::SynthesisError;
use crate::ledger::{
    combination_value, lemma_value_push, term_value, wire_value, ConstraintLedger, LedgerModel,
    Term,
};
use vstd::arithmetic::div_mod::{
    lemma_add_mod_noop, lemma_fundamental_div_mod, lemma_fundamental_div_mod_converse,
    lemma_mod_bound, lemma_mod_equivalence, lemma_mul_mod_noop, lemma_small_mod,
};
use vstd::prelude::*;

verus! {

/// A witness that fulfils every constraint over the integers fulfils every
/// constraint modulo `modulus`.
pub proof fn lemma_satisfied_modulo(ledger: LedgerModel, modulus: int)
    requires
        ledger.satisfied(),
        modulus > 0,
    ensures
        ledger.satisfied_modulo(modulus),
{
    assert forall|i: int| 0 <= i < ledger.constraints.len() implies (
    #[trigger] ledger.constraints[i]).holds_modulo(ledger.values, modulus) by {
        let k = ledger.constraints[i];
        assert(k.holds(ledger.values));
        lemma_small_mod(0, modulus as nat);
    }
}

/// The remainder of `x` modulo `modulus`, between zero and the modulus.
fn residue(x: i128, modulus: u64) -> (r: u64)
    requires
        modulus > 0,
    ensures
        r == (x as int) % (modulus as int),
        r < modulus,
{
    let p = modulus as u128;
    proof {
        lemma_mod_bound(x as int, modulus as int);
    }
    if x >= 0 {
        ((x as u128) % p) as u64
    } else {
        let y: u128 = (-(x + 1)) as u128;
        let m = y % p;
        proof {
            let q = (y as int) / (p as int);
            lemma_fundamental_div_mod(y as int, p as int);
            lemma_mod_bound(y as int, p as int);
            assert(y == p * q + m);
            assert(x as int == (-(q + 1)) * p + (p - 1 - m)) by (nonlinear_arith)
                requires
                    x as int == -(y as int) - 1,
                    y as int == p * q + m,
            ;
            lemma_fundamental_div_mod_converse(x as int, p as int, -(q + 1), p - 1 - m);
        }
        (p - 1 - m) as u64
    }
}

/// The value of a linear combination under the witness of the ledger, modulo `modulus`.
fn combination_residue(ledger: &ConstraintLedger, terms: &Vec<Term>, modulus: u64) -> (r: u64)
    requires
        modulus > 0,
    ensures
        r == combination_value(terms@, ledger@.values) % (modulus as int),
        r < modulus,
{
    let p = modulus as u128;
    let mut total: u64 = 0;
    let mut k: usize = 0;
    proof {
        assert(terms@.take(0) =~= Seq::<Term>::empty());
        lemma_small_mod(0, modulus as nat);
    }
    while k < terms.len()
        invariant
            k <= terms.len(),
            modulus > 0,
            p == modulus,
            total < modulus,
            total == combination_value(terms@.take(k as int), ledger@.values) % (modulus as int),
        decreases terms.len() - k,
    {
        let term = terms[k];
        let witness: i128 = match ledger.value(term.variable) {
            Some(v) => v,
            None => 0,
        };
        let c = residue(term.coefficient, modulus) as u128;
        let v = residue(witness, modulus) as u128;
        assert(c * v < 0x1_0000_0000_0000_0000 * 0x1_0000_0000_0000_0000) by (nonlinear_arith)
            requires
                c < 0x1_0000_0000_0000_0000,
                v < 0x1_0000_0000_0000_0000,
        ;
        let product = (c * v) % p;
        proof {
            let m = modulus as int;
            let before = combination_value(terms@.take(k as int), ledger@.values);
            let here = term_value(term, ledger@.values);
            assert(witness == wire_value(ledger@.values, term.variable));
            assert(terms@.take(k + 1) =~= terms@.take(k as int).push(term));
            lemma_value_push(terms@.take(k as int), term, ledger@.values);
            lemma_mul_mod_noop(term.coefficient as int, witness as int, m);
            lemma_add_mod_noop(before, here, m);
            lemma_mod_bound(here, m);
        }
        total = ((total as u128 + product) % p) as u64;
        k = k + 1;
    }
    assert(terms@.take(terms@.len() as int) =~= terms@);
    total
}

impl ConstraintLedger {
    /// Whether the witness is complete and fulfils every constraint in the
    /// integers modulo `modulus`. No witness fulfils anything modulo zero.
    pub fn is_satisfied(&self, modulus: u64) -> (r: bool)
        ensures
            modulus > 0 ==> r == self@.satisfied_modulo(modulus as int),
            modulus == 0 ==> !r,
    {
        if modulus == 0 {
            return false;
        }
        let mut w: usize = 0;
        while w < self.num_variables()
            invariant
                w <= self@.values.len(),
                forall|i: int| 0 <= i < w ==> (#[trigger] self@.values[i]) is Some,
            decreases self@.values.len() - w,
        {
            if self.value(w).is_none() {
                assert(!self@.complete());
                return false;
            }
            w = w + 1;
        }
        let p = modulus as u128;
        let mut i: usize = 0;
        while i < self.num_constraints()
            invariant
                i <= self@.constraints.len(),
                modulus > 0,
                p == modulus,
                self@.complete(),
                forall|j: int|
                    0 <= j < i ==> (#[trigger] self@.constraints[j]).holds_modulo(
                        self@.values,
                        modulus as int,
                    ),
            decreases self@.constraints.len() - i,
        {
            let constraint = self.constraint(i);
            let a = combination_residue(self, &constraint.a.terms, modulus) as u128;
            let b = combination_residue(self, &constraint.b.terms, modulus) as u128;
            let c = combination_residue(self, &constraint.c.terms, modulus) as u128;
            assert(a * b < 0x1_0000_0000_0000_0000 * 0x1_0000_0000_0000_0000) by (nonlinear_arith)
                requires
                    a < 0x1_0000_0000_0000_0000,
                    b < 0x1_0000_0000_0000_0000,
            ;
            let holds = (a * b) % p == c;
            proof {
                let m = modulus as int;
                let k = self@.constraints[i as int];
                let x = combination_value(k.a, self@.values);
                let y = combination_value(k.b, self@.values);
                let z = combination_value(k.c, self@.values);
                lemma_mul_mod_noop(x, y, m);
                lemma_mod_equivalence(x * y, z, m);
                assert(holds == k.holds_modulo(self@.values, m));
            }
            if !holds {
                return false;
            }
            i = i + 1;
        }
        true
    }

    /// The outcome of a finished synthesis, read in the field of the modulus
    /// `modulus`: `Unsatisfiable` where the witness of the ledger does not
    /// fulfil every constraint. A witness that fulfils the constraints over
    /// the integers is never reported as unsatisfiable.
    pub fn verdict(&self, modulus: u64) -> (r: Result<(), SynthesisError>)
        ensures
            r is Ok <==> modulus > 0 && self@.satisfied_modulo(modulus as int),
            r matches Err(e) ==> e == SynthesisError::Unsatisfiable,
            modulus > 0 && self@.satisfied() ==> r is Ok,
    {
        proof {
            if modulus > 0 && self@.satisfied() {
                lemma_satisfied_modulo(self@, modulus as int);
            }
        }
        if self.is_satisfied(modulus) {
            Ok(())
        } else {
            Err(SynthesisError::Unsatisfiable)
        }
    }
}

} // verus!
