//! The interest model: a yearly rate that rises with utilization, faster beyond a target.
use vstd::prelude::*;
use crate::decimal::{lemma_scaled_down, mul_div, multiply_ratio, one, Decimal, ONE};

verus! {

/// A rate curve with a kink at the target utilization.
#[derive(Clone, Copy, Debug, PartialEq, Eq, Structural)]
pub struct Interest {
    pub target_utilization: Decimal,
    /// The rate at zero utilization.
    pub base_rate: Decimal,
    /// What the target utilization adds to the base rate.
    pub step1: Decimal,
    /// What full utilization adds to that.
    pub step2: Decimal,
}

/// Each part of a rate is at most its step, and so the rate at most the rate at full utilization.
pub proof fn lemma_rate_parts(interest: Interest, utilization: nat)
    requires
        interest.wf(),
        utilization <= one(),
    ensures
        interest.way_to_target(utilization) <= one(),
        interest.below_target(utilization) <= interest.step1.atomics,
        utilization > interest.target_utilization.atomics ==> interest.way_beyond(utilization) <= one(),
        interest.above_target(utilization) <= interest.step2.atomics,
        interest.base_rate.atomics <= interest.rate(utilization) <= interest.ceiling(),
{
    let target = interest.target_utilization.atomics as nat;
    let (step1, step2) = (interest.step1.atomics as nat, interest.step2.atomics as nat);
    let used = if utilization < target { utilization } else { target };
    let way = interest.way_to_target(utilization);
    assert(used * one() / target <= one()) by (nonlinear_arith)
        requires used <= target, 0 < target;
    lemma_scaled_down(step1, way);
    assert(way * step1 == step1 * way) by (nonlinear_arith);
    if utilization > target {
        let (over, room) = ((utilization - target) as nat, (one() - target) as nat);
        let beyond = interest.way_beyond(utilization);
        assert(over * one() / room <= one()) by (nonlinear_arith)
            requires over <= room, 0 < room;
        lemma_scaled_down(step2, beyond);
        assert(beyond * step2 == step2 * beyond) by (nonlinear_arith);
    }
}

impl Interest {
    /// The text that refuses the model; nothing where the model is valid.
    pub open spec fn fault(self) -> Option<Seq<char>> {
        if self.step2.atomics <= self.step1.atomics {
            Some("step2 must be > step1"@)
        } else if self.target_utilization.atomics == 0 {
            Some("target_utilization must be > 0"@)
        } else if self.target_utilization.atomics >= one() {
            Some("target_utilization must be < 1"@)
        } else {
            None
        }
    }

    /// The second step is above the first, and the target lies strictly between zero and one.
    pub open spec fn wf(self) -> bool {
        &&& self.step1.atomics < self.step2.atomics
        &&& 0 < self.target_utilization.atomics < one()
    }

    /// How far the utilization is on its way from zero to the target; one beyond it.
    pub open spec fn way_to_target(self, utilization: nat) -> nat {
        let target = self.target_utilization.atomics as nat;
        let used = if utilization < target {
            utilization
        } else {
            target
        };
        mul_div(used, one(), target)
    }

    /// How far a utilization above the target is on its way from the target to one.
    pub open spec fn way_beyond(self, utilization: nat) -> nat {
        let target = self.target_utilization.atomics as nat;
        mul_div((utilization - target) as nat, one(), (one() - target) as nat)
    }

    /// The first step, in proportion to how far the utilization is on its way to the target.
    pub open spec fn below_target(self, utilization: nat) -> nat {
        mul_div(self.way_to_target(utilization), self.step1.atomics as nat, one())
    }

    /// The second step, in proportion to how far the utilization is from the target to one.
    pub open spec fn above_target(self, utilization: nat) -> nat {
        if utilization <= self.target_utilization.atomics {
            0
        } else {
            mul_div(self.way_beyond(utilization), self.step2.atomics as nat, one())
        }
    }

    /// The yearly rate at a utilization.
    pub open spec fn rate(self, utilization: nat) -> nat {
        self.base_rate.atomics as nat + self.below_target(utilization) + self.above_target(
            utilization,
        )
    }

    /// The rate at full utilization.
    pub open spec fn ceiling(self) -> nat {
        (self.base_rate.atomics + self.step1.atomics + self.step2.atomics) as nat
    }

    /// Whether the model is valid, and if not, why.
    ///
    /// Calls `rujira_rs::ghost::vault::Interest::validate`, which reports as a generic error the
    /// first of three conditions that fails.
    #[verifier::external_body]
    pub(crate) fn validate(&self) -> (r: Result<(), String>)
        ensures
            match r {
                Ok(()) => self.fault() is None,
                Err(message) => self.fault() == Some(message@),
            },
    {
        let interest = rujira_rs::ghost::vault::Interest {
            target_utilization: cosmwasm_std::Decimal::raw(self.target_utilization.atomics),
            base_rate: cosmwasm_std::Decimal::raw(self.base_rate.atomics),
            step1: cosmwasm_std::Decimal::raw(self.step1.atomics),
            step2: cosmwasm_std::Decimal::raw(self.step2.atomics),
        };
        interest.validate().map_err(|e| match e {
            cosmwasm_std::StdError::GenericErr { msg, .. } => msg,
            other => other.to_string(),
        })
    }

    /// Whether the yearly rate at a utilization is in the range of a decimal.
    pub(crate) fn rate_fits(&self, utilization: u128) -> (r: bool)
        requires
            self.wf(),
            utilization <= one(),
        ensures
            r == (self.rate(utilization as nat) <= u128::MAX),
    {
        proof {
            lemma_rate_parts(*self, utilization as nat);
        }
        let target: u128 = self.target_utilization.atomics;
        let used: u128 = if utilization < target {
            utilization
        } else {
            target
        };
        let way: u128 = multiply_ratio(used, ONE, target).unwrap();
        let below: u128 = multiply_ratio(way, self.step1.atomics, ONE).unwrap();
        let above: u128 = if utilization <= target {
            0
        } else {
            let beyond: u128 = multiply_ratio(utilization - target, ONE, ONE - target).unwrap();
            multiply_ratio(beyond, self.step2.atomics, ONE).unwrap()
        };
        match self.base_rate.atomics.checked_add(below) {
            None => false,
            Some(partial) => partial.checked_add(above).is_some(),
        }
    }

    /// The yearly rate at a utilization of at most one.
    ///
    /// Calls `rujira_rs::ghost::vault::Interest::rate`, which refuses a utilization above one and
    /// computes the rate as `Interest::rate` says. Its decimal arithmetic panics on a target of
    /// zero or above one, and on a rate that leaves the range of a decimal.
    #[verifier::external_body]
    pub(crate) fn rate_at(&self, utilization: u128) -> (r: Option<u128>)
        requires
            self.wf(),
            utilization <= one() ==> self.rate(utilization as nat) <= u128::MAX,
        ensures
            match r {
                Some(rate) => utilization <= one() && rate == self.rate(utilization as nat),
                None => utilization > one(),
            },
    {
        let interest = rujira_rs::ghost::vault::Interest {
            target_utilization: cosmwasm_std::Decimal::raw(self.target_utilization.atomics),
            base_rate: cosmwasm_std::Decimal::raw(self.base_rate.atomics),
            step1: cosmwasm_std::Decimal::raw(self.step1.atomics),
            step2: cosmwasm_std::Decimal::raw(self.step2.atomics),
        };
        let rate = interest.rate(cosmwasm_std::Decimal::raw(utilization));
        rate.ok().map(|r| r.atomics().u128())
    }
}

} // verus!
