use vstd::prelude::*;

use crate::random::FRACTION_SCALE;

verus! {

/// The fixed parameters of one run.
#[derive(Copy, Clone, Debug)]
pub struct Config {
    /// Columns of the grid, walls included.
    pub width: usize,
    /// Rows of the grid, walls included.
    pub height: usize,
    /// Goals placed on each new grid.
    pub n_goals: usize,
    pub n_generations: u32,
    /// Trials per evaluation of a policy.
    pub n_trials: u32,
    /// Steps per trial.
    pub n_steps: u32,
    /// Policies in the population after each generation.
    pub population_size: usize,
    /// Policies that survive each selection.
    pub selection_size: usize,
    /// The mutation probability as a numerator over `FRACTION_SCALE`: a
    /// state mutates when its mutate draw is below it.
    pub mutation_threshold: u32,
}

impl Config {
    /// A configuration with which a run can go through.
    pub open spec fn wf(&self) -> bool {
        &&& self.width >= 4
        &&& self.height >= 4
        &&& self.width * self.height <= usize::MAX
        &&& self.n_goals <= (self.width - 2) * (self.height - 2)
        &&& self.n_trials >= 1
        &&& self.n_trials * self.n_steps <= u32::MAX
        &&& 1 <= self.selection_size <= self.population_size
        &&& self.mutation_threshold <= FRACTION_SCALE
    }

    /// Whether the configuration is one with which a run can go through.
    pub fn is_valid(&self) -> (b: bool)
        ensures
            b == self.wf(),
    {
        if self.width < 4 || self.height < 4 {
            return false;
        }
        match self.width.checked_mul(self.height) {
            None => {
                return false;
            },
            Some(_) => {},
        }
        proof {
            assert((self.width - 2) * (self.height - 2) <= self.width * self.height)
                by (nonlinear_arith)
                requires
                    self.width >= 4,
                    self.height >= 4,
            ;
        }
        let interior = (self.width - 2) * (self.height - 2);
        if self.n_goals > interior {
            return false;
        }
        if self.n_trials < 1 {
            return false;
        }
        proof {
            let t = self.n_trials as int;
            let n = self.n_steps as int;
            assert(t * n <= 4294967295 * 4294967295) by (nonlinear_arith)
                requires
                    0 <= t <= 4294967295,
                    0 <= n <= 4294967295,
            ;
        }
        let budget = (self.n_trials as u64) * (self.n_steps as u64);
        if budget > 4294967295u64 {
            return false;
        }
        1 <= self.selection_size && self.selection_size <= self.population_size
            && self.mutation_threshold <= FRACTION_SCALE
    }
}

} // verus!
