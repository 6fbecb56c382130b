//! Optional behaviors a caller may switch on for one invocation.

use vstd::prelude::*;

verus! {

/// An optional behavior. Keeping each package's build-output directory
/// between installs spares the toolchain a full rebuild.
#[derive(Clone, Copy, Debug, PartialEq, Eq, Structural)]
pub enum Experiment {
    TargetCache,
}

/// Whether any experiments were named at all.
pub fn has_experiments(experiments: &Option<Vec<Experiment>>) -> (r: bool)
    ensures
        r == (experiments is Some),
{
    experiments.is_some()
}

/// Whether `experiment` is among the named experiments.
pub fn has_experiment(experiments: &Option<Vec<Experiment>>, experiment: &Experiment) -> (r: bool)
    ensures
        r == (*experiments matches Some(v) && v@.contains(*experiment)),
{
    match experiments {
        None => false,
        Some(v) => {
            let n = v.len();
            let mut i: usize = 0;
            while i < n
                invariant
                    i <= n,
                    n == v@.len(),
                    *experiments matches Some(w) && w@ == v@,
                    forall|j: int| 0 <= j < i ==> v@[j] != *experiment,
                decreases n - i,
            {
                if v[i] == *experiment {
                    proof {
                        assert(v@.contains(*experiment));
                    }
                    return true;
                }
                i += 1;
            }
            false
        },
    }
}

} // verus!
