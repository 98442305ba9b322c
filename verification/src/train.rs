//! Training schedule decisions.
use vstd::prelude::*;
use vstd::arithmetic::div_mod::{lemma_fundamental_div_mod, lemma_mod_multiples_basic};

verus! {

/// Whether progress is logged for `epoch` of a run of `epochs` epochs with
/// logging interval `log_every`: the first and last epoch, and every multiple
/// of the interval.
pub open spec fn logs_epoch(epoch: nat, epochs: nat, log_every: nat) -> bool {
    epoch == 1 || epoch == epochs || (if log_every == 0 {
        epoch == 0
    } else {
        epoch % log_every == 0
    })
}

/// Returns true when a given epoch should be logged.
pub fn should_log(epoch: usize, epochs: usize, log_every: usize) -> (b: bool)
    ensures
        b == logs_epoch(epoch as nat, epochs as nat, log_every as nat),
{
    epoch == 1 || epoch == epochs || (if log_every == 0 {
        epoch == 0
    } else {
        epoch % log_every == 0
    })
}

/// The logging schedule: the first and the last epoch are always logged, and
/// an epoch strictly between them is logged exactly when it is a whole
/// multiple of the logging interval; with no interval, only the first and
/// the last epoch are logged.
pub proof fn lemma_logged_epochs(epoch: nat, epochs: nat, log_every: nat)
    ensures
        logs_epoch(1, epochs, log_every),
        logs_epoch(epochs, epochs, log_every),
        log_every > 0 && 1 < epoch < epochs ==> (logs_epoch(epoch, epochs, log_every)
            <==> exists|k: nat| epoch == #[trigger] (k * log_every)),
        log_every == 0 && 1 < epoch < epochs ==> !logs_epoch(epoch, epochs, log_every),
{
    if log_every > 0 && 1 < epoch < epochs {
        if epoch % log_every == 0 {
            lemma_fundamental_div_mod(epoch as int, log_every as int);
            let k: nat = epoch / log_every;
            assert(epoch == k * log_every) by (nonlinear_arith)
                requires
                    epoch == log_every * (epoch / log_every) + 0,
                    k == epoch / log_every,
            ;
        }
        if exists|k: nat| epoch == #[trigger] (k * log_every) {
            let k = choose|k: nat| epoch == #[trigger] (k * log_every);
            lemma_mod_multiples_basic(k as int, log_every as int);
        }
    }
}

} // verus!
