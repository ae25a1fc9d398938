//! The exit status of the legacy command-line alias, which forwards its
//! arguments to the renamed program.
use vstd::prelude::*;

verus! {

/// The status the alias exits with: 127 when the program could not be
/// started, otherwise the program's exit code, or 1 when it ended without
/// one (for instance, killed by a signal).
pub fn legacy_exit_code(spawned: bool, code: Option<i32>) -> (r: i32)
    ensures
        r == if !spawned {
            127
        } else {
            match code {
                Some(c) => c,
                None => 1,
            }
        },
{
    if !spawned {
        127
    } else {
        match code {
            Some(c) => c,
            None => 1,
        }
    }
}

} // verus!
