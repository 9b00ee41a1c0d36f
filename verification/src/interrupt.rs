//! Termination signals as ordinary errors, so that whoever holds hardware gets to
//! put it back before the process ends.
use vstd::prelude::*;

verus! {

/// The longest time that a wait goes without looking for a signal, in
/// nanoseconds.
pub const NAP: u64 = 100_000_000;

/// Whether a termination signal has come.
#[derive(Debug, Clone, Copy)]
pub struct InterruptGuard {
    pub interrupted: bool,
}

impl InterruptGuard {
    pub fn new(interrupted: bool) -> (r: Self)
        ensures
            r.interrupted == interrupted,
    {
        InterruptGuard { interrupted }
    }

    pub fn check(&self) -> (r: Result<(), String>)
        ensures
            match r {
                Ok(_) => !self.interrupted,
                Err(m) => self.interrupted && m@
                    == "operation interrupted; restoring hardware state"@,
            },
    {
        if self.interrupted {
            return Err("operation interrupted; restoring hardware state".to_owned());
        }
        Ok(())
    }

    /// How long to sleep before the next look, when `remaining` nanoseconds of a
    /// wait are left; nothing once the wait is over. A signal ends the wait.
    pub fn sleep(&self, remaining: u64) -> (r: Result<Option<u64>, String>)
        ensures
            match r {
                Err(m) => self.interrupted && m@
                    == "operation interrupted; restoring hardware state"@,
                Ok(None) => !self.interrupted && remaining == 0,
                Ok(Some(n)) => !self.interrupted && remaining > 0 && n == if remaining < NAP {
                    remaining
                } else {
                    NAP
                },
            },
    {
        match self.check() {
            Err(m) => Err(m),
            Ok(_) => if remaining == 0 {
                Ok(None)
            } else if remaining < NAP {
                Ok(Some(remaining))
            } else {
                Ok(Some(NAP))
            },
        }
    }
}

} // verus!
