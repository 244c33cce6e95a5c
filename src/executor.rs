use vstd::prelude::*;

verus! {

/// The executor on which the server runs each connection as a task of its own.
/// It carries no state; spawning onto the runtime is done where the runtime is.
#[derive(Debug, Clone, Copy, PartialEq, Eq, Structural)]
pub struct Executor;

} // verus!
