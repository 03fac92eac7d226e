use vstd::prelude::*;

verus! {

/// The operating-system signals that a channel can be opened for.
#[derive(Debug, Clone, Copy, PartialEq, Eq, Structural)]
pub enum SignalKind {
    SIGTERM,
}

/// A signal source that never fires: it stands in for a signal that the
/// platform does not have.
#[derive(Debug, Clone, Copy, PartialEq, Eq, Structural)]
pub struct SigNever;

/// Where a shutdown signal may come from.
#[derive(Debug, Clone, Copy, PartialEq, Eq, Structural)]
pub enum SignalSource {
    /// The operating system's signal of this kind.
    Os(SignalKind),
    /// Nothing: the platform lacks the signal.
    Never(SigNever),
}

/// The source to listen on for `kind`: the operating system's signal where
/// the platform has such signals, else one that never fires, so that the
/// shutdown coordinator still works through the interrupt alone.
pub fn new(kind: SignalKind, platform_has_signals: bool) -> (r: SignalSource)
    ensures
        platform_has_signals ==> r == SignalSource::Os(kind),
        !platform_has_signals ==> r == SignalSource::Never(SigNever),
{
    if platform_has_signals {
        SignalSource::Os(kind)
    } else {
        SignalSource::Never(SigNever)
    }
}

} // verus!
