use vstd::prelude::*;

verus! {

/// The pairing discipline a tournament is run under.
#[derive(Debug, Clone, Copy, PartialEq, Eq, Structural, Hash, Default)]
#[non_exhaustive]
pub enum PairingSystemType {
    #[default]
    BergerTable,
    ClassicSwiss,
    DubovSwiss,
    BursteinSwiss,
    Lim,
    Unspecified,
}

/// Why a request to the pairing engine failed.
#[derive(Debug, Clone, Copy, PartialEq, Eq, Structural)]
pub enum PairingError {
    /// The configured discipline has no algorithm for the current round.
    UnimplementedPairingSystem,
    /// A competitor identifier names nobody in the tournament.
    PlayerNotFound,
}

} // verus!
