use vstd::prelude::*;

verus! {

/// Why a focus resolution was abandoned. Every variant is fatal: focus is
/// not moved and nothing is retried.
#[derive(Clone, Copy, Debug, PartialEq, Eq, Structural)]
pub enum ResolveError {
    /// The state of a process on an ancestry walk, or the peer directory,
    /// was missing, unreadable or malformed.
    EnvironmentRead,
    /// An ancestry walk did not reach the root within the depth bound.
    AncestryTooDeep,
    /// The local multiplexer gave no status output.
    LocalStatusMissing,
    /// More than one registered peer descends from the focused process.
    AmbiguousPeer,
    /// The socket of a matched peer could not be reached.
    PeerUnreachable,
    /// A peer answered `has_pane` with something other than `true` or `false`.
    ProtocolViolation,
    /// The window manager refused the focus dispatch.
    DispatchFailed,
}

impl ResolveError {
    /// The one-line diagnostic of each error.
    pub open spec fn message_spec(self) -> Seq<char> {
        match self {
            ResolveError::EnvironmentRead => "process state or peer directory could not be read"@,
            ResolveError::AncestryTooDeep => "process ancestry exceeds the depth bound"@,
            ResolveError::LocalStatusMissing => "local multiplexer gave no pane status"@,
            ResolveError::AmbiguousPeer => "multiple peers claim the focused process"@,
            ResolveError::PeerUnreachable => "peer socket is unreachable"@,
            ResolveError::ProtocolViolation => "peer sent an unexpected reply"@,
            ResolveError::DispatchFailed => "window manager dispatch failed"@,
        }
    }

    /// The diagnostic to show for the error.
    pub fn message(self) -> (m: &'static str)
        ensures
            m@ == self.message_spec(),
    {
        match self {
            ResolveError::EnvironmentRead => "process state or peer directory could not be read",
            ResolveError::AncestryTooDeep => "process ancestry exceeds the depth bound",
            ResolveError::LocalStatusMissing => "local multiplexer gave no pane status",
            ResolveError::AmbiguousPeer => "multiple peers claim the focused process",
            ResolveError::PeerUnreachable => "peer socket is unreachable",
            ResolveError::ProtocolViolation => "peer sent an unexpected reply",
            ResolveError::DispatchFailed => "window manager dispatch failed",
        }
    }
}

} // verus!
