//! The decision core of the session layer: which native-library actions
//! are allowed in which state.
//!
//! The native library itself is loaded and driven outside this crate;
//! what is verified here is the bookkeeping those callers follow: a
//! session is first loaded from a library path, then connected to a
//! server, then logged in, and every step is allowed exactly once and
//! only in order.  Each function takes the current state and hands back
//! the next one, or says why the step is refused.

use vstd::prelude::*;

verus! {

/// Where a session stands.
#[derive(Debug)]
pub enum SessionState {
    /// No native library is loaded.
    Unloaded,
    /// The library at this path is loaded, but no server is connected.
    Loaded { path: String },
    /// A server is connected.
    Connected { path: String, logged_in: bool },
}

/// Why a session step was refused.
#[derive(PartialEq, Eq, Structural, Clone, Copy, Debug)]
pub enum SessionError {
    /// The library is already loaded in this process.
    LibraryInUse,
    /// The step needs a loaded library.
    NotLoaded,
    /// The step needs a connected server.
    NotConnected,
}

/// Whether a library is loaded in this state.
pub open spec fn spec_is_loaded(s: SessionState) -> bool {
    !(s is Unloaded)
}

/// Whether a server is connected in this state.
pub open spec fn spec_is_connected(s: SessionState) -> bool {
    s is Connected
}

/// The loaded library's path in this state, if any.
pub open spec fn spec_path(s: SessionState) -> Option<Seq<char>> {
    match s {
        SessionState::Unloaded => None,
        SessionState::Loaded { path } => Some(path@),
        SessionState::Connected { path, .. } => Some(path@),
    }
}

/// Loads the library at `path`: allowed only once, while nothing is
/// loaded.
pub fn load_with_path(state: SessionState, path: String) -> (r: Result<
    SessionState,
    SessionError,
>)
    ensures
        match r {
            Ok(next) => !spec_is_loaded(state) && next == (SessionState::Loaded { path: path }),
            Err(e) => spec_is_loaded(state) && e == SessionError::LibraryInUse,
        },
{
    match state {
        SessionState::Unloaded => Ok(SessionState::Loaded { path }),
        _ => Err(SessionError::LibraryInUse),
    }
}

/// Unloads the library, whatever else was going on.
pub fn unload(_state: SessionState) -> (r: SessionState)
    ensures
        r is Unloaded,
{
    SessionState::Unloaded
}

/// Whether a library is loaded.
pub fn is_loaded(state: &SessionState) -> (r: bool)
    ensures
        r == spec_is_loaded(*state),
{
    match state {
        SessionState::Unloaded => false,
        _ => true,
    }
}

/// The loaded library's path, if any.
pub fn loaded_path(state: &SessionState) -> (r: Option<&String>)
    ensures
        match r {
            Some(p) => match state {
                SessionState::Loaded { path } => p == path,
                SessionState::Connected { path, .. } => p == path,
                SessionState::Unloaded => false,
            },
            None => *state is Unloaded,
        },
{
    match state {
        SessionState::Unloaded => None,
        SessionState::Loaded { path } => Some(path),
        SessionState::Connected { path, .. } => Some(path),
    }
}

/// Connects to a server: the library must be loaded; connecting anew
/// drops any login.
pub fn connect(state: SessionState) -> (r: Result<SessionState, SessionError>)
    ensures
        match r {
            Ok(next) => spec_is_loaded(state) && next is Connected && !(next
                -> Connected_logged_in) && spec_path(next) == spec_path(state),
            Err(e) => !spec_is_loaded(state) && e == SessionError::NotLoaded,
        },
{
    match state {
        SessionState::Unloaded => Err(SessionError::NotLoaded),
        SessionState::Loaded { path } => Ok(SessionState::Connected { path, logged_in: false }),
        SessionState::Connected { path, .. } => Ok(
            SessionState::Connected { path, logged_in: false },
        ),
    }
}

/// Whether a server is connected.
pub fn is_connected(state: &SessionState) -> (r: bool)
    ensures
        r == spec_is_connected(*state),
{
    match state {
        SessionState::Connected { .. } => true,
        _ => false,
    }
}

/// Drops the connection; the library stays loaded.
pub fn disconnect(state: SessionState) -> (r: SessionState)
    ensures
        spec_is_loaded(r) == spec_is_loaded(state),
        spec_path(r) == spec_path(state),
        !spec_is_connected(r),
{
    match state {
        SessionState::Unloaded => SessionState::Unloaded,
        SessionState::Loaded { path } => SessionState::Loaded { path },
        SessionState::Connected { path, .. } => SessionState::Loaded { path },
    }
}

/// Marks the session logged in: only a connected session may log in.
pub fn login(state: SessionState) -> (r: Result<SessionState, SessionError>)
    ensures
        match r {
            Ok(next) => spec_is_connected(state) && next is Connected && next
                -> Connected_logged_in && spec_path(next) == spec_path(state),
            Err(e) => !spec_is_connected(state) && e == SessionError::NotConnected,
        },
{
    match state {
        SessionState::Connected { path, .. } => Ok(
            SessionState::Connected { path, logged_in: true },
        ),
        _ => Err(SessionError::NotConnected),
    }
}

/// Whether a request may be issued now: only on a connected session.
pub fn request(state: &SessionState) -> (r: Result<(), SessionError>)
    ensures
        match r {
            Ok(_) => spec_is_connected(*state),
            Err(e) => !spec_is_connected(*state) && e == SessionError::NotConnected,
        },
{
    match state {
        SessionState::Connected { .. } => Ok(()),
        _ => Err(SessionError::NotConnected),
    }
}

/// Whether the account list may be read now: only on a connected
/// session.
pub fn accounts(state: &SessionState) -> (r: Result<(), SessionError>)
    ensures
        match r {
            Ok(_) => spec_is_connected(*state),
            Err(e) => !spec_is_connected(*state) && e == SessionError::NotConnected,
        },
{
    match state {
        SessionState::Connected { .. } => Ok(()),
        _ => Err(SessionError::NotConnected),
    }
}

} // verus!
