//! What is kept of the sessions from one start to the next.

use vstd::prelude::*;

verus! {

/// What is kept of one session.
#[derive(Debug, Clone)]
pub struct SessionSnapshot {
    /// Its working directory.
    pub cwd: Option<String>,
}

/// What is kept of all sessions.
#[derive(Debug, Clone)]
pub struct SessionsSnapshot {
    pub version: u32,
    pub sessions: Vec<SessionSnapshot>,
    pub active_index: Option<usize>,
}

impl SessionsSnapshot {
    pub fn new(sessions: Vec<SessionSnapshot>, active_index: Option<usize>) -> (snapshot: Self)
        ensures
            snapshot.version == 1,
            snapshot.sessions == sessions,
            snapshot.active_index == active_index,
    {
        SessionsSnapshot { version: 1, sessions, active_index }
    }
}

} // verus!
