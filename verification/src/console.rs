//! The console proxy: a state machine over two raced input sources.
//!
//! While a session is active the surrounding program waits on local
//! standard input and the remote stream at once, with no fixed
//! priority, and feeds whichever event arrives first through
//! `proxy_step`; the returned action is what it must carry out.  The
//! terminal's saved mode is restored exactly when the session closes,
//! on every exit path.

use vstd::prelude::*;

verus! {

/// The one control byte that ends a session from the local side; it
/// is never forwarded to the remote stream.
pub const QUIT_SENTINEL: u8 = 0x11;

/// Where the session stands.
#[derive(PartialEq, Eq, Structural, Clone, Copy, Debug)]
pub enum ProxyState {
    /// The remote session is being opened; the terminal is untouched.
    Connecting,
    /// The terminal is raw and bytes flow both ways.
    Active,
    /// The session is over and the terminal mode has been restored.
    Closed,
}

/// What one wait produced.
pub enum ProxyEvent {
    /// The remote session endpoint is open.
    SessionOpened,
    /// One byte arrived from local standard input.
    LocalByte(u8),
    /// A binary payload arrived from the remote session.
    RemoteBinary(Vec<u8>),
    /// The remote side announced it is closing.
    RemoteClose,
    /// The remote stream ended.
    RemoteEnd,
    /// Any other remote message; it is ignored.
    RemoteOther,
}

/// What the surrounding program must do next.
pub enum ProxyAction {
    /// Nothing; wait again.
    Idle,
    /// Save the terminal mode and switch the terminal to raw.
    EnterRaw,
    /// Send this byte to the remote session as a binary frame.
    Forward(u8),
    /// Write this payload to local standard output and flush at once.
    WriteOut(Vec<u8>),
    /// Restore the saved terminal mode.
    RestoreTerminal,
}

/// The full case table of one step.
pub open spec fn proxy_step_post(
    state: ProxyState,
    event: ProxyEvent,
    r: (ProxyState, ProxyAction),
) -> bool {
    match event {
        ProxyEvent::SessionOpened => r.0 == ProxyState::Active && r.1 is EnterRaw,
        ProxyEvent::LocalByte(b) => {
            if b == QUIT_SENTINEL {
                r.0 == ProxyState::Closed && r.1 is RestoreTerminal
            } else {
                r.0 == ProxyState::Active && (r.1 matches ProxyAction::Forward(c) && c == b)
            }
        },
        ProxyEvent::RemoteBinary(v) => r.0 == ProxyState::Active && (r.1
            matches ProxyAction::WriteOut(w) && w@ == v@),
        ProxyEvent::RemoteClose => r.0 == ProxyState::Closed && r.1 is RestoreTerminal,
        ProxyEvent::RemoteEnd => r.0 == ProxyState::Closed && r.1 is RestoreTerminal,
        ProxyEvent::RemoteOther => r.0 == ProxyState::Active && r.1 is Idle,
    }
}

/// Advances the session by one event.  `Closed` is terminal: no event
/// is ever fed to a closed session, so the terminal is restored
/// exactly once.
pub fn proxy_step(state: ProxyState, event: ProxyEvent) -> (r: (ProxyState, ProxyAction))
    requires
        state != ProxyState::Closed,
        state == ProxyState::Connecting ==> event is SessionOpened,
        state == ProxyState::Active ==> !(event is SessionOpened),
    ensures
        proxy_step_post(state, event, r),
{
    match event {
        ProxyEvent::SessionOpened => (ProxyState::Active, ProxyAction::EnterRaw),
        ProxyEvent::LocalByte(b) => {
            if b == QUIT_SENTINEL {
                (ProxyState::Closed, ProxyAction::RestoreTerminal)
            } else {
                (ProxyState::Active, ProxyAction::Forward(b))
            }
        },
        ProxyEvent::RemoteBinary(v) => (ProxyState::Active, ProxyAction::WriteOut(v)),
        ProxyEvent::RemoteClose => (ProxyState::Closed, ProxyAction::RestoreTerminal),
        ProxyEvent::RemoteEnd => (ProxyState::Closed, ProxyAction::RestoreTerminal),
        ProxyEvent::RemoteOther => (ProxyState::Active, ProxyAction::Idle),
    }
}

/// The quit sentinel closes the session without the byte ever
/// reaching the remote stream: the step restores the terminal and
/// forwards nothing.
pub proof fn lemma_quit_never_forwarded(r: (ProxyState, ProxyAction))
    requires
        proxy_step_post(ProxyState::Active, ProxyEvent::LocalByte(QUIT_SENTINEL), r),
    ensures
        r.0 == ProxyState::Closed,
        r.1 is RestoreTerminal,
        !(r.1 matches ProxyAction::Forward(_)),
{
}

/// A remote close notification also closes the session and restores
/// the terminal.
pub proof fn lemma_remote_close_closes(r: (ProxyState, ProxyAction))
    requires
        proxy_step_post(ProxyState::Active, ProxyEvent::RemoteClose, r),
    ensures
        r.0 == ProxyState::Closed,
        r.1 is RestoreTerminal,
{
}

/// The terminal is restored exactly when a step closes the session;
/// since a closed session accepts no further events, restoration
/// happens exactly once per session.
pub proof fn lemma_restore_exactly_on_close(
    state: ProxyState,
    event: ProxyEvent,
    r: (ProxyState, ProxyAction),
)
    requires
        state != ProxyState::Closed,
        proxy_step_post(state, event, r),
    ensures
        (r.1 is RestoreTerminal) <==> (r.0 == ProxyState::Closed),
{
}

} // verus!
