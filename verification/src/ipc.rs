//! The life cycle of the status channel: one listener, bound once, handed to
//! one owner, and a channel artifact that only the instance that bound it
//! removes.
//!
//! Binding and unlinking are the work of the program around the library. It
//! asks here what is to be done and reports back what happened.

use vstd::prelude::*;
use vstd::string::StringExecFns;
use interprocess::local_socket::LocalSocketListener;

verus! {

/// Declares the listener of `interprocess`, which the core holds and hands
/// on. Nothing is said of what is inside.
#[verifier::external_type_specification]
#[verifier::external_body]
pub struct ExLocalSocketListener(LocalSocketListener);

/// The well-known name of the status channel on Unix: a socket in the file
/// system, so that separate processes find it.
pub const PAGI_IPC_NAME: &'static str = "/tmp/pagi_shmem_pipe";

/// The listener of the status channel and what is known of its binding.
pub struct IpcLifecycle {
    listener: Option<LocalSocketListener>,
    name: String,
    initialized: bool,
}

/// The mathematical form of the life cycle.
pub struct IpcState {
    /// The listener, while the core holds it.
    pub listener: Option<LocalSocketListener>,
    /// The name that clients connect to.
    pub name: Seq<char>,
    /// Whether this instance bound the channel.
    pub initialized: bool,
}

/// A bind that failed, with the name that was to be bound and the cause.
#[derive(Debug)]
pub struct IpcError {
    pub name: String,
    pub cause: String,
}

/// A flush of the durable store that failed, with the cause.
#[derive(Debug)]
pub struct StorageError {
    pub cause: String,
}

/// What is to be done to initialize the channel.
#[derive(Debug, Clone, Copy, PartialEq, Eq, Structural)]
pub enum InitStep {
    /// A listener is held: there is nothing to do.
    AlreadyBound,
    /// Remove what an earlier instance may have left at the well-known name,
    /// bind a listener there, and report the outcome.
    Bind,
}

/// The text of a failed bind.
pub open spec fn bind_failure_text(name: Seq<char>, cause: Seq<char>) -> Seq<char> {
    "Failed to bind IPC server ("@ + name + "): "@ + cause
}

/// The text of a failed write or flush.
pub open spec fn storage_failure_text(cause: Seq<char>) -> Seq<char> {
    "KB write failed: "@ + cause
}

/// The state of a core that has not touched the channel.
pub open spec fn unbound_state(name: Seq<char>) -> IpcState {
    IpcState { listener: None, name, initialized: false }
}

/// What is to be done to initialize the channel in the given state.
pub open spec fn init_step(state: IpcState) -> InitStep {
    if state.listener is Some {
        InitStep::AlreadyBound
    } else {
        InitStep::Bind
    }
}

/// The state after the outcome of a bind was reported. A state that holds a
/// listener stays as it is; else a listener is taken in and the instance
/// becomes the one that bound the channel, and a failure changes nothing.
/// The name stays what it was from the start.
pub open spec fn state_after_init(
    state: IpcState,
    outcome: Result<LocalSocketListener, String>,
) -> IpcState {
    if state.listener is Some {
        state
    } else {
        match outcome {
            Ok(listener) => IpcState { listener: Some(listener), initialized: true, ..state },
            Err(_) => state,
        }
    }
}

/// Whether reporting the outcome of a bind succeeds: a listener is held
/// already, or the bind went well.
pub open spec fn init_succeeds(
    state: IpcState,
    outcome: Result<LocalSocketListener, String>,
) -> bool {
    state.listener is Some || outcome is Ok
}

/// The state after the listener was handed out.
pub open spec fn state_after_take(state: IpcState) -> IpcState {
    IpcState { listener: None, ..state }
}

/// The state after a teardown whose flush went well.
pub open spec fn state_after_teardown(state: IpcState) -> IpcState {
    IpcState { listener: None, initialized: false, ..state }
}

/// The name to unlink at teardown: that of the channel, if this instance
/// bound it.
pub open spec fn unlink_target(state: IpcState) -> Option<Seq<char>> {
    if state.initialized {
        Some(state.name)
    } else {
        None
    }
}

/// Initializing twice in a row succeeds both times and binds once: the
/// second time there is nothing to do and the state stays as it is. The
/// listener of the first bind can then be taken once, and not again.
pub proof fn lemma_init_is_idempotent(
    name: Seq<char>,
    first: LocalSocketListener,
    second: Result<LocalSocketListener, String>,
)
    ensures
        ({
            let fresh = unbound_state(name);
            let once = state_after_init(fresh, Ok(first));
            let twice = state_after_init(once, second);
            &&& init_step(fresh) == InitStep::Bind
            &&& init_succeeds(fresh, Ok(first))
            &&& init_step(once) == InitStep::AlreadyBound
            &&& init_succeeds(once, second)
            &&& twice == once
            &&& twice.listener == Some(first)
            &&& twice.initialized
            &&& state_after_take(twice).listener is None
            &&& init_step(state_after_take(twice)) == InitStep::Bind
            &&& unlink_target(state_after_take(twice)) == Some(name)
        }),
{
}

/// An instance that never bound the channel unlinks nothing at teardown.
pub proof fn lemma_only_the_binder_unlinks(
    name: Seq<char>,
    outcome: Result<LocalSocketListener, String>,
)
    ensures
        unlink_target(unbound_state(name)) is None,
        outcome is Err ==> unlink_target(state_after_init(unbound_state(name), outcome)) is None,
        outcome is Ok ==> unlink_target(state_after_init(unbound_state(name), outcome)) is Some,
{
}

impl View for IpcLifecycle {
    type V = IpcState;

    closed spec fn view(&self) -> IpcState {
        IpcState { listener: self.listener, name: self.name@, initialized: self.initialized }
    }
}

impl IpcError {
    /// The failure as one line of text.
    pub fn message(&self) -> (text: String)
        ensures
            text@ == bind_failure_text(self.name@, self.cause@),
    {
        let mut text = String::from_str("Failed to bind IPC server (");
        text.append(self.name.as_str());
        text.append("): ");
        text.append(self.cause.as_str());
        text
    }
}

impl StorageError {
    /// The failure as one line of text.
    pub fn message(&self) -> (text: String)
        ensures
            text@ == storage_failure_text(self.cause@),
    {
        let mut text = String::from_str("KB write failed: ");
        text.append(self.cause.as_str());
        text
    }
}

impl IpcLifecycle {
    /// A life cycle for the channel of the given name that has not touched
    /// it.
    pub fn new(name: &str) -> (ipc: Self)
        ensures
            ipc@ == unbound_state(name@),
    {
        IpcLifecycle { listener: None, name: name.to_owned(), initialized: false }
    }

    /// What is to be done to initialize the channel.
    pub fn begin_init(&self) -> (step: InitStep)
        ensures
            step == init_step(self@),
    {
        match &self.listener {
            Some(_) => InitStep::AlreadyBound,
            None => InitStep::Bind,
        }
    }

    /// Takes in the outcome of a bind. Where a listener is held already the
    /// outcome is dropped and the call succeeds. A failed bind is returned
    /// with its cause, and the state stays as it was.
    pub fn complete_init(&mut self, outcome: Result<LocalSocketListener, String>) -> (res: Result<
        (),
        IpcError,
    >)
        ensures
            final(self)@ == state_after_init(old(self)@, outcome),
            res is Ok <==> init_succeeds(old(self)@, outcome),
            res matches Err(error) ==> error.name@ == old(self)@.name && outcome is Err
                && error.cause@ == outcome->Err_0@,
    {
        if self.listener.is_some() {
            return Ok(());
        }
        match outcome {
            Ok(listener) => {
                self.listener = Some(listener);
                self.initialized = true;
                Ok(())
            },
            Err(cause) => Err(IpcError { name: self.name.clone(), cause }),
        }
    }

    /// The name that clients connect to.
    pub fn name(&self) -> (name: &str)
        ensures
            name@ == self@.name,
    {
        self.name.as_str()
    }

    /// Whether this instance bound the channel.
    pub fn is_initialized(&self) -> (initialized: bool)
        ensures
            initialized == self@.initialized,
    {
        self.initialized
    }

    /// Hands the listener to the caller. A second call gives nothing.
    pub fn take_listener(&mut self) -> (listener: Option<LocalSocketListener>)
        ensures
            listener == old(self)@.listener,
            final(self)@ == state_after_take(old(self)@),
    {
        self.listener.take()
    }

    /// Tears the channel down, given how the flush of the durable store
    /// went. A failed flush stops the teardown: the failure is returned and
    /// nothing is released. Else the listener is released if it is still
    /// held, and the name to unlink is returned if this instance bound the
    /// channel.
    pub fn teardown(&mut self, flushed: Result<(), String>) -> (res: Result<
        Option<String>,
        StorageError,
    >)
        ensures
            match res {
                Ok(target) => flushed is Ok && final(self)@ == state_after_teardown(old(self)@)
                    && (match target {
                    Some(name) => unlink_target(old(self)@) == Some(name@),
                    None => unlink_target(old(self)@) is None,
                }),
                Err(error) => flushed is Err && error.cause@ == flushed->Err_0@ && final(self)@
                    == old(self)@,
            },
    {
        match flushed {
            Err(cause) => Err(StorageError { cause }),
            Ok(()) => {
                self.listener = None;
                let target = if self.initialized {
                    Some(self.name.clone())
                } else {
                    None
                };
                self.initialized = false;
                Ok(target)
            },
        }
    }
}

} // verus!
