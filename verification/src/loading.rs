//! Loading a file in the background: what the window does with each
//! answer from the worker.

use vstd::prelude::*;

verus! {

/// What is loaded.
#[derive(Debug, Clone, Copy, PartialEq, Eq)]
pub enum LoadKind {
    /// A project file.
    Project,
    /// An MLT file.
    Mlt,
}

/// What the window sees when it asks the worker for its result.
#[derive(Debug, PartialEq, Eq)]
pub enum LoadEvent<T> {
    /// The worker has not answered yet.
    Waiting,
    /// The worker answered: the loaded value, or the message of its error.
    Received(Result<T, String>),
    /// The worker went away without answering.
    Disconnected,
}

/// What the window does next.
#[derive(Debug, PartialEq, Eq)]
pub enum LoadStep<T> {
    /// Ask again later; the window stays busy.
    KeepWaiting,
    /// Show the loaded value; the window is no longer busy.
    Apply(T),
    /// Show this error; the window is no longer busy.
    ShowError(String),
}

/// The message shown when the worker for `kind` went away.
pub open spec fn lost_message(kind: LoadKind) -> Seq<char> {
    match kind {
        LoadKind::Project => "failed to receive project load result"@,
        LoadKind::Mlt => "failed to receive mlt load result"@,
    }
}

/// The window's controls are usable exactly while nothing is loading.
pub fn controls_enabled(loading: bool) -> (enabled: bool)
    ensures
        enabled == !loading,
{
    !loading
}

/// The next step of a background load of `kind`, given what the worker
/// answered.
pub fn next_load_step<T>(kind: LoadKind, event: LoadEvent<T>) -> (step: LoadStep<T>)
    ensures
        match event {
            LoadEvent::Waiting => step == LoadStep::<T>::KeepWaiting,
            LoadEvent::Received(Ok(v)) => step == LoadStep::Apply(v),
            LoadEvent::Received(Err(m)) => step == LoadStep::<T>::ShowError(m),
            LoadEvent::Disconnected => step matches LoadStep::ShowError(m) && m@ == lost_message(
                kind,
            ),
        },
{
    match event {
        LoadEvent::Waiting => LoadStep::KeepWaiting,
        LoadEvent::Received(Ok(v)) => LoadStep::Apply(v),
        LoadEvent::Received(Err(m)) => LoadStep::ShowError(m),
        LoadEvent::Disconnected => match kind {
            LoadKind::Project => LoadStep::ShowError(
                String::from_str("failed to receive project load result"),
            ),
            LoadKind::Mlt => LoadStep::ShowError(String::from_str("failed to receive mlt load result")),
        },
    }
}

} // verus!
