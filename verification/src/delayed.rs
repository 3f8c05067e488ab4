//! A write-once handoff cell: one writer publishes a value exactly once,
//! any number of readers then see that same value. This is the state
//! machine of the handoff; the asynchronous shell around it (locking and
//! waking suspended readers) lives outside the verified library.
use vstd::prelude::*;

verus! {

/// The error a reader receives when the writer went away without
/// publishing a value.
#[derive(Clone, Copy, Debug, PartialEq, Eq, Structural)]
pub struct InitDropped;

/// The phases of the handoff.
pub enum CellState<T> {
    /// No value yet; the writer is still alive.
    Waiting,
    /// A value was published; it never changes again.
    Ready(T),
    /// The writer was dropped before publishing.
    Dropped,
}

/// The write-once cell.
pub struct DelayedInit<T> {
    state: CellState<T>,
}

impl<T> DelayedInit<T> {
    pub closed spec fn spec_state(&self) -> CellState<T> {
        self.state
    }

    /// An empty cell, waiting for its writer.
    pub fn new() -> (r: Self)
        ensures
            r.spec_state() is Waiting,
    {
        DelayedInit { state: CellState::Waiting }
    }

    /// Publish `value`. Only the first publication takes effect: a cell
    /// that is already `Ready` or `Dropped` is left unchanged.
    pub fn init(&mut self, value: T)
        ensures
            old(self).spec_state() is Waiting ==> final(self).spec_state() == CellState::Ready(
                value,
            ),
            !(old(self).spec_state() is Waiting) ==> final(self).spec_state() == old(
                self,
            ).spec_state(),
    {
        if matches!(self.state, CellState::Waiting) {
            self.state = CellState::Ready(value);
        }
    }

    /// Record that the writer was dropped without publishing. A published
    /// value is kept.
    pub fn writer_dropped(&mut self)
        ensures
            old(self).spec_state() is Waiting ==> final(self).spec_state() is Dropped,
            !(old(self).spec_state() is Waiting) ==> final(self).spec_state() == old(
                self,
            ).spec_state(),
    {
        if matches!(self.state, CellState::Waiting) {
            self.state = CellState::Dropped;
        }
    }

    /// What a reader sees now: `None` while the cell still waits (the
    /// caller suspends and retries), otherwise the published value or the
    /// `InitDropped` failure.
    pub fn try_get(&self) -> (r: Option<Result<&T, InitDropped>>)
        ensures
            self.spec_state() is Waiting <==> r is None,
            self.spec_state() is Ready ==> r == Some(Result::<&T, InitDropped>::Ok(
                &self.spec_state()->0,
            )),
            self.spec_state() is Dropped ==> r == Some(Result::<&T, InitDropped>::Err(
                InitDropped,
            )),
    {
        match &self.state {
            CellState::Waiting => None,
            CellState::Ready(v) => Some(Ok(v)),
            CellState::Dropped => Some(Err(InitDropped)),
        }
    }
}

} // verus!
