use vstd::prelude::*;

verus! {

/// The state of one cached object, keyed by its path.  A cell is created as
/// `PendingRead` when a load is submitted; a completed load turns it into
/// `Value` or `ReadError`; a failed save preserves the in-memory value
/// beside the error.  Error text stands in for the underlying I/O error.
#[derive(Debug)]
pub enum MemoryCell<T> {
    PendingRead,
    ReadError(String),
    ValueWriteError(T, String),
    Value(T),
}

/// The coarse display state of a cell.
#[derive(Debug, PartialEq, Eq, Structural)]
pub enum MemoryCellState {
    PendingRead,
    Ready,
    Error,
}

impl<T> MemoryCell<T> {
    /// Whether the cell carries an in-memory value.
    pub open spec fn has_value(&self) -> bool {
        self is Value || self is ValueWriteError
    }

    /// The in-memory value of a cell that has one.
    pub open spec fn value_spec(&self) -> T
        recommends
            self.has_value(),
    {
        match self {
            MemoryCell::Value(v) => *v,
            MemoryCell::ValueWriteError(v, _) => *v,
            _ => arbitrary(),
        }
    }

    /// The cell with its value replaced and its variant kept.
    pub open spec fn with_value(self, nv: T) -> MemoryCell<T> {
        match self {
            MemoryCell::Value(_) => MemoryCell::Value(nv),
            MemoryCell::ValueWriteError(_, e) => MemoryCell::ValueWriteError(nv, e),
            other => other,
        }
    }

    pub fn value(&self) -> (r: Option<&T>)
        ensures
            match r {
                Some(v) => self.has_value() && *v == self.value_spec(),
                None => !self.has_value(),
            },
    {
        match self {
            MemoryCell::Value(value) => Some(value),
            MemoryCell::ValueWriteError(value, _) => Some(value),
            MemoryCell::PendingRead => None,
            MemoryCell::ReadError(_) => None,
        }
    }

    pub fn value_mut(&mut self) -> (r: Option<&mut T>)
        ensures
            match r {
                Some(v) => old(self).has_value() && *v == old(self).value_spec() && *final(self)
                    == old(self).with_value(*final(v)),
                None => !old(self).has_value() && *final(self) == *old(self),
            },
    {
        match self {
            MemoryCell::Value(value) => Some(value),
            MemoryCell::ValueWriteError(value, _) => Some(value),
            MemoryCell::PendingRead => None,
            MemoryCell::ReadError(_) => None,
        }
    }
}

impl MemoryCellState {
    /// The display state of a cell: a plain value shows as ready, a cell
    /// still waiting shows as pending, and a failed read or write shows as
    /// an error state for that key.
    pub open spec fn spec_state_of<T>(cell: MemoryCell<T>) -> MemoryCellState {
        match cell {
            MemoryCell::Value(_) => MemoryCellState::Ready,
            MemoryCell::PendingRead => MemoryCellState::PendingRead,
            MemoryCell::ReadError(_) => MemoryCellState::Error,
            MemoryCell::ValueWriteError(_, _) => MemoryCellState::Error,
        }
    }

    pub fn state_of_cell<T>(cell: &MemoryCell<T>) -> (r: Self)
        ensures
            r == MemoryCellState::spec_state_of(*cell),
    {
        match cell {
            MemoryCell::PendingRead => MemoryCellState::PendingRead,
            MemoryCell::ReadError(_) => MemoryCellState::Error,
            MemoryCell::ValueWriteError(..) => MemoryCellState::Error,
            MemoryCell::Value(_) => MemoryCellState::Ready,
        }
    }
}

} // verus!
