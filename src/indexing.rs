//! Bounds-checked access into flat value sequences and row-major grids.

use vstd::prelude::*;

verus! {

/// An index that falls outside the sequence it was used on.
#[derive(Clone, Copy, Debug, PartialEq, Eq, Structural)]
pub enum IndexError {
    OutOfBounds { index: usize, len: usize },
}

/// The value at position `i`, or an error when `i` is past the end.
pub fn checked_get<T: Copy>(values: &Vec<T>, i: usize) -> (r: Result<T, IndexError>)
    ensures
        i < values@.len() ==> r == Ok::<T, IndexError>(values@[i as int]),
        i >= values@.len() ==> r == Err::<T, IndexError>(
            IndexError::OutOfBounds { index: i, len: values@.len() as usize },
        ),
{
    if i < values.len() {
        Ok(values[i])
    } else {
        Err(IndexError::OutOfBounds { index: i, len: values.len() })
    }
}

/// Replaces the value at position `i`; past the end, nothing changes and
/// an error is returned.
pub fn checked_set<T>(values: &mut Vec<T>, i: usize, value: T) -> (r: Result<(), IndexError>)
    ensures
        i < old(values)@.len() ==> r is Ok && final(values)@ == old(values)@.update(i as int, value),
        i >= old(values)@.len() ==> final(values)@ == old(values)@ && r == Err::<(), IndexError>(
            IndexError::OutOfBounds { index: i, len: old(values)@.len() as usize },
        ),
{
    let len = values.len();
    if i < len {
        values.set(i, value);
        Ok(())
    } else {
        Err(IndexError::OutOfBounds { index: i, len })
    }
}


/// Whether the grid has as many entries in every row as it has rows.
pub fn is_square<T>(rows: &Vec<Vec<T>>) -> (r: bool)
    ensures
        r == forall|i: int| 0 <= i < rows@.len() ==> (#[trigger] rows@[i])@.len() == rows@.len(),
{
    let n = rows.len();
    let mut i: usize = 0;
    while i < n
        invariant
            n == rows@.len(),
            i <= n,
            forall|k: int| 0 <= k < i ==> (#[trigger] rows@[k])@.len() == n,
        decreases n - i,
    {
        if rows[i].len() != n {
            return false;
        }
        i = i + 1;
    }
    true
}

/// The entry in row `i`, column `j`, or an error naming the first index
/// that is out of range.
pub fn checked_entry<T: Copy>(rows: &Vec<Vec<T>>, i: usize, j: usize) -> (r: Result<T, IndexError>)
    ensures
        i >= rows@.len() ==> r == Err::<T, IndexError>(
            IndexError::OutOfBounds { index: i, len: rows@.len() as usize },
        ),
        i < rows@.len() && j >= rows@[i as int]@.len() ==> r == Err::<T, IndexError>(
            IndexError::OutOfBounds { index: j, len: rows@[i as int]@.len() as usize },
        ),
        i < rows@.len() && j < rows@[i as int]@.len() ==> r == Ok::<T, IndexError>(rows@[i as int]@[j as int]),
{
    if i >= rows.len() {
        return Err(IndexError::OutOfBounds { index: i, len: rows.len() });
    }
    checked_get(&rows[i], j)
}

} // verus!
