//! The repository layer: the error taxonomy shared by every backend, the
//! entity types, and the backends themselves (`label`, `todo`, `memory`).

pub mod label;
pub mod memory;
pub mod todo;

use vstd::prelude::*;

verus! {

/// The failures a repository operation can surface.
///
/// A store never panics on a business-rule violation; it returns one of
/// these. `NotFound` and `Duplicate` are recoverable by the caller;
/// `Unexpected` carries the detail of a lower-level failure and is fatal
/// for the current operation.
#[derive(Debug)]
pub enum RepositoryError {
    /// A lower-level failure (I/O, an unclassified constraint violation).
    Unexpected(String),
    /// The entity with this id is absent.
    NotFound(i32),
    /// A uniqueness constraint was violated on create; carries the id of
    /// the already-existing entity.
    Duplicate(i32),
}

/// The decision behind a relational delete's `NotFound`: a statement
/// that touched no row means the addressed entity was absent, and the
/// operation fails with `NotFound` for that id; otherwise it succeeded.
pub fn require_rows_affected(rows: u64, id: i32) -> (r: Result<(), RepositoryError>)
    ensures
        r is Ok <==> rows > 0,
        rows == 0 ==> r == Err::<(), RepositoryError>(RepositoryError::NotFound(id)),
{
    if rows == 0 {
        Err(RepositoryError::NotFound(id))
    } else {
        Ok(())
    }
}

/// Classifies a backend failure the way every repository operation does:
/// a "row not found" outcome becomes `NotFound` for the id that was
/// addressed, anything else is surfaced verbatim as `Unexpected`.
pub fn classify_backend_error(row_not_found: bool, id: i32, detail: String) -> (e: RepositoryError)
    ensures
        e == if row_not_found {
            RepositoryError::NotFound(id)
        } else {
            RepositoryError::Unexpected(detail)
        },
{
    if row_not_found {
        RepositoryError::NotFound(id)
    } else {
        RepositoryError::Unexpected(detail)
    }
}

} // verus!
