//! The `Label` entity, its commands, and the label-repository contract.

use vstd::prelude::*;

use super::RepositoryError;

verus! {

/// The mathematical value of a [`Label`].
#[verifier::ext_equal]
pub struct LabelView {
    pub id: int,
    pub name: Seq<char>,
}

/// A label: a server-assigned unique id and a unique name.
#[derive(Debug, PartialEq, Eq)]
pub struct Label {
    pub id: i32,
    pub name: String,
}

impl View for Label {
    type V = LabelView;

    open spec fn view(&self) -> LabelView {
        LabelView { id: self.id as int, name: self.name@ }
    }
}

impl Clone for Label {
    fn clone(&self) -> (res: Self)
        ensures
            res == *self,
    {
        Label { id: self.id, name: self.name.clone() }
    }
}

impl Label {
    pub fn new(id: i32, name: String) -> (label: Self)
        ensures
            label.id == id,
            label.name == name,
    {
        Label { id, name }
    }
}

/// The command that asks a repository to create a label.
#[derive(Debug, PartialEq, Eq)]
pub struct CreateLabel {
    pub name: String,
}

impl Clone for CreateLabel {
    fn clone(&self) -> (res: Self)
        ensures
            res == *self,
    {
        CreateLabel { name: self.name.clone() }
    }
}

impl CreateLabel {
    pub fn new(name: String) -> (cmd: Self)
        ensures
            cmd.name == name,
    {
        CreateLabel { name }
    }
}

/// The label capability set, identical across backends.
pub trait LabelRepository: Sized {
    /// Creates a label with a fresh id, unless one with the same name
    /// already exists, in which case the call fails with `Duplicate`
    /// carrying the existing label's id.
    fn create(&self, payload: CreateLabel) -> (r: Result<Label, RepositoryError>)
        ensures
            r matches Ok(label) ==> label.name@ == payload.name@,
    ;

    /// Returns every label, ascending by id.
    fn all(&self) -> (r: Result<Vec<Label>, RepositoryError>)
        ensures
            r matches Ok(labels) ==> forall|i: int, j: int|
                0 <= i < j < labels@.len() ==> #[trigger] labels@[i]@.id < #[trigger] labels@[j]@.id,
    ;

    /// Removes the label with this id; fails with `NotFound` when absent.
    fn delete(&self, id: i32) -> (r: Result<(), RepositoryError>)
    ;
}

/// The uniqueness decision a backend makes before inserting a label:
/// given the result of looking the name up, either clear the insert or
/// fail with `Duplicate` carrying the existing label's id.
pub fn reject_duplicate_name(existing: &Option<Label>) -> (r: Result<(), RepositoryError>)
    ensures
        r is Ok <==> existing is None,
        existing matches Some(label) ==> r == Err::<(), RepositoryError>(
            RepositoryError::Duplicate(label.id),
        ),
{
    match existing {
        Some(label) => Err(RepositoryError::Duplicate(label.id)),
        None => Ok(()),
    }
}

} // verus!
