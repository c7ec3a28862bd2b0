//! The `Todo` aggregate, its commands, the todo-repository contract, and
//! the pure fold that rebuilds aggregates from flattened outer-join rows.

use vstd::prelude::*;

use crate::search::{lemma_seq_first_is, seq_first, seq_has};

use super::RepositoryError;
use super::label::{Label, LabelView};

verus! {

/// The mathematical value of a [`TodoEntity`].
#[verifier::ext_equal]
pub struct TodoView {
    pub id: int,
    pub text: Seq<char>,
    pub completed: bool,
    pub labels: Seq<LabelView>,
}

/// The mathematical value of a [`TodoWithLabelFromRow`]: the label pair
/// collapses into one optional label.
#[verifier::ext_equal]
pub struct RowView {
    pub id: int,
    pub text: Seq<char>,
    pub completed: bool,
    pub label: Option<LabelView>,
}

/// A bare todo row: what the base table stores, without labels.
#[derive(Debug, PartialEq, Eq)]
pub struct TodoFromRow {
    pub id: i32,
    pub text: String,
    pub completed: bool,
}

impl Clone for TodoFromRow {
    fn clone(&self) -> (res: Self)
        ensures
            res == *self,
    {
        TodoFromRow { id: self.id, text: self.text.clone(), completed: self.completed }
    }
}

/// One flattened outer-join row: a todo paired with at most one of its
/// labels. A todo with no labels yields exactly one row whose label
/// fields are both absent.
#[derive(Debug, PartialEq, Eq)]
pub struct TodoWithLabelFromRow {
    pub id: i32,
    pub text: String,
    pub completed: bool,
    pub label_id: Option<i32>,
    pub label_name: Option<String>,
}

impl TodoWithLabelFromRow {
    /// The label fields travel together: both present or both absent.
    pub open spec fn wf(&self) -> bool {
        self.label_id is Some <==> self.label_name is Some
    }
}

impl View for TodoWithLabelFromRow {
    type V = RowView;

    open spec fn view(&self) -> RowView {
        RowView {
            id: self.id as int,
            text: self.text@,
            completed: self.completed,
            label: match (self.label_id, self.label_name) {
                (Some(lid), Some(lname)) => Some(LabelView { id: lid as int, name: lname@ }),
                _ => None,
            },
        }
    }
}

/// The aggregate returned to callers: a todo hydrated with its labels.
#[derive(Debug, PartialEq, Eq)]
pub struct TodoEntity {
    pub id: i32,
    pub text: String,
    pub completed: bool,
    pub labels: Vec<Label>,
}

impl View for TodoEntity {
    type V = TodoView;

    open spec fn view(&self) -> TodoView {
        TodoView {
            id: self.id as int,
            text: self.text@,
            completed: self.completed,
            labels: self.labels@.map_values(|label: Label| label@),
        }
    }
}

impl Clone for TodoEntity {
    fn clone(&self) -> (res: Self)
        ensures
            res@ == self@,
    {
        let mut labels: Vec<Label> = Vec::new();
        let mut i: usize = 0;
        while i < self.labels.len()
            invariant
                i <= self.labels@.len(),
                labels@ =~= self.labels@.take(i as int),
            decreases self.labels@.len() - i,
        {
            labels.push(self.labels[i].clone());
            i += 1;
        }
        proof {
            assert(labels@ =~= self.labels@);
        }
        let res = TodoEntity {
            id: self.id,
            text: self.text.clone(),
            completed: self.completed,
            labels,
        };
        proof {
            assert(res@ =~~= self@);
        }
        res
    }
}

impl TodoEntity {
    /// A fresh aggregate: not yet completed, no labels.
    pub fn new(id: i32, text: String) -> (todo: Self)
        ensures
            todo.id == id,
            todo.text == text,
            todo.completed == false,
            todo.labels@.len() == 0,
    {
        TodoEntity { id, text, completed: false, labels: Vec::new() }
    }
}

/// The mathematical value of a [`CreateTodo`] command.
#[verifier::ext_equal]
pub struct CreateTodoView {
    pub text: Seq<char>,
    pub labels: Seq<int>,
}

/// The command that asks a repository to create a todo; `labels` holds
/// the ids of the labels to associate.
#[derive(Debug, PartialEq, Eq)]
pub struct CreateTodo {
    pub text: String,
    pub labels: Vec<i32>,
}

impl View for CreateTodo {
    type V = CreateTodoView;

    open spec fn view(&self) -> CreateTodoView {
        CreateTodoView {
            text: self.text@,
            labels: self.labels@.map_values(|id: i32| id as int),
        }
    }
}

/// Copies a vector of label ids.
pub(crate) fn clone_ids(ids: &Vec<i32>) -> (res: Vec<i32>)
    ensures
        res@ == ids@,
{
    let mut res: Vec<i32> = Vec::new();
    let mut i: usize = 0;
    while i < ids.len()
        invariant
            i <= ids@.len(),
            res@ =~= ids@.take(i as int),
        decreases ids@.len() - i,
    {
        res.push(ids[i]);
        i += 1;
    }
    proof {
        assert(res@ =~= ids@);
    }
    res
}

impl Clone for CreateTodo {
    fn clone(&self) -> (res: Self)
        ensures
            res@ == self@,
    {
        let res = CreateTodo { text: self.text.clone(), labels: clone_ids(&self.labels) };
        proof {
            assert(res@ =~~= self@);
        }
        res
    }
}

impl CreateTodo {
    pub fn new(text: String, labels: Vec<i32>) -> (cmd: Self)
        ensures
            cmd.text == text,
            cmd.labels == labels,
    {
        CreateTodo { text, labels }
    }
}

/// The mathematical value of an [`UpdateTodo`] command.
#[verifier::ext_equal]
pub struct UpdateTodoView {
    pub text: Option<Seq<char>>,
    pub completed: Option<bool>,
    pub labels: Option<Seq<int>>,
}

/// A partial update: absent fields mean "leave unchanged". A present
/// `labels` field fully replaces the association set.
#[derive(Debug, PartialEq, Eq)]
pub struct UpdateTodo {
    pub text: Option<String>,
    pub completed: Option<bool>,
    pub labels: Option<Vec<i32>>,
}

impl View for UpdateTodo {
    type V = UpdateTodoView;

    open spec fn view(&self) -> UpdateTodoView {
        UpdateTodoView {
            text: match self.text {
                Some(t) => Some(t@),
                None => None,
            },
            completed: self.completed,
            labels: match self.labels {
                Some(ids) => Some(ids@.map_values(|id: i32| id as int)),
                None => None,
            },
        }
    }
}

impl Clone for UpdateTodo {
    fn clone(&self) -> (res: Self)
        ensures
            res@ == self@,
    {
        let res = UpdateTodo {
            text: match &self.text {
                Some(t) => Some(t.clone()),
                None => None,
            },
            completed: self.completed,
            labels: match &self.labels {
                Some(ids) => Some(clone_ids(ids)),
                None => None,
            },
        };
        proof {
            assert(res@ =~~= self@);
        }
        res
    }
}

impl UpdateTodo {
    /// The text after applying this update to a todo whose text is
    /// `current`: the update's own text when present, else `current`.
    pub fn merged_text(&self, current: &String) -> (text: String)
        ensures
            text@ == match self.text {
                Some(t) => t@,
                None => current@,
            },
    {
        match &self.text {
            Some(t) => t.clone(),
            None => current.clone(),
        }
    }

    /// The completion flag after applying this update.
    pub fn merged_completed(&self, current: bool) -> (completed: bool)
        ensures
            completed == match self.completed {
                Some(c) => c,
                None => current,
            },
    {
        match self.completed {
            Some(c) => c,
            None => current,
        }
    }
}

/// The todo capability set, identical across backends.
pub trait TodoRepository: Sized {
    /// Assigns a fresh id, persists the text with `completed` false,
    /// associates the given label ids, and returns the hydrated aggregate
    /// as it exists after the write.
    fn create(&self, payload: CreateTodo) -> (r: Result<TodoEntity, RepositoryError>)
        ensures
            r matches Ok(todo) ==> {
                &&& todo.text@ == payload.text@
                &&& todo.completed == false
                &&& forall|k: int|
                    0 <= k < todo.labels@.len() ==> payload.labels@.contains(
                        #[trigger] todo.labels@[k].id,
                    )
            },
    ;

    /// Returns the hydrated aggregate, or `NotFound` when the id is absent.
    fn find(&self, id: i32) -> (r: Result<TodoEntity, RepositoryError>)
        ensures
            r matches Ok(todo) ==> todo.id == id,
    ;

    /// Returns every todo, hydrated, ordered by descending id.
    fn all(&self) -> (r: Result<Vec<TodoEntity>, RepositoryError>)
        ensures
            r matches Ok(todos) ==> forall|i: int, j: int|
                0 <= i < j < todos@.len() ==> #[trigger] todos@[i]@.id > #[trigger] todos@[j]@.id,
    ;

    /// Applies only the fields present in the payload; a present `labels`
    /// field replaces the association set. Returns the post-update
    /// aggregate, or `NotFound` when the id is absent.
    fn update(&self, id: i32, payload: UpdateTodo) -> (r: Result<TodoEntity, RepositoryError>)
        ensures
            r matches Ok(todo) ==> {
                &&& todo.id == id
                &&& (payload.text matches Some(t) ==> todo.text@ == t@)
                &&& (payload.completed matches Some(c) ==> todo.completed == c)
                &&& (payload.labels matches Some(ids) ==> forall|k: int|
                    0 <= k < todo.labels@.len() ==> ids@.contains(#[trigger] todo.labels@[k].id))
            },
    ;

    /// Removes the todo and all its label associations as one unit, or
    /// fails with `NotFound` when the id is absent.
    fn delete(&self, id: i32) -> (r: Result<(), RepositoryError>)
    ;
}

/// The label list a single row contributes to a fresh aggregate.
pub open spec fn row_label_seq(row: RowView) -> Seq<LabelView> {
    match row.label {
        Some(label) => seq![label],
        None => Seq::empty(),
    }
}

/// Selects aggregates by todo id.
pub open spec fn entity_id_pred(id: int) -> spec_fn(TodoView) -> bool {
    |todo: TodoView| todo.id == id
}

/// Whether some aggregate in `acc` already carries this todo id.
pub open spec fn has_id(acc: Seq<TodoView>, id: int) -> bool {
    seq_has(acc, entity_id_pred(id))
}

/// The first position in `acc` whose aggregate carries this todo id
/// (meaningful only when `has_id(acc, id)` holds).
pub open spec fn first_index_with_id(acc: Seq<TodoView>, id: int) -> int {
    seq_first(acc, entity_id_pred(id))
}

/// One step of the fold: a row either extends the label list of the
/// aggregate already seen for its todo id (when it carries a label), or
/// starts a new aggregate in first-seen order.
pub open spec fn fold_step(acc: Seq<TodoView>, row: RowView) -> Seq<TodoView> {
    if has_id(acc, row.id) {
        let j = first_index_with_id(acc, row.id);
        match row.label {
            Some(label) => acc.update(
                j,
                TodoView {
                    id: acc[j].id,
                    text: acc[j].text,
                    completed: acc[j].completed,
                    labels: acc[j].labels.push(label),
                },
            ),
            None => acc,
        }
    } else {
        acc.push(
            TodoView {
                id: row.id,
                text: row.text,
                completed: row.completed,
                labels: row_label_seq(row),
            },
        )
    }
}

/// Folds the rows, front to back, onto an accumulator of aggregates.
pub open spec fn fold_rows(acc: Seq<TodoView>, rows: Seq<RowView>) -> Seq<TodoView>
    decreases rows.len(),
{
    if rows.len() == 0 {
        acc
    } else {
        fold_rows(fold_step(acc, rows[0]), rows.drop_first())
    }
}

/// What [`fold_entities`] computes, stated over mathematical values.
pub open spec fn spec_fold_entities(rows: Seq<RowView>) -> Seq<TodoView> {
    fold_rows(Seq::empty(), rows)
}

/// The views of a row vector.
pub open spec fn rows_view(rows: Seq<TodoWithLabelFromRow>) -> Seq<RowView> {
    rows.map_values(|row: TodoWithLabelFromRow| row@)
}

/// The views of an aggregate vector.
pub open spec fn entities_view(todos: Seq<TodoEntity>) -> Seq<TodoView> {
    todos.map_values(|todo: TodoEntity| todo@)
}

/// Folding one more row is one more step.
proof fn lemma_fold_rows_push(acc: Seq<TodoView>, rows: Seq<RowView>, row: RowView)
    ensures
        fold_rows(acc, rows.push(row)) == fold_step(fold_rows(acc, rows), row),
    decreases rows.len(),
{
    if rows.len() == 0 {
        assert(rows.push(row)[0] == row);
        assert(rows.push(row).drop_first() =~= Seq::<RowView>::empty());
        assert(fold_rows(fold_step(acc, row), Seq::<RowView>::empty()) == fold_step(acc, row));
    } else {
        assert(rows.push(row)[0] == rows[0]);
        assert(rows.push(row).drop_first() =~= rows.drop_first().push(row));
        lemma_fold_rows_push(fold_step(acc, rows[0]), rows.drop_first(), row);
    }
}

/// Rows that all carry one todo id — what the per-id join query
/// produces — fold into exactly one aggregate (none when there are no
/// rows), and that aggregate carries the id.
pub proof fn lemma_fold_single_id(rows: Seq<RowView>, id: int)
    requires
        forall|k: int| 0 <= k < rows.len() ==> (#[trigger] rows[k]).id == id,
    ensures
        spec_fold_entities(rows).len() <= 1,
        rows.len() > 0 ==> spec_fold_entities(rows).len() == 1,
        spec_fold_entities(rows).len() > 0 ==> spec_fold_entities(rows)[0].id == id,
    decreases rows.len(),
{
    if rows.len() > 0 {
        let pre = rows.drop_last();
        let row = rows.last();
        lemma_fold_single_id(pre, id);
        assert(pre.push(row) =~= rows);
        lemma_fold_rows_push(Seq::empty(), pre, row);
        let acc = spec_fold_entities(pre);
        if acc.len() == 0 {
            assert(!has_id(acc, row.id));
        } else {
            assert(acc[0].id == id);
            assert(has_id(acc, row.id));
            assert(first_index_with_id(acc, row.id) == 0);
        }
    }
}

/// Collapses flattened join rows into hydrated aggregates: rows sharing
/// a todo id are merged into one aggregate, in first-seen order, whose
/// label list collects the rows' labels in row order.
pub fn fold_entities(rows: Vec<TodoWithLabelFromRow>) -> (result: Vec<TodoEntity>)
    requires
        forall|k: int| 0 <= k < rows@.len() ==> (#[trigger] rows@[k]).wf(),
    ensures
        entities_view(result@) == spec_fold_entities(rows_view(rows@)),
{
    let ghost all_rows: Seq<RowView> = rows_view(rows@);
    let mut result: Vec<TodoEntity> = Vec::new();
    let mut i: usize = 0;
    while i < rows.len()
        invariant
            i <= rows@.len(),
            forall|k: int| 0 <= k < rows@.len() ==> (#[trigger] rows@[k]).wf(),
            all_rows == rows_view(rows@),
            entities_view(result@) == fold_rows(Seq::empty(), all_rows.take(i as int)),
        decreases rows@.len() - i,
    {
        let ghost acc: Seq<TodoView> = entities_view(result@);
        let ghost row_v: RowView = all_rows[i as int];
        let row = &rows[i];
        let row_id = row.id;
        assert(row_v == row@);

        // Scan the accumulator for an aggregate already carrying this id.
        let mut j: usize = 0;
        let mut found = false;
        while !found && j < result.len()
            invariant
                j <= result@.len(),
                acc == entities_view(result@),
                found ==> j < acc.len() && acc[j as int].id == row_id as int,
                forall|k: int| 0 <= k < j as int ==> (#[trigger] acc[k]).id != row_id as int,
            decreases (if found { 0int } else { 1int }), result@.len() - j,
        {
            if result[j].id == row_id {
                assert(acc[j as int].id == row_id as int);
                found = true;
            } else {
                j += 1;
            }
        }

        if found {
            proof {
                lemma_seq_first_is(acc, entity_id_pred(row_id as int), j as int);
            }
            if let Some(lid) = row.label_id {
                let lname = match &row.label_name {
                    Some(n) => n.clone(),
                    None => String::new(),
                };
                let label = Label { id: lid, name: lname };
                assert(row_v.label == Some(label@));
                result[j].labels.push(label);
                proof {
                    assert(entities_view(result@) =~~= fold_step(acc, row_v));
                }
            } else {
                proof {
                    assert(row_v.label is None);
                    assert(entities_view(result@) =~~= fold_step(acc, row_v));
                }
            }
        } else {
            assert(!has_id(acc, row_id as int));
            let labels: Vec<Label> = if let Some(lid) = row.label_id {
                let lname = match &row.label_name {
                    Some(n) => n.clone(),
                    None => String::new(),
                };
                let label = Label { id: lid, name: lname };
                assert(row_v.label == Some(label@));
                let mut ls: Vec<Label> = Vec::new();
                ls.push(label);
                ls
            } else {
                Vec::new()
            };
            assert(labels@.map_values(|label: Label| label@) =~= row_label_seq(row_v));
            result.push(
                TodoEntity { id: row.id, text: row.text.clone(), completed: row.completed, labels },
            );
            proof {
                assert(entities_view(result@) =~~= fold_step(acc, row_v));
            }
        }

        proof {
            assert(all_rows.take(i as int + 1) =~= all_rows.take(i as int).push(row_v));
            lemma_fold_rows_push(Seq::empty(), all_rows.take(i as int), row_v);
        }
        i += 1;
    }
    proof {
        assert(all_rows.take(rows@.len() as int) =~= all_rows);
    }
    result
}

/// The compute half of a relational `find`: folds the rows the backend
/// fetched for one id and takes the single resulting aggregate, or
/// reports `NotFound` when the fold yields none. When every row indeed
/// carries the queried id, the returned aggregate does too.
pub fn find_in_rows(rows: Vec<TodoWithLabelFromRow>, id: i32) -> (r: Result<
    TodoEntity,
    RepositoryError,
>)
    requires
        forall|k: int| 0 <= k < rows@.len() ==> (#[trigger] rows@[k]).wf(),
    ensures
        spec_fold_entities(rows_view(rows@)).len() == 0 ==> r == Err::<
            TodoEntity,
            RepositoryError,
        >(RepositoryError::NotFound(id)),
        spec_fold_entities(rows_view(rows@)).len() > 0 ==> (r matches Ok(todo) && todo@
            == spec_fold_entities(rows_view(rows@))[0]),
        (forall|k: int| 0 <= k < rows@.len() ==> (#[trigger] rows@[k]).id == id) ==> (
        r matches Ok(todo) ==> todo.id == id),
{
    proof {
        if forall|k: int| 0 <= k < rows@.len() ==> (#[trigger] rows@[k]).id == id {
            assert forall|k: int|
                0 <= k < rows_view(rows@).len() implies (#[trigger] rows_view(rows@)[k]).id
                == id as int by {
                assert(rows_view(rows@)[k] == rows@[k]@);
            }
            lemma_fold_single_id(rows_view(rows@), id as int);
        }
    }
    let mut folded = fold_entities(rows);
    if folded.len() == 0 {
        Err(RepositoryError::NotFound(id))
    } else {
        let todo = folded.remove(0);
        Ok(todo)
    }
}

} // verus!
