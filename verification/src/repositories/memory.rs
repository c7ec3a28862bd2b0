//! The in-memory backend: a keyed store of todos and labels behind a
//! verified reader-writer lock.
//!
//! The plain [`MemoryStore`] holds the data and carries the full
//! functional contracts, stated against the mathematical [`StoreView`]
//! model; the repository laws are proved about that model. The
//! `...ForMemory` wrapper types guard one `MemoryStore` with
//! [`vstd::rwlock::RwLock`], so many readers may proceed concurrently
//! while a writer excludes everyone.

use vstd::prelude::*;
use vstd::rwlock::{RwLock, RwLockPredicate};

use std::sync::Arc;

use crate::search::{lemma_seq_first_is, lemma_seq_first_props, seq_first, seq_has};

use super::label::{Label, LabelView};
use super::todo::{TodoEntity, TodoView};

verus! {

/// Selects todo records by id.
pub open spec fn todo_id_pred(id: int) -> spec_fn(TodoRecordView) -> bool {
    |rec: TodoRecordView| rec.id == id
}

/// Selects labels by id.
pub open spec fn label_id_pred(id: int) -> spec_fn(LabelView) -> bool {
    |label: LabelView| label.id == id
}

/// Selects labels by name.
pub open spec fn label_name_pred(name: Seq<char>) -> spec_fn(LabelView) -> bool {
    |label: LabelView| label.name == name
}

/// The mathematical value of a [`TodoRecord`].
#[verifier::ext_equal]
pub struct TodoRecordView {
    pub id: int,
    pub text: Seq<char>,
    pub completed: bool,
    pub label_ids: Seq<int>,
}

/// What the store keeps per todo: the base fields plus the ids of the
/// associated labels. The label list of the aggregate is derived from
/// these ids at read time.
#[derive(Debug, PartialEq, Eq)]
pub struct TodoRecord {
    pub id: i32,
    pub text: String,
    pub completed: bool,
    pub label_ids: Vec<i32>,
}

impl View for TodoRecord {
    type V = TodoRecordView;

    open spec fn view(&self) -> TodoRecordView {
        TodoRecordView {
            id: self.id as int,
            text: self.text@,
            completed: self.completed,
            label_ids: self.label_ids@.map_values(|id: i32| id as int),
        }
    }
}

/// The views of a record vector.
pub open spec fn records_view(recs: Seq<TodoRecord>) -> Seq<TodoRecordView> {
    recs.map_values(|rec: TodoRecord| rec@)
}

/// The views of a label vector.
pub open spec fn labels_view(labels: Seq<Label>) -> Seq<LabelView> {
    labels.map_values(|label: Label| label@)
}

/// The views of a vector of ids.
pub open spec fn ids_view(ids: Seq<i32>) -> Seq<int> {
    ids.map_values(|id: i32| id as int)
}

/// Whether a sequence of ids holds no value twice.
pub open spec fn distinct_ids(ids: Seq<int>) -> bool {
    forall|i: int, j: int| 0 <= i < j < ids.len() ==> ids[i] != ids[j]
}

/// The ids with later repetitions dropped: each id's first occurrence
/// survives, in order.
pub open spec fn dedup_ids(ids: Seq<int>) -> Seq<int>
    decreases ids.len(),
{
    if ids.len() == 0 {
        Seq::empty()
    } else {
        let pre = dedup_ids(ids.drop_last());
        if pre.contains(ids.last()) {
            pre
        } else {
            pre.push(ids.last())
        }
    }
}

/// Deduplication keeps exactly the ids that were there, and no id twice.
pub proof fn lemma_dedup_ids(ids: Seq<int>)
    ensures
        distinct_ids(dedup_ids(ids)),
        forall|k: int|
            0 <= k < dedup_ids(ids).len() ==> ids.contains(#[trigger] dedup_ids(ids)[k]),
        forall|k: int| 0 <= k < ids.len() ==> dedup_ids(ids).contains(#[trigger] ids[k]),
    decreases ids.len(),
{
    if ids.len() > 0 {
        lemma_dedup_ids(ids.drop_last());
        let pre = dedup_ids(ids.drop_last());
        let whole = dedup_ids(ids);
        assert forall|k: int| 0 <= k < whole.len() implies ids.contains(#[trigger] whole[k]) by {
            if k < pre.len() {
                assert(whole[k] == pre[k]);
                assert(ids.drop_last().contains(pre[k]));
                let m = choose|m: int|
                    0 <= m < ids.drop_last().len() && ids.drop_last()[m] == pre[k];
                assert(ids[m] == pre[k]);
            } else {
                assert(whole[k] == ids.last());
                assert(ids[ids.len() - 1] == ids.last());
            }
        }
        assert forall|k: int| 0 <= k < ids.len() implies whole.contains(#[trigger] ids[k]) by {
            if k < ids.len() - 1 {
                assert(ids.drop_last()[k] == ids[k]);
                assert(pre.contains(ids.drop_last()[k]));
                let n = choose|n: int| 0 <= n < pre.len() && pre[n] == ids[k];
                assert(whole[n] == ids[k]);
            } else {
                if pre.contains(ids.last()) {
                    let n = choose|n: int| 0 <= n < pre.len() && pre[n] == ids.last();
                    assert(whole[n] == ids.last());
                } else {
                    assert(whole[whole.len() - 1] == ids.last());
                }
            }
        }
        if !pre.contains(ids.last()) {
            assert forall|i: int, j: int|
                0 <= i < j < whole.len() implies whole[i] != whole[j] by {
                assert(whole[i] == pre[i]);
                if j == whole.len() - 1 {
                    if pre[i] == ids.last() {
                        assert(pre.contains(ids.last()));
                    }
                } else {
                    assert(whole[j] == pre[j]);
                }
            }
        }
    }
}

/// Copies a list of label ids, dropping every repetition after an id's
/// first occurrence.
fn dedup_label_ids(ids: &Vec<i32>) -> (res: Vec<i32>)
    ensures
        ids_view(res@) == dedup_ids(ids_view(ids@)),
{
    let ghost iv = ids_view(ids@);
    let mut res: Vec<i32> = Vec::new();
    let mut i: usize = 0;
    while i < ids.len()
        invariant
            i <= ids@.len(),
            iv == ids_view(ids@),
            ids_view(res@) == dedup_ids(iv.take(i as int)),
        decreases ids@.len() - i,
    {
        proof {
            assert(iv.take(i as int + 1).drop_last() =~= iv.take(i as int));
            assert(iv.take(i as int + 1).last() == iv[i as int]);
        }
        let candidate = ids[i];
        let mut seen = false;
        let mut j: usize = 0;
        while !seen && j < res.len()
            invariant
                j <= res@.len(),
                seen ==> j < res@.len() && res@[j as int] == candidate,
                forall|k: int| 0 <= k < j as int ==> res@[k] != candidate,
            decreases (if seen { 0int } else { 1int }), res@.len() - j,
        {
            if res[j] == candidate {
                seen = true;
            } else {
                j += 1;
            }
        }
        if seen {
            proof {
                assert(ids_view(res@)[j as int] == iv[i as int]);
                assert(ids_view(res@).contains(iv[i as int]));
                assert(ids_view(res@) =~= dedup_ids(iv.take(i as int + 1)));
            }
        } else {
            proof {
                if ids_view(res@).contains(iv[i as int]) {
                    let n = choose|n: int|
                        0 <= n < ids_view(res@).len() && ids_view(res@)[n] == iv[i as int];
                    assert(res@[n] as int == candidate as int);
                    assert(res@[n] == candidate);
                    assert(false);
                }
            }
            res.push(candidate);
            proof {
                assert(ids_view(res@) =~= dedup_ids(iv.take(i as int + 1)));
            }
        }
        i += 1;
    }
    proof {
        assert(iv.take(iv.len() as int) =~= iv);
    }
    res
}

/// The first label carrying this id, if any.
pub open spec fn lookup_label(labels: Seq<LabelView>, id: int) -> Option<LabelView> {
    if seq_has(labels, label_id_pred(id)) {
        Some(labels[seq_first(labels, label_id_pred(id))])
    } else {
        None
    }
}

/// The labels these ids resolve to, in id-list order; an id no label
/// carries (a dangling association) is skipped.
pub open spec fn hydrate_ids(labels: Seq<LabelView>, ids: Seq<int>) -> Seq<LabelView>
    decreases ids.len(),
{
    if ids.len() == 0 {
        Seq::empty()
    } else {
        hydrate_ids(labels, ids.drop_last()) + match lookup_label(labels, ids.last()) {
            Some(label) => seq![label],
            None => Seq::empty(),
        }
    }
}

/// Every hydrated label was asked for: its id is among the given ids.
pub proof fn lemma_hydrate_ids_members(labels: Seq<LabelView>, ids: Seq<int>)
    ensures
        forall|k: int|
            0 <= k < hydrate_ids(labels, ids).len() ==> ids.contains(
                #[trigger] hydrate_ids(labels, ids)[k].id,
            ),
    decreases ids.len(),
{
    if ids.len() == 0 {
    } else {
        lemma_hydrate_ids_members(labels, ids.drop_last());
        let pre = hydrate_ids(labels, ids.drop_last());
        let whole = hydrate_ids(labels, ids);
        if lookup_label(labels, ids.last()) is Some {
            lemma_seq_first_props(labels, label_id_pred(ids.last()));
        }
        assert(ids[ids.len() - 1] == ids.last());
        assert(ids.contains(ids.last()));
        assert forall|k: int| 0 <= k < whole.len() implies ids.contains(whole[k].id) by {
            if k < pre.len() {
                assert(whole[k] == pre[k]);
                assert(ids.drop_last().contains(pre[k].id));
                let m = choose|m: int|
                    0 <= m < ids.drop_last().len() && ids.drop_last()[m] == pre[k].id;
                assert(ids[m] == pre[k].id);
            } else {
                assert(whole[k].id == ids.last());
            }
        }
    }
}

/// The mathematical value of a [`MemoryStore`].
#[verifier::ext_equal]
pub struct StoreView {
    pub todos: Seq<TodoRecordView>,
    pub labels: Seq<LabelView>,
    pub next_todo_id: int,
    pub next_label_id: int,
}

impl StoreView {
    /// The state of a freshly created store.
    pub open spec fn initial() -> StoreView {
        StoreView {
            todos: Seq::empty(),
            labels: Seq::empty(),
            next_todo_id: 1,
            next_label_id: 1,
        }
    }

    /// The store's invariant: ids are positive, below the monotonic
    /// counters, and listed in order (todos descending, labels
    /// ascending — so both are duplicate-free); each record's
    /// association set holds no label id twice; label names are unique.
    pub open spec fn wf(self) -> bool {
        &&& forall|i: int, j: int|
            0 <= i < j < self.todos.len() ==> #[trigger] self.todos[i].id > #[trigger] self.todos[j].id
        &&& forall|i: int|
            0 <= i < self.todos.len() ==> 1 <= (#[trigger] self.todos[i]).id < self.next_todo_id
        &&& forall|i: int|
            0 <= i < self.todos.len() ==> distinct_ids((#[trigger] self.todos[i]).label_ids)
        &&& forall|i: int, j: int|
            0 <= i < j < self.labels.len() ==> #[trigger] self.labels[i].id < #[trigger] self.labels[j].id
        &&& forall|i: int|
            0 <= i < self.labels.len() ==> 1 <= (#[trigger] self.labels[i]).id < self.next_label_id
        &&& forall|i: int, j: int|
            0 <= i < j < self.labels.len() ==> (#[trigger] self.labels[i]).name != (
            #[trigger] self.labels[j]).name
        &&& 1 <= self.next_todo_id <= i32::MAX
        &&& 1 <= self.next_label_id <= i32::MAX
    }

    /// The aggregate a record denotes, its labels resolved against this
    /// store's label table.
    pub open spec fn hydrate_record(self, rec: TodoRecordView) -> TodoView {
        TodoView {
            id: rec.id,
            text: rec.text,
            completed: rec.completed,
            labels: hydrate_ids(self.labels, rec.label_ids),
        }
    }

    /// Whether a todo with this id is stored.
    pub open spec fn has_todo(self, id: int) -> bool {
        seq_has(self.todos, todo_id_pred(id))
    }

    /// The hydrated todo with this id, if stored.
    pub open spec fn find_todo(self, id: int) -> Option<TodoView> {
        if self.has_todo(id) {
            Some(self.hydrate_record(self.todos[seq_first(self.todos, todo_id_pred(id))]))
        } else {
            None
        }
    }

    /// Every stored todo, hydrated, in storage (descending-id) order.
    pub open spec fn all_todos(self) -> Seq<TodoView> {
        self.todos.map_values(|rec: TodoRecordView| self.hydrate_record(rec))
    }

    /// Creating a todo: a fresh record takes the next id and the front
    /// position, and the returned aggregate is its hydration. The
    /// association set keeps each given label id once.
    pub open spec fn create_todo(self, cmd: super::todo::CreateTodoView) -> (StoreView, TodoView) {
        let rec = TodoRecordView {
            id: self.next_todo_id,
            text: cmd.text,
            completed: false,
            label_ids: dedup_ids(cmd.labels),
        };
        let post = StoreView {
            todos: seq![rec] + self.todos,
            labels: self.labels,
            next_todo_id: self.next_todo_id + 1,
            next_label_id: self.next_label_id,
        };
        (post, self.hydrate_record(rec))
    }

    /// Updating a todo: fields present in the command replace the
    /// record's, absent ones are kept; a present label-id list replaces
    /// the association set outright. Yields the post-update hydration,
    /// or `None` when the id is absent (and then the store is unchanged).
    pub open spec fn update_todo(self, id: int, upd: super::todo::UpdateTodoView) -> (
        StoreView,
        Option<TodoView>,
    ) {
        if self.has_todo(id) {
            let j = seq_first(self.todos, todo_id_pred(id));
            let old_rec = self.todos[j];
            let rec = TodoRecordView {
                id: id,
                text: match upd.text {
                    Some(t) => t,
                    None => old_rec.text,
                },
                completed: match upd.completed {
                    Some(c) => c,
                    None => old_rec.completed,
                },
                label_ids: match upd.labels {
                    Some(ids) => dedup_ids(ids),
                    None => old_rec.label_ids,
                },
            };
            let post = StoreView {
                todos: self.todos.update(j, rec),
                labels: self.labels,
                next_todo_id: self.next_todo_id,
                next_label_id: self.next_label_id,
            };
            (post, Some(post.hydrate_record(rec)))
        } else {
            (self, None)
        }
    }

    /// Deleting a todo removes its record — and with it every label
    /// association, which the record itself carries. `None` when absent.
    pub open spec fn delete_todo(self, id: int) -> Option<StoreView> {
        if self.has_todo(id) {
            let j = seq_first(self.todos, todo_id_pred(id));
            Some(
                StoreView {
                    todos: self.todos.remove(j),
                    labels: self.labels,
                    next_todo_id: self.next_todo_id,
                    next_label_id: self.next_label_id,
                },
            )
        } else {
            None
        }
    }

    /// The first label carrying this name, if any.
    pub open spec fn find_label_by_name(self, name: Seq<char>) -> Option<LabelView> {
        if seq_has(self.labels, label_name_pred(name)) {
            Some(self.labels[seq_first(self.labels, label_name_pred(name))])
        } else {
            None
        }
    }

    /// Creating a label: rejected (store unchanged) when the name is
    /// taken, the existing label returned as the error; otherwise a
    /// fresh label takes the next id and the back position.
    pub open spec fn create_label(self, name: Seq<char>) -> (StoreView, Result<
        LabelView,
        LabelView,
    >) {
        match self.find_label_by_name(name) {
            Some(existing) => (self, Err(existing)),
            None => {
                let label = LabelView { id: self.next_label_id, name: name };
                let post = StoreView {
                    todos: self.todos,
                    labels: self.labels.push(label),
                    next_todo_id: self.next_todo_id,
                    next_label_id: self.next_label_id + 1,
                };
                (post, Ok(label))
            },
        }
    }

    /// Deleting a label removes it from the label table only; records
    /// still naming its id keep a dangling association, which hydration
    /// tolerates by skipping it.
    pub open spec fn delete_label(self, id: int) -> Option<StoreView> {
        if seq_has(self.labels, label_id_pred(id)) {
            let j = seq_first(self.labels, label_id_pred(id));
            Some(
                StoreView {
                    todos: self.todos,
                    labels: self.labels.remove(j),
                    next_todo_id: self.next_todo_id,
                    next_label_id: self.next_label_id,
                },
            )
        } else {
            None
        }
    }
}

/// Scans the label table for the first label carrying this id.
fn lookup_label_exec(labels: &Vec<Label>, id: i32) -> (r: Option<Label>)
    ensures
        match r {
            Some(label) => lookup_label(labels_view(labels@), id as int) == Some(label@),
            None => lookup_label(labels_view(labels@), id as int) is None,
        },
{
    let ghost lv = labels_view(labels@);
    let mut j: usize = 0;
    let mut found = false;
    while !found && j < labels.len()
        invariant
            j <= labels@.len(),
            lv == labels_view(labels@),
            found ==> j < lv.len() && lv[j as int].id == id as int,
            forall|k: int| 0 <= k < j as int ==> (#[trigger] lv[k]).id != id as int,
        decreases (if found { 0int } else { 1int }), labels@.len() - j,
    {
        if labels[j].id == id {
            assert(lv[j as int].id == id as int);
            found = true;
        } else {
            j += 1;
        }
    }
    if found {
        proof {
            lemma_seq_first_is(lv, label_id_pred(id as int), j as int);
        }
        Some(labels[j].clone())
    } else {
        proof {
            assert(!seq_has(lv, label_id_pred(id as int)));
        }
        None
    }
}

/// Resolves a list of label ids against the label table, in list order,
/// skipping ids no label carries.
fn hydrate_labels(labels: &Vec<Label>, ids: &Vec<i32>) -> (r: Vec<Label>)
    ensures
        labels_view(r@) == hydrate_ids(labels_view(labels@), ids_view(ids@)),
{
    let ghost lv = labels_view(labels@);
    let ghost iv = ids_view(ids@);
    let mut r: Vec<Label> = Vec::new();
    let mut i: usize = 0;
    while i < ids.len()
        invariant
            i <= ids@.len(),
            lv == labels_view(labels@),
            iv == ids_view(ids@),
            labels_view(r@) == hydrate_ids(lv, iv.take(i as int)),
        decreases ids@.len() - i,
    {
        let ghost pre = iv.take(i as int);
        proof {
            assert(iv.take(i as int + 1).drop_last() =~= pre);
            assert(iv.take(i as int + 1).last() == iv[i as int]);
        }
        match lookup_label_exec(labels, ids[i]) {
            Some(label) => {
                r.push(label);
                proof {
                    assert(labels_view(r@) =~= hydrate_ids(lv, iv.take(i as int + 1)));
                }
            },
            None => {
                proof {
                    assert(labels_view(r@) =~= hydrate_ids(lv, iv.take(i as int + 1)));
                }
            },
        }
        i += 1;
    }
    proof {
        assert(iv.take(iv.len() as int) =~= iv);
    }
    r
}

/// Scans the records for the first one carrying this todo id.
fn todo_index_of(todos: &Vec<TodoRecord>, id: i32) -> (r: Option<usize>)
    ensures
        match r {
            Some(j) => {
                &&& seq_has(records_view(todos@), todo_id_pred(id as int))
                &&& j < todos@.len()
                &&& j as int == seq_first(records_view(todos@), todo_id_pred(id as int))
            },
            None => !seq_has(records_view(todos@), todo_id_pred(id as int)),
        },
{
    let ghost rv = records_view(todos@);
    let mut j: usize = 0;
    let mut found = false;
    while !found && j < todos.len()
        invariant
            j <= todos@.len(),
            rv == records_view(todos@),
            found ==> j < rv.len() && rv[j as int].id == id as int,
            forall|k: int| 0 <= k < j as int ==> (#[trigger] rv[k]).id != id as int,
        decreases (if found { 0int } else { 1int }), todos@.len() - j,
    {
        if todos[j].id == id {
            assert(rv[j as int].id == id as int);
            found = true;
        } else {
            j += 1;
        }
    }
    if found {
        proof {
            lemma_seq_first_is(rv, todo_id_pred(id as int), j as int);
        }
        Some(j)
    } else {
        proof {
            assert(!seq_has(rv, todo_id_pred(id as int)));
        }
        None
    }
}

/// The concurrency-free store: todos and labels in two ordered tables,
/// with monotonic id counters. All repository logic is here, fully
/// specified against [`StoreView`].
#[derive(Debug)]
pub struct MemoryStore {
    pub todos: Vec<TodoRecord>,
    pub labels: Vec<Label>,
    pub next_todo_id: i32,
    pub next_label_id: i32,
}

impl View for MemoryStore {
    type V = StoreView;

    open spec fn view(&self) -> StoreView {
        StoreView {
            todos: records_view(self.todos@),
            labels: labels_view(self.labels@),
            next_todo_id: self.next_todo_id as int,
            next_label_id: self.next_label_id as int,
        }
    }
}

impl MemoryStore {
    /// The store's invariant, at the model level.
    pub open spec fn wf(&self) -> bool {
        self@.wf()
    }

    /// An empty store.
    pub fn new() -> (store: Self)
        ensures
            store@ == StoreView::initial(),
            store.wf(),
    {
        let store = MemoryStore {
            todos: Vec::new(),
            labels: Vec::new(),
            next_todo_id: 1,
            next_label_id: 1,
        };
        proof {
            assert(store@ =~~= StoreView::initial());
        }
        store
    }

    /// Hydrates one record against this store's label table.
    fn hydrate(&self, rec: &TodoRecord) -> (todo: TodoEntity)
        ensures
            todo@ == self@.hydrate_record(rec@),
    {
        let todo = TodoEntity {
            id: rec.id,
            text: rec.text.clone(),
            completed: rec.completed,
            labels: hydrate_labels(&self.labels, &rec.label_ids),
        };
        proof {
            assert(todo@ =~~= self@.hydrate_record(rec@));
        }
        todo
    }

    /// Stores a new todo under the next id and returns its hydration.
    pub fn create_todo(&mut self, payload: super::todo::CreateTodo) -> (todo: TodoEntity)
        requires
            old(self).wf(),
            old(self).next_todo_id < i32::MAX,
        ensures
            final(self)@ == old(self)@.create_todo(payload@).0,
            todo@ == old(self)@.create_todo(payload@).1,
            final(self).wf(),
            todo.id == old(self).next_todo_id,
    {
        let id = self.next_todo_id;
        let label_ids = dedup_label_ids(&payload.labels);
        let rec = TodoRecord {
            id,
            text: payload.text,
            completed: false,
            label_ids,
        };
        let todo = self.hydrate(&rec);
        self.todos.insert(0, rec);
        self.next_todo_id = id + 1;
        proof {
            lemma_dedup_ids(payload@.labels);
            let ghost (post, t) = old(self)@.create_todo(payload@);
            assert(self@.todos =~= post.todos);
            assert(self@ =~~= post);
            assert(todo@ =~~= t);
            assert forall|i: int, j: int|
                0 <= i < j < self@.todos.len() implies #[trigger] self@.todos[i].id
                > #[trigger] self@.todos[j].id by {
                if i == 0 {
                    assert(self@.todos[j] == old(self)@.todos[j - 1]);
                } else {
                    assert(self@.todos[i] == old(self)@.todos[i - 1]);
                    assert(self@.todos[j] == old(self)@.todos[j - 1]);
                }
            }
            assert forall|i: int|
                0 <= i < self@.todos.len() implies distinct_ids(
                (#[trigger] self@.todos[i]).label_ids,
            ) by {
                if i > 0 {
                    assert(self@.todos[i] == old(self)@.todos[i - 1]);
                }
            }
            assert(self.wf());
        }
        todo
    }

    /// Returns the hydrated todo with this id, or `NotFound`.
    pub fn find_todo(&self, id: i32) -> (r: Result<TodoEntity, super::RepositoryError>)
        requires
            self.wf(),
        ensures
            match r {
                Ok(todo) => self@.find_todo(id as int) == Some(todo@),
                Err(e) => {
                    &&& self@.find_todo(id as int) is None
                    &&& e == super::RepositoryError::NotFound(id)
                },
            },
    {
        match todo_index_of(&self.todos, id) {
            Some(j) => {
                let todo = self.hydrate(&self.todos[j]);
                Ok(todo)
            },
            None => Err(super::RepositoryError::NotFound(id)),
        }
    }

    /// Returns every todo, hydrated, in descending-id order.
    pub fn all_todos(&self) -> (todos: Vec<TodoEntity>)
        requires
            self.wf(),
        ensures
            super::todo::entities_view(todos@) == self@.all_todos(),
    {
        let mut todos: Vec<TodoEntity> = Vec::new();
        let mut i: usize = 0;
        while i < self.todos.len()
            invariant
                i <= self.todos@.len(),
                super::todo::entities_view(todos@) =~= self@.all_todos().take(i as int),
            decreases self.todos@.len() - i,
        {
            let todo = self.hydrate(&self.todos[i]);
            todos.push(todo);
            proof {
                assert(self@.all_todos().len() == self.todos@.len());
                assert(self@.all_todos().take(i as int).len() == i as int);
                assert(super::todo::entities_view(todos@).len() == todos@.len());
                assert(todos@.len() == i + 1);
                assert(todos@[i as int] == todo);
                assert(records_view(self.todos@)[i as int] == self.todos@[i as int]@);
                assert(self@.all_todos()[i as int] == self@.hydrate_record(
                    self@.todos[i as int],
                ));
                assert(super::todo::entities_view(todos@)[i as int] == todo@);
                assert(super::todo::entities_view(todos@) =~= self@.all_todos().take(
                    i as int + 1,
                ));
            }
            i += 1;
        }
        proof {
            assert(self@.all_todos().take(self.todos@.len() as int) =~= self@.all_todos());
        }
        todos
    }

    /// Applies a partial update to the todo with this id and returns its
    /// post-update hydration, or `NotFound` (store unchanged).
    pub fn update_todo(&mut self, id: i32, payload: super::todo::UpdateTodo) -> (r: Result<
        TodoEntity,
        super::RepositoryError,
    >)
        requires
            old(self).wf(),
        ensures
            final(self)@ == old(self)@.update_todo(id as int, payload@).0,
            final(self).wf(),
            match r {
                Ok(todo) => old(self)@.update_todo(id as int, payload@).1 == Some(todo@),
                Err(e) => {
                    &&& old(self)@.update_todo(id as int, payload@).1 is None
                    &&& e == super::RepositoryError::NotFound(id)
                },
            },
    {
        match todo_index_of(&self.todos, id) {
            None => {
                proof {
                    assert(self@ =~~= old(self)@.update_todo(id as int, payload@).0);
                }
                Err(super::RepositoryError::NotFound(id))
            },
            Some(j) => {
                let new_text = payload.merged_text(&self.todos[j].text);
                let new_completed = payload.merged_completed(self.todos[j].completed);
                let new_label_ids: Vec<i32> = match &payload.labels {
                    Some(ids) => dedup_label_ids(ids),
                    None => super::todo::clone_ids(&self.todos[j].label_ids),
                };
                let rec = TodoRecord {
                    id,
                    text: new_text,
                    completed: new_completed,
                    label_ids: new_label_ids,
                };
                let todo = self.hydrate(&rec);
                self.todos[j] = rec;
                proof {
                    lemma_seq_first_props(old(self)@.todos, todo_id_pred(id as int));
                    if payload@.labels is Some {
                        lemma_dedup_ids(payload@.labels->0);
                    }
                    let ghost (post, res) = old(self)@.update_todo(id as int, payload@);
                    assert(self@.todos =~= post.todos);
                    assert(self@ =~~= post);
                    assert(todo@ =~~= res->0);
                    assert forall|a: int, b: int|
                        0 <= a < b < self@.todos.len() implies #[trigger] self@.todos[a].id
                        > #[trigger] self@.todos[b].id by {
                        assert(old(self)@.todos[j as int].id == id as int);
                        assert(self@.todos[a].id == old(self)@.todos[a].id);
                        assert(self@.todos[b].id == old(self)@.todos[b].id);
                    }
                    assert forall|a: int|
                        0 <= a < self@.todos.len() implies distinct_ids(
                        (#[trigger] self@.todos[a]).label_ids,
                    ) by {
                        if a != j as int {
                            assert(self@.todos[a] == old(self)@.todos[a]);
                        }
                    }
                    assert(self.wf());
                }
                Ok(todo)
            },
        }
    }

    /// Scans the label table for the first label carrying this name.
    fn label_index_by_name(&self, name: &String) -> (r: Option<usize>)
        ensures
            match r {
                Some(j) => {
                    &&& seq_has(self@.labels, label_name_pred(name@))
                    &&& j < self.labels@.len()
                    &&& j as int == seq_first(self@.labels, label_name_pred(name@))
                },
                None => !seq_has(self@.labels, label_name_pred(name@)),
            },
    {
        let ghost lv = self@.labels;
        let mut j: usize = 0;
        let mut found = false;
        while !found && j < self.labels.len()
            invariant
                j <= self.labels@.len(),
                lv == self@.labels,
                found ==> j < lv.len() && lv[j as int].name == name@,
                forall|k: int| 0 <= k < j as int ==> (#[trigger] lv[k]).name != name@,
            decreases (if found { 0int } else { 1int }), self.labels@.len() - j,
        {
            if self.labels[j].name == *name {
                assert(lv[j as int].name == name@);
                found = true;
            } else {
                j += 1;
            }
        }
        if found {
            proof {
                lemma_seq_first_is(lv, label_name_pred(name@), j as int);
            }
            Some(j)
        } else {
            proof {
                assert(!seq_has(lv, label_name_pred(name@)));
            }
            None
        }
    }

    /// Scans the label table for the first label carrying this id.
    fn label_index_by_id(&self, id: i32) -> (r: Option<usize>)
        ensures
            match r {
                Some(j) => {
                    &&& seq_has(self@.labels, label_id_pred(id as int))
                    &&& j < self.labels@.len()
                    &&& j as int == seq_first(self@.labels, label_id_pred(id as int))
                },
                None => !seq_has(self@.labels, label_id_pred(id as int)),
            },
    {
        let ghost lv = self@.labels;
        let mut j: usize = 0;
        let mut found = false;
        while !found && j < self.labels.len()
            invariant
                j <= self.labels@.len(),
                lv == self@.labels,
                found ==> j < lv.len() && lv[j as int].id == id as int,
                forall|k: int| 0 <= k < j as int ==> (#[trigger] lv[k]).id != id as int,
            decreases (if found { 0int } else { 1int }), self.labels@.len() - j,
        {
            if self.labels[j].id == id {
                assert(lv[j as int].id == id as int);
                found = true;
            } else {
                j += 1;
            }
        }
        if found {
            proof {
                lemma_seq_first_is(lv, label_id_pred(id as int), j as int);
            }
            Some(j)
        } else {
            proof {
                assert(!seq_has(lv, label_id_pred(id as int)));
            }
            None
        }
    }

    /// Stores a new label under the next id, unless the name is already
    /// taken — then fails with `Duplicate` carrying the existing label's
    /// id, leaving the store unchanged.
    pub fn create_label(&mut self, payload: super::label::CreateLabel) -> (r: Result<
        Label,
        super::RepositoryError,
    >)
        requires
            old(self).wf(),
            old(self).next_label_id < i32::MAX,
        ensures
            final(self)@ == old(self)@.create_label(payload.name@).0,
            final(self).wf(),
            match r {
                Ok(label) => old(self)@.create_label(payload.name@).1 == Ok::<
                    LabelView,
                    LabelView,
                >(label@),
                Err(e) => {
                    &&& old(self)@.create_label(payload.name@).1 is Err
                    &&& e == super::RepositoryError::Duplicate(
                        old(self)@.create_label(payload.name@).1->Err_0.id as i32,
                    )
                },
            },
    {
        match self.label_index_by_name(&payload.name) {
            Some(j) => {
                proof {
                    lemma_seq_first_props(self@.labels, label_name_pred(payload.name@));
                }
                let existing_id = self.labels[j].id;
                Err(super::RepositoryError::Duplicate(existing_id))
            },
            None => {
                let id = self.next_label_id;
                let label = Label { id, name: payload.name };
                self.labels.push(label.clone());
                self.next_label_id = id + 1;
                proof {
                    let ghost (post, res) = old(self)@.create_label(label.name@);
                    assert(self@.labels =~= post.labels);
                    assert(self@ =~~= post);
                    assert forall|a: int, b: int|
                        0 <= a < b < self@.labels.len() implies #[trigger] self@.labels[a].id
                        < #[trigger] self@.labels[b].id by {
                        if b == self@.labels.len() - 1 {
                            assert(self@.labels[a] == old(self)@.labels[a]);
                        } else {
                            assert(self@.labels[a] == old(self)@.labels[a]);
                            assert(self@.labels[b] == old(self)@.labels[b]);
                        }
                    }
                    assert forall|a: int, b: int|
                        0 <= a < b < self@.labels.len() implies (#[trigger] self@.labels[a]).name
                        != (#[trigger] self@.labels[b]).name by {
                        if b == self@.labels.len() - 1 {
                            assert(self@.labels[a] == old(self)@.labels[a]);
                            assert(!(label_name_pred(label.name@))(old(self)@.labels[a]));
                        } else {
                            assert(self@.labels[a] == old(self)@.labels[a]);
                            assert(self@.labels[b] == old(self)@.labels[b]);
                        }
                    }
                    assert(self.wf());
                }
                Ok(label)
            },
        }
    }

    /// Returns every label, in ascending-id order.
    pub fn all_labels(&self) -> (labels: Vec<Label>)
        requires
            self.wf(),
        ensures
            labels_view(labels@) == self@.labels,
    {
        let mut labels: Vec<Label> = Vec::new();
        let mut i: usize = 0;
        while i < self.labels.len()
            invariant
                i <= self.labels@.len(),
                labels_view(labels@) =~= self@.labels.take(i as int),
            decreases self.labels@.len() - i,
        {
            labels.push(self.labels[i].clone());
            proof {
                assert(self@.labels.len() == self.labels@.len());
                assert(self@.labels.take(i as int).len() == i as int);
                assert(labels_view(labels@).len() == labels@.len());
                assert(labels@.len() == i + 1);
                assert(labels_view(labels@)[i as int] == labels@[i as int]@);
                assert(labels@[i as int] == self.labels@[i as int]);
                assert(labels_view(labels@) =~= self@.labels.take(i as int + 1));
            }
            i += 1;
        }
        proof {
            assert(self@.labels.take(self.labels@.len() as int) =~= self@.labels);
        }
        labels
    }

    /// Removes the label with this id, or fails with `NotFound` (store
    /// unchanged). Associations naming the id are left to dangle, as the
    /// delete of a label does not cascade to todos.
    pub fn delete_label(&mut self, id: i32) -> (r: Result<(), super::RepositoryError>)
        requires
            old(self).wf(),
        ensures
            final(self).wf(),
            match r {
                Ok(()) => Some(final(self)@) == old(self)@.delete_label(id as int),
                Err(e) => {
                    &&& old(self)@.delete_label(id as int) is None
                    &&& final(self)@ == old(self)@
                    &&& e == super::RepositoryError::NotFound(id)
                },
            },
    {
        match self.label_index_by_id(id) {
            None => Err(super::RepositoryError::NotFound(id)),
            Some(j) => {
                self.labels.remove(j);
                proof {
                    let ghost post = old(self)@.delete_label(id as int)->0;
                    assert(self@.labels =~= post.labels);
                    assert(self@ =~~= post);
                    assert forall|a: int, b: int|
                        0 <= a < b < self@.labels.len() implies #[trigger] self@.labels[a].id
                        < #[trigger] self@.labels[b].id by {
                        let a0 = if a < j as int { a } else { a + 1 };
                        let b0 = if b < j as int { b } else { b + 1 };
                        assert(self@.labels[a] == old(self)@.labels[a0]);
                        assert(self@.labels[b] == old(self)@.labels[b0]);
                    }
                    assert forall|a: int, b: int|
                        0 <= a < b < self@.labels.len() implies (#[trigger] self@.labels[a]).name
                        != (#[trigger] self@.labels[b]).name by {
                        let a0 = if a < j as int { a } else { a + 1 };
                        let b0 = if b < j as int { b } else { b + 1 };
                        assert(self@.labels[a] == old(self)@.labels[a0]);
                        assert(self@.labels[b] == old(self)@.labels[b0]);
                    }
                    assert(self.wf());
                }
                Ok(())
            },
        }
    }

    /// Removes the todo with this id together with its associations, or
    /// fails with `NotFound` (store unchanged).
    pub fn delete_todo(&mut self, id: i32) -> (r: Result<(), super::RepositoryError>)
        requires
            old(self).wf(),
        ensures
            final(self).wf(),
            match r {
                Ok(()) => Some(final(self)@) == old(self)@.delete_todo(id as int),
                Err(e) => {
                    &&& old(self)@.delete_todo(id as int) is None
                    &&& final(self)@ == old(self)@
                    &&& e == super::RepositoryError::NotFound(id)
                },
            },
    {
        match todo_index_of(&self.todos, id) {
            None => Err(super::RepositoryError::NotFound(id)),
            Some(j) => {
                self.todos.remove(j);
                proof {
                    let ghost post = old(self)@.delete_todo(id as int)->0;
                    assert(self@.todos =~= post.todos);
                    assert(self@ =~~= post);
                    assert forall|a: int, b: int|
                        0 <= a < b < self@.todos.len() implies #[trigger] self@.todos[a].id
                        > #[trigger] self@.todos[b].id by {
                        let a0 = if a < j as int { a } else { a + 1 };
                        let b0 = if b < j as int { b } else { b + 1 };
                        assert(self@.todos[a] == old(self)@.todos[a0]);
                        assert(self@.todos[b] == old(self)@.todos[b0]);
                    }
                    assert(self.wf());
                }
                Ok(())
            },
        }
    }
}

/// Hydrating pairwise-distinct ids yields labels with pairwise-distinct
/// ids: each id resolves to at most one label.
proof fn lemma_hydrate_ids_distinct(labels: Seq<LabelView>, ids: Seq<int>)
    requires
        distinct_ids(ids),
    ensures
        forall|i: int, j: int|
            0 <= i < j < hydrate_ids(labels, ids).len() ==> #[trigger] hydrate_ids(
                labels,
                ids,
            )[i].id != #[trigger] hydrate_ids(labels, ids)[j].id,
    decreases ids.len(),
{
    if ids.len() > 0 {
        assert(forall|k: int| 0 <= k < ids.len() - 1 ==> ids.drop_last()[k] == ids[k]);
        assert(distinct_ids(ids.drop_last()));
        lemma_hydrate_ids_distinct(labels, ids.drop_last());
        lemma_hydrate_ids_members(labels, ids.drop_last());
        let pre = hydrate_ids(labels, ids.drop_last());
        let whole = hydrate_ids(labels, ids);
        if lookup_label(labels, ids.last()) is Some {
            lemma_seq_first_props(labels, label_id_pred(ids.last()));
            assert(whole[whole.len() - 1].id == ids.last());
            assert forall|i: int, j: int|
                0 <= i < j < whole.len() implies #[trigger] whole[i].id
                != #[trigger] whole[j].id by {
                assert(whole[i] == pre[i]);
                if j == whole.len() - 1 {
                    assert(ids.drop_last().contains(pre[i].id));
                    let m = choose|m: int|
                        0 <= m < ids.drop_last().len() && ids.drop_last()[m] == pre[i].id;
                    assert(ids[m] == pre[i].id);
                    assert(ids[m] != ids[ids.len() - 1]);
                } else {
                    assert(whole[j] == pre[j]);
                }
            }
        }
    }
}

/// No duplicate labels: a found aggregate's label list never carries
/// the same label id twice.
pub proof fn lemma_no_duplicate_label_ids(sv: StoreView, id: int)
    requires
        sv.wf(),
    ensures
        sv.find_todo(id) matches Some(todo) ==> forall|i: int, j: int|
            0 <= i < j < todo.labels.len() ==> #[trigger] todo.labels[i].id
                != #[trigger] todo.labels[j].id,
{
    if sv.has_todo(id) {
        lemma_seq_first_props(sv.todos, todo_id_pred(id));
        lemma_hydrate_ids_distinct(
            sv.labels,
            sv.todos[seq_first(sv.todos, todo_id_pred(id))].label_ids,
        );
    }
}

/// A found todo carries the id it was found under.
pub proof fn lemma_find_todo_id(sv: StoreView, id: int)
    ensures
        sv.find_todo(id) matches Some(todo) ==> todo.id == id,
{
    if sv.has_todo(id) {
        lemma_seq_first_props(sv.todos, todo_id_pred(id));
    }
}

/// Round trip: creating a todo and then finding the id it was created
/// under returns exactly the aggregate the create returned.
pub proof fn lemma_create_then_find(sv: StoreView, cmd: super::todo::CreateTodoView)
    requires
        sv.wf(),
    ensures
        ({
            let (post, todo) = sv.create_todo(cmd);
            post.find_todo(todo.id) == Some(todo)
        }),
{
    let (post, todo) = sv.create_todo(cmd);
    let rec = TodoRecordView {
        id: sv.next_todo_id,
        text: cmd.text,
        completed: false,
        label_ids: dedup_ids(cmd.labels),
    };
    assert(post.todos[0] == rec);
    lemma_seq_first_is(post.todos, todo_id_pred(rec.id), 0);
    assert(post.find_todo(todo.id) == Some(post.hydrate_record(rec)));
    assert(post.hydrate_record(rec) =~~= todo);
}

/// Partial update: an update that carries neither a text nor a label
/// set leaves the todo's text and its label list unchanged.
pub proof fn lemma_partial_update_preserves_rest(
    sv: StoreView,
    id: int,
    upd: super::todo::UpdateTodoView,
)
    requires
        sv.wf(),
        sv.has_todo(id),
        upd.text is None,
        upd.labels is None,
    ensures
        ({
            let (post, res) = sv.update_todo(id, upd);
            match (sv.find_todo(id), res) {
                (Some(before), Some(after)) => {
                    &&& after.text == before.text
                    &&& after.labels == before.labels
                    &&& (upd.completed matches Some(c) ==> after.completed == c)
                },
                _ => false,
            }
        }),
{
    lemma_seq_first_props(sv.todos, todo_id_pred(id));
}

/// Replace-on-update: an update carrying an empty label-id list leaves
/// the todo with no labels at all.
pub proof fn lemma_update_replaces_labels(
    sv: StoreView,
    id: int,
    upd: super::todo::UpdateTodoView,
)
    requires
        sv.wf(),
        sv.has_todo(id),
        upd.labels == Some(Seq::<int>::empty()),
    ensures
        ({
            let (post, res) = sv.update_todo(id, upd);
            res matches Some(after) && after.labels.len() == 0
        }),
{
    lemma_seq_first_props(sv.todos, todo_id_pred(id));
}

/// Duplicate rejection: creating a label under a fresh name succeeds;
/// creating one under the same name again fails with the first label as
/// the existing one, and leaves the store exactly as it was.
pub proof fn lemma_duplicate_label_rejected(sv: StoreView, name: Seq<char>)
    requires
        sv.wf(),
        sv.find_label_by_name(name) is None,
    ensures
        ({
            let (post1, r1) = sv.create_label(name);
            let (post2, r2) = post1.create_label(name);
            &&& r1 matches Ok(first)
            &&& r2 == Err::<LabelView, LabelView>(r1->Ok_0)
            &&& post2 == post1
        }),
{
    let (post1, r1) = sv.create_label(name);
    let label = LabelView { id: sv.next_label_id, name: name };
    assert(post1.labels[sv.labels.len() as int] == label);
    assert(forall|k: int|
        0 <= k < sv.labels.len() ==> !(label_name_pred(name))(#[trigger] sv.labels[k]));
    assert(forall|k: int|
        0 <= k < sv.labels.len() ==> post1.labels[k] == sv.labels[k]);
    lemma_seq_first_is(post1.labels, label_name_pred(name), sv.labels.len() as int);
    assert(post1.find_label_by_name(name) == Some(label));
}

/// Delete cascade: after deleting a todo, finding its id fails, and no
/// record — hence no label association, which only records carry —
/// referencing that id remains in the store.
pub proof fn lemma_delete_cascades(sv: StoreView, id: int)
    requires
        sv.wf(),
        sv.has_todo(id),
    ensures
        sv.delete_todo(id) is Some,
        ({
            let post = sv.delete_todo(id)->0;
            &&& post.find_todo(id) is None
            &&& forall|k: int| 0 <= k < post.todos.len() ==> (#[trigger] post.todos[k]).id != id
        }),
{
    lemma_seq_first_props(sv.todos, todo_id_pred(id));
    let j = seq_first(sv.todos, todo_id_pred(id));
    let post = sv.delete_todo(id)->0;
    assert forall|k: int|
        0 <= k < post.todos.len() implies (#[trigger] post.todos[k]).id != id by {
        let k0 = if k < j {
            k
        } else {
            k + 1
        };
        assert(post.todos[k] == sv.todos[k0]);
        if k0 < j {
        } else {
            assert(sv.todos[j].id == id);
            assert(sv.todos[j].id > sv.todos[k0].id);
        }
    }
    assert(!post.has_todo(id));
}

/// The lock predicate of the memory backends: only well-formed stores
/// may be stored in the lock.
pub struct StoreInv;

impl RwLockPredicate<MemoryStore> for StoreInv {
    open spec fn inv(self, store: MemoryStore) -> bool {
        store.wf()
    }
}

/// The in-memory todo repository: a shared [`MemoryStore`] guarded by a
/// verified reader-writer lock. Reads (`find`, `all`) share the lock;
/// writes hold it exclusively, so no caller ever observes a torn state.
pub struct TodoRepositoryForMemory {
    store: Arc<RwLock<MemoryStore, StoreInv>>,
}

impl TodoRepositoryForMemory {
    /// A repository over a fresh, empty store of its own.
    pub fn new() -> Self {
        TodoRepositoryForMemory {
            store: Arc::new(RwLock::new(MemoryStore::new(), Ghost(StoreInv))),
        }
    }
}

impl Clone for TodoRepositoryForMemory {
    /// Another handle onto the same shared store.
    fn clone(&self) -> Self {
        TodoRepositoryForMemory { store: self.store.clone() }
    }
}

/// A todo repository and a label repository over one shared store, so
/// that labels created through the one hydrate todos read through the
/// other — the full repository surface over a single in-memory state.
pub fn memory_repositories() -> (TodoRepositoryForMemory, LabelRepositoryForMemory) {
    let store = Arc::new(RwLock::new(MemoryStore::new(), Ghost(StoreInv)));
    (
        TodoRepositoryForMemory { store: store.clone() },
        LabelRepositoryForMemory { store },
    )
}

impl super::todo::TodoRepository for TodoRepositoryForMemory {
    fn create(&self, payload: super::todo::CreateTodo) -> (r: Result<
        TodoEntity,
        super::RepositoryError,
    >)
        ensures
            r matches Err(e) ==> e is Unexpected,
    {
        let ghost payload_view = payload@;
        let (mut store, handle) = self.store.acquire_write();
        if store.next_todo_id == i32::MAX {
            handle.release_write(store);
            return Err(super::RepositoryError::Unexpected("todo id space exhausted".to_owned()));
        }
        let ghost pre = store@;
        let todo = store.create_todo(payload);
        handle.release_write(store);
        proof {
            lemma_hydrate_ids_members(pre.labels, dedup_ids(payload_view.labels));
            lemma_dedup_ids(payload_view.labels);
            assert forall|k: int|
                0 <= k < todo.labels@.len() implies payload_view.labels.contains(
                #[trigger] todo.labels@[k]@.id) by {
                assert(todo@.labels[k] == todo.labels@[k]@);
                assert(dedup_ids(payload_view.labels).contains(todo.labels@[k]@.id));
                let n = choose|n: int|
                    0 <= n < dedup_ids(payload_view.labels).len() && dedup_ids(
                        payload_view.labels,
                    )[n] == todo.labels@[k]@.id;
                assert(payload_view.labels.contains(dedup_ids(payload_view.labels)[n]));
            }
            assert forall|k: int|
                0 <= k < todo.labels@.len() implies payload.labels@.contains(
                #[trigger] todo.labels@[k].id) by {
                assert(payload_view.labels.contains(todo.labels@[k]@.id));
                let m = choose|m: int|
                    0 <= m < payload_view.labels.len() && payload_view.labels[m]
                        == todo.labels@[k]@.id;
                assert(payload.labels@[m] == todo.labels@[k].id);
            }
        }
        Ok(todo)
    }

    fn find(&self, id: i32) -> (r: Result<TodoEntity, super::RepositoryError>)
        ensures
            r matches Err(e) ==> e == super::RepositoryError::NotFound(id),
    {
        let read_handle = self.store.acquire_read();
        let store = read_handle.borrow();
        let r = store.find_todo(id);
        proof {
            lemma_find_todo_id(store@, id as int);
        }
        read_handle.release_read();
        r
    }

    fn all(&self) -> (r: Result<Vec<TodoEntity>, super::RepositoryError>)
        ensures
            r is Ok,
    {
        let read_handle = self.store.acquire_read();
        let store = read_handle.borrow();
        let todos = store.all_todos();
        proof {
            assert(super::todo::entities_view(todos@).len() == todos@.len());
            assert(store@.all_todos().len() == store@.todos.len());
            assert forall|i: int, j: int|
                0 <= i < j < todos@.len() implies #[trigger] todos@[i]@.id
                > #[trigger] todos@[j]@.id by {
                assert(todos@[i]@ == super::todo::entities_view(todos@)[i]);
                assert(todos@[j]@ == super::todo::entities_view(todos@)[j]);
                assert(store@.all_todos()[i] == store@.hydrate_record(store@.todos[i]));
                assert(store@.all_todos()[j] == store@.hydrate_record(store@.todos[j]));
            }
        }
        read_handle.release_read();
        Ok(todos)
    }

    fn update(&self, id: i32, payload: super::todo::UpdateTodo) -> (r: Result<
        TodoEntity,
        super::RepositoryError,
    >)
        ensures
            r matches Err(e) ==> e == super::RepositoryError::NotFound(id),
    {
        let (mut store, handle) = self.store.acquire_write();
        let ghost pre = store@;
        let result = store.update_todo(id, payload);
        handle.release_write(store);
        proof {
            if result is Ok && payload.labels is Some {
                let todo = result->Ok_0;
                let ids = payload.labels->0;
                lemma_seq_first_props(pre.todos, todo_id_pred(id as int));
                lemma_hydrate_ids_members(pre.labels, dedup_ids(payload@.labels->0));
                lemma_dedup_ids(payload@.labels->0);
                assert forall|k: int|
                    0 <= k < todo.labels@.len() implies ids@.contains(
                    #[trigger] todo.labels@[k].id) by {
                    assert(todo@.labels[k] == todo.labels@[k]@);
                    assert(dedup_ids(payload@.labels->0).contains(todo.labels@[k]@.id));
                    let n = choose|n: int|
                        0 <= n < dedup_ids(payload@.labels->0).len() && dedup_ids(
                            payload@.labels->0,
                        )[n] == todo.labels@[k]@.id;
                    assert((payload@.labels->0).contains(dedup_ids(payload@.labels->0)[n]));
                    let m = choose|m: int|
                        0 <= m < (payload@.labels->0).len() && (payload@.labels->0)[m]
                            == todo.labels@[k]@.id;
                    assert(ids@[m] == todo.labels@[k].id);
                }
            }
        }
        result
    }

    fn delete(&self, id: i32) -> (r: Result<(), super::RepositoryError>)
        ensures
            r matches Err(e) ==> e == super::RepositoryError::NotFound(id),
    {
        let (mut store, handle) = self.store.acquire_write();
        let r = store.delete_todo(id);
        handle.release_write(store);
        r
    }
}

/// The in-memory label repository: a shared [`MemoryStore`] guarded by
/// a verified reader-writer lock.
pub struct LabelRepositoryForMemory {
    store: Arc<RwLock<MemoryStore, StoreInv>>,
}

impl LabelRepositoryForMemory {
    /// A repository over a fresh, empty store of its own.
    pub fn new() -> Self {
        LabelRepositoryForMemory {
            store: Arc::new(RwLock::new(MemoryStore::new(), Ghost(StoreInv))),
        }
    }
}

impl Clone for LabelRepositoryForMemory {
    /// Another handle onto the same shared store.
    fn clone(&self) -> Self {
        LabelRepositoryForMemory { store: self.store.clone() }
    }
}

impl super::label::LabelRepository for LabelRepositoryForMemory {
    fn create(&self, payload: super::label::CreateLabel) -> (r: Result<
        Label,
        super::RepositoryError,
    >)
        ensures
            r matches Err(e) ==> e is Duplicate || e is Unexpected,
    {
        let (mut store, handle) = self.store.acquire_write();
        if store.next_label_id == i32::MAX {
            handle.release_write(store);
            return Err(super::RepositoryError::Unexpected("label id space exhausted".to_owned()));
        }
        let r = store.create_label(payload);
        handle.release_write(store);
        r
    }

    fn all(&self) -> (r: Result<Vec<Label>, super::RepositoryError>)
        ensures
            r is Ok,
    {
        let read_handle = self.store.acquire_read();
        let store = read_handle.borrow();
        let labels = store.all_labels();
        proof {
            assert forall|i: int, j: int|
                0 <= i < j < labels@.len() implies #[trigger] labels@[i]@.id
                < #[trigger] labels@[j]@.id by {
                assert(labels@[i]@ == labels_view(labels@)[i]);
                assert(labels@[j]@ == labels_view(labels@)[j]);
            }
        }
        read_handle.release_read();
        Ok(labels)
    }

    fn delete(&self, id: i32) -> (r: Result<(), super::RepositoryError>)
        ensures
            r matches Err(e) ==> e == super::RepositoryError::NotFound(id),
    {
        let (mut store, handle) = self.store.acquire_write();
        let r = store.delete_label(id);
        handle.release_write(store);
        r
    }
}

} // verus!
