//! The task store: an ordered list of root tasks with add, remove and
//! lookup, and the compute side of persistence. Saving yields the fixed
//! file path and the canonical JSON text to write there; restoring takes
//! the text a caller read back and replaces the whole store, all or
//! nothing.

use vstd::prelude::*;
use vstd::string::StringExecFns;
use crate::errors::TodoError;
use crate::json;
use crate::json::spec_serialize_tasks;
use crate::todoitem::{TaskView, TodoItem, tasks_view};

verus! {

broadcast use {
    vstd::seq::group_seq_axioms,
    vstd::std_specs::vec::group_vec_axioms,
    crate::todoitem::lemma_item_view,
};

/// The ordered collection of root tasks. Its model is the sequence of the
/// tasks' models, in display order.
pub struct Backend {
    todo_items: Vec<TodoItem>,
}

impl View for Backend {
    type V = Seq<TaskView>;

    closed spec fn view(&self) -> Seq<TaskView> {
        tasks_view(self.todo_items@)
    }
}

impl Backend {
    /// An empty store.
    pub fn new() -> (r: Backend)
        ensures
            r@ == Seq::<TaskView>::empty(),
    {
        let r = Backend { todo_items: Vec::new() };
        proof {
            assert(r@ =~= Seq::<TaskView>::empty());
        }
        r
    }

    /// Appends a fresh root task with the given title, not completed and
    /// without children.
    pub fn add_item(&mut self, title: &str)
        ensures
            final(self)@ == old(self)@.push(
                TaskView { title: title@, completed: false, sub_items: Seq::<TaskView>::empty() },
            ),
    {
        let item = TodoItem::new_item(title);
        self.todo_items.push(item);
        proof {
            assert(self@ =~= old(self)@.push(
                TaskView { title: title@, completed: false, sub_items: Seq::<TaskView>::empty() },
            ));
        }
    }

    /// Removes the root task at `index`, the later tasks moving down one
    /// place; an index at or past the end changes nothing and is reported
    /// as out of range.
    pub fn remove_item_at_index(&mut self, index: usize) -> (r: Result<(), TodoError>)
        ensures
            index < old(self)@.len() ==> r is Ok && final(self)@ == old(self)@.remove(index as int),
            index >= old(self)@.len() ==> r == Err::<(), TodoError>(TodoError::IndexOutOfRange)
                && final(self)@ == old(self)@,
    {
        if index < self.todo_items.len() {
            self.todo_items.remove(index);
            proof {
                assert(self@ =~= old(self)@.remove(index as int));
            }
            Ok(())
        } else {
            Err(TodoError::IndexOutOfRange)
        }
    }

    /// The root tasks, in display order.
    pub fn get_items(&self) -> (r: &Vec<TodoItem>)
        ensures
            r@.len() == self@.len(),
            forall|i: int| 0 <= i < r@.len() ==> #[trigger] r@[i]@ == self@[i],
    {
        &self.todo_items
    }

    /// The fixed save-file location below the given home directory; with no
    /// home directory available, fails with HomeUnresolved and nothing else.
    pub fn get_save_path(home: Option<&str>) -> (r: Result<String, TodoError>)
        ensures
            home matches Some(h) ==> (r matches Ok(p) && p@ == h@ + "/.todo_tui/items.json"@),
            home is None ==> r == Err::<String, TodoError>(TodoError::HomeUnresolved),
    {
        match home {
            Some(h) => {
                let mut p = h.to_owned();
                p.append("/.todo_tui/items.json");
                Ok(p)
            },
            None => Err(TodoError::HomeUnresolved),
        }
    }

    /// The compute side of saving: the path to write and the canonical JSON
    /// text of the whole store. With no home directory available, fails
    /// with HomeUnresolved and nothing else.
    pub fn save_items(&self, home: Option<&str>) -> (r: Result<(String, Vec<char>), TodoError>)
        ensures
            home matches Some(h) ==> (r matches Ok(p) && p.0@ == h@ + "/.todo_tui/items.json"@
                && p.1@ == spec_serialize_tasks(self@)),
            home is None ==> r == Err::<(String, Vec<char>), TodoError>(TodoError::HomeUnresolved),
    {
        match Self::get_save_path(home) {
            Ok(path) => Ok((path, json::serialize_items(&self.todo_items))),
            Err(e) => Err(e),
        }
    }

    /// The compute side of restoring: replaces the whole store with the
    /// task list whose canonical JSON text `content` is; on any other
    /// content, fails with DeserializeError and leaves the store untouched.
    pub fn restore_items(&mut self, content: &Vec<char>) -> (r: Result<(), TodoError>)
        ensures
            r is Ok ==> content@ == spec_serialize_tasks(final(self)@),
            r is Err ==> r == Err::<(), TodoError>(TodoError::DeserializeError) && final(self)@
                == old(self)@,
            forall|vs: Seq<TaskView>|
                content@ == spec_serialize_tasks(vs) ==> r is Ok && final(self)@ == vs,
    {
        match json::parse_items(content) {
            Some(items) => {
                let reser = json::serialize_items(&items);
                if json::chars_equal(content, &reser) {
                    self.todo_items = items;
                    proof {
                        assert forall|vs: Seq<TaskView>|
                            content@ == spec_serialize_tasks(vs) implies self@ == vs by {
                            json::lemma_round_trip(vs);
                        }
                    }
                    Ok(())
                } else {
                    proof {
                        assert forall|vs: Seq<TaskView>|
                            content@ != spec_serialize_tasks(vs) by {
                            if content@ == spec_serialize_tasks(vs) {
                                json::lemma_round_trip(vs);
                            }
                        }
                    }
                    Err(TodoError::DeserializeError)
                }
            },
            None => {
                proof {
                    assert forall|vs: Seq<TaskView>|
                        content@ != spec_serialize_tasks(vs) by {
                        if content@ == spec_serialize_tasks(vs) {
                            json::lemma_round_trip(vs);
                        }
                    }
                }
                Err(TodoError::DeserializeError)
            },
        }
    }
}

} // verus!
