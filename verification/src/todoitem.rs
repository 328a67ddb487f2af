//! A single to-do entry: a title, a completion flag, and an ordered list of
//! owned sub-entries, nested to any depth.

use vstd::prelude::*;
use vstd::pervasive::arbitrary;

verus! {

broadcast use {vstd::seq::group_seq_axioms, vstd::std_specs::vec::group_vec_axioms};

/// Mathematical model of a task tree: the title characters, the completion
/// flag, and the models of the direct children in order.
#[verifier::ext_equal]
pub struct TaskView {
    pub title: Seq<char>,
    pub completed: bool,
    pub sub_items: Seq<TaskView>,
}

impl TaskView {
    /// Every node of the tree, this one included, has completion flag `b`.
    pub open spec fn all_marked(self, b: bool) -> bool
        decreases self,
    {
        &&& self.completed == b
        &&& forall|i: int|
            0 <= i < self.sub_items.len() ==> (#[trigger] self.sub_items[i]).all_marked(b)
    }

    /// The same tree with every completion flag forced to `b`.
    pub open spec fn marked(self, b: bool) -> TaskView
        decreases self,
    {
        TaskView {
            title: self.title,
            completed: b,
            sub_items: Seq::new(
                self.sub_items.len(),
                |i: int|
                    if 0 <= i < self.sub_items.len() {
                        self.sub_items[i].marked(b)
                    } else {
                        arbitrary()
                    },
            ),
        }
    }
}

/// A to-do entry. The completion flag is only ever set through a cascade
/// that forces the same flag on every descendant.
#[derive(Debug)]
pub struct TodoItem {
    pub(crate) title: String,
    pub(crate) completed: bool,
    pub(crate) sub_items: Vec<TodoItem>,
}

/// The model of one task, children modelled recursively.
pub(crate) open spec fn task_view(t: TodoItem) -> TaskView
    decreases t,
{
    TaskView {
        title: t.title@,
        completed: t.completed,
        sub_items: Seq::new(
            t.sub_items@.len(),
            |i: int|
                if 0 <= i < t.sub_items@.len() {
                    task_view(t.sub_items@[i])
                } else {
                    arbitrary()
                },
        ),
    }
}

/// The models of a list of tasks, in order.
pub(crate) open spec fn tasks_view(v: Seq<TodoItem>) -> Seq<TaskView> {
    Seq::new(v.len(), |i: int| task_view(v[i]))
}

impl View for TodoItem {
    type V = TaskView;

    closed spec fn view(&self) -> TaskView {
        task_view(*self)
    }
}

/// The view of a task is exactly its recursive model.
pub(crate) broadcast proof fn lemma_item_view(t: TodoItem)
    ensures
        #[trigger] t@ == task_view(t),
{
}

impl TodoItem {
    /// A fresh task: the given title, not completed, no children.
    pub fn new_item(title: &str) -> (r: TodoItem)
        ensures
            r@ == (TaskView { title: title@, completed: false, sub_items: Seq::<TaskView>::empty() }),
    {
        let r = TodoItem { title: title.to_owned(), completed: false, sub_items: Vec::new() };
        proof {
            assert(r@.sub_items =~= Seq::<TaskView>::empty());
            assert(r@ =~= TaskView {
                title: title@,
                completed: false,
                sub_items: Seq::<TaskView>::empty(),
            });
        }
        r
    }

    /// The immutable title.
    pub fn get_title(&self) -> (r: &str)
        ensures
            r@ == self@.title,
    {
        self.title.as_str()
    }

    /// The completion flag of the entry itself, children not considered.
    pub fn is_completed(&self) -> (r: bool)
        ensures
            r == self@.completed,
    {
        self.completed
    }

    /// Appends `sub_item` as the last child; ownership moves to `self`.
    pub fn add_sub_item(&mut self, sub_item: TodoItem)
        ensures
            final(self)@ == (TaskView {
                title: old(self)@.title,
                completed: old(self)@.completed,
                sub_items: old(self)@.sub_items.push(sub_item@),
            }),
    {
        self.sub_items.push(sub_item);
        proof {
            assert(self@.sub_items =~= old(self)@.sub_items.push(sub_item@));
            assert(self@ =~= TaskView {
                title: old(self)@.title,
                completed: old(self)@.completed,
                sub_items: old(self)@.sub_items.push(sub_item@),
            });
        }
    }

    /// Forces completion flag `b` on the entry and, recursively, on every
    /// descendant.
    fn set_marked(&mut self, b: bool)
        ensures
            final(self)@ == old(self)@.marked(b),
        decreases *old(self),
    {
        self.completed = b;
        let n = self.sub_items.len();
        let mut i: usize = 0;
        while i < n
            invariant
                n == self.sub_items.len(),
                n == old(self).sub_items.len(),
                i <= n,
                self.title == old(self).title,
                self.completed == b,
                forall|j: int|
                    0 <= j < i ==> task_view(#[trigger] self.sub_items@[j])
                        == task_view(old(self).sub_items@[j]).marked(b),
                forall|j: int|
                    i <= j < n ==> #[trigger] self.sub_items@[j] == old(self).sub_items@[j],
            decreases n - i,
        {
            proof {
                assert(self.sub_items@[i as int] == old(self).sub_items@[i as int]);
                assert(decreases_to!(*old(self) => old(self).sub_items@[i as int]));
            }
            let sub = &mut self.sub_items[i];
            sub.set_marked(b);
            i = i + 1;
        }
        proof {
            assert(self@.sub_items =~= old(self)@.marked(b).sub_items);
            assert(self@ =~= old(self)@.marked(b));
        }
    }

    /// Marks the entry completed, cascading the flag down to every
    /// descendant; calling it twice has the same effect as once.
    pub fn set_completed(&mut self)
        ensures
            final(self)@ == old(self)@.marked(true),
    {
        self.set_marked(true);
    }

    /// Marks the entry not completed, cascading the flag down to every
    /// descendant; the symmetric counterpart of completing it.
    pub fn set_not_completed(&mut self)
        ensures
            final(self)@ == old(self)@.marked(false),
    {
        self.set_marked(false);
    }

    /// The number of direct children only.
    pub fn get_nb_sub_items(&self) -> (r: usize)
        ensures
            r == self@.sub_items.len(),
    {
        self.sub_items.len()
    }

    /// Law: after a completion cascade with flag `b`, every node of the tree
    /// carries flag `b`, at any depth.
    pub proof fn lemma_marked_all_marked(t: TaskView, b: bool)
        ensures
            t.marked(b).all_marked(b),
        decreases t,
    {
        let m = t.marked(b);
        assert forall|i: int| 0 <= i < m.sub_items.len() implies (#[trigger] m.sub_items[i]).all_marked(
            b,
        ) by {
            Self::lemma_marked_all_marked(t.sub_items[i], b);
            assert(m.sub_items[i] == t.sub_items[i].marked(b));
        }
    }

    /// Law: a later cascade overrides an earlier one, so cascading `b1` and
    /// then `b2` leaves exactly the tree a single `b2` cascade leaves. With
    /// `b1 == b2` this says a cascade is idempotent.
    pub proof fn lemma_marked_overrides(t: TaskView, b1: bool, b2: bool)
        ensures
            t.marked(b1).marked(b2) == t.marked(b2),
        decreases t,
    {
        let m = t.marked(b1).marked(b2);
        let r = t.marked(b2);
        assert forall|i: int| 0 <= i < t.sub_items.len() implies #[trigger] m.sub_items[i]
            == r.sub_items[i] by {
            Self::lemma_marked_overrides(t.sub_items[i], b1, b2);
        }
        assert(m.sub_items =~= r.sub_items);
        assert(m =~= r);
    }

    /// Law: a cascade changes nothing on a tree whose nodes all carry the
    /// flag already. Together with the override law this makes the two
    /// cascades exact inverses on uniformly marked trees: cascading `true`
    /// and then `false` restores a tree that was uniformly not completed.
    pub proof fn lemma_marked_noop(t: TaskView, b: bool)
        requires
            t.all_marked(b),
        ensures
            t.marked(b) == t,
        decreases t,
    {
        let m = t.marked(b);
        assert forall|i: int| 0 <= i < t.sub_items.len() implies #[trigger] m.sub_items[i]
            == t.sub_items[i] by {
            assert(t.sub_items[i].all_marked(b));
            Self::lemma_marked_noop(t.sub_items[i], b);
        }
        assert(m.sub_items =~= t.sub_items);
        assert(m =~= t);
    }

    /// Law: on a tree with no node completed, a completion cascade followed
    /// by a not-completed cascade restores the original tree exactly,
    /// recursively at any depth.
    pub proof fn lemma_uncomplete_inverts_complete(t: TaskView)
        requires
            t.all_marked(false),
        ensures
            t.marked(true).marked(false) == t,
    {
        Self::lemma_marked_overrides(t, true, false);
        Self::lemma_marked_noop(t, false);
    }

    /// A read-only view of the direct children, in order.
    pub fn get_sub_items(&self) -> (r: &Vec<TodoItem>)
        ensures
            r@.len() == self@.sub_items.len(),
            forall|i: int| 0 <= i < r@.len() ==> #[trigger] r@[i]@ == self@.sub_items[i],
    {
        &self.sub_items
    }
}

} // verus!
