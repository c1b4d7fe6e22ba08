//! The edit tree: a branching history of the revisions of a buffer.
//!
//! Every committed revision keeps the text of the buffer as it was when the
//! revision was made, the revision it was made from, and the revisions made
//! from it, oldest first. One revision is the current one; beside the
//! revisions the tree holds the staged buffer, the live text that edits work
//! on. Undo and redo walk the tree and put the text of the revision they
//! arrive at into the staged buffer. No revision is ever removed.

use crate::cursor::Cursor;
use crate::reconcile::synced;
use crate::text::text_of;
use ropey::Rope;
use vstd::prelude::*;

verus! {

/// One committed revision.
#[derive(Clone, Debug)]
struct Revision {
    /// The text of the buffer when the revision was made.
    text: Rope,
    /// The revision that this one was made from; none for the first.
    parent: Option<usize>,
    /// The revisions made from this one, oldest first.
    children: Vec<usize>,
    /// Which of the children redo goes to, as an index into `children`.
    preferred: usize,
}

/// A branching history of buffer revisions, with the staged buffer.
#[derive(Clone, Debug)]
pub struct EditTree {
    revisions: Vec<Revision>,
    head_index: usize,
    staged: Rope,
}

/// What a revision is, as plain values.
pub ghost struct RevisionView {
    /// The text of the buffer when the revision was made.
    pub text: Seq<char>,
    /// The revision that this one was made from; none for the first.
    pub parent: Option<int>,
    /// The revisions made from this one, oldest first.
    pub children: Seq<int>,
    /// Which of the children redo goes to, as an index into `children`.
    pub preferred: int,
}

/// What an edit tree is, as plain values.
pub ghost struct EditTreeView {
    /// The revisions, in the order in which they were made.
    pub revisions: Seq<RevisionView>,
    /// The current revision.
    pub head: int,
    /// The text of the staged buffer.
    pub staged: Seq<char>,
}

impl RevisionView {
    /// The child that redo goes to, if there is a child.
    pub open spec fn preferred_child(self) -> Option<int> {
        if 0 <= self.preferred < self.children.len() {
            Some(self.children[self.preferred])
        } else {
            None
        }
    }
}

impl EditTreeView {
    /// Whether the revisions form a tree that has grown by commits alone.
    ///
    /// The first revision is the root and has no parent. Every other revision
    /// has a parent that was made before it, and is listed exactly once among
    /// the children of its parent and of no other revision. Children are
    /// listed oldest first. The preferred child is one of the children where
    /// there are any. The current revision is one of the revisions.
    pub open spec fn well_formed(self) -> bool {
        &&& self.revisions.len() >= 1
        &&& 0 <= self.head < self.revisions.len()
        &&& self.revisions[0].parent is None
        &&& forall|i: int|
            0 < i < self.revisions.len() ==> (#[trigger] self.revisions[i].parent matches Some(p)
                && 0 <= p < i && self.revisions[p].children.contains(i))
        &&& forall|i: int, k: int|
            0 <= i < self.revisions.len() && 0 <= k < self.revisions[i].children.len() ==> i
                < #[trigger] self.revisions[i].children[k] < self.revisions.len()
                && self.revisions[self.revisions[i].children[k]].parent == Some(i)
        &&& forall|i: int, k: int, l: int|
            0 <= i < self.revisions.len() && 0 <= k < l < self.revisions[i].children.len()
                ==> #[trigger] self.revisions[i].children[k]
                < #[trigger] self.revisions[i].children[l]
        &&& forall|i: int|
            0 <= i < self.revisions.len() ==> 0 <= (#[trigger] self.revisions[i]).preferred && (
            self.revisions[i].preferred < self.revisions[i].children.len()
                || self.revisions[i].preferred == 0)
    }

    /// The current revision.
    pub open spec fn current(self) -> RevisionView {
        self.revisions[self.head]
    }

    /// The tree that holds `text` as its only revision and as its staged
    /// buffer.
    pub open spec fn rooted(text: Seq<char>) -> EditTreeView {
        EditTreeView {
            revisions: seq![
                RevisionView { text, parent: None, children: Seq::<int>::empty(), preferred: 0 },
            ],
            head: 0,
            staged: text,
        }
    }

    /// The tree after the staged buffer was committed: a new revision with
    /// the staged text is the youngest child of the current revision, the
    /// child that the current revision prefers, and itself the current
    /// revision from now on. What was there before stays.
    pub open spec fn committed(self) -> EditTreeView {
        let id = self.revisions.len() as int;
        let parent = self.current();
        let parent = RevisionView {
            children: parent.children.push(id),
            preferred: parent.children.len() as int,
            ..parent
        };
        let child = RevisionView {
            text: self.staged,
            parent: Some(self.head),
            children: Seq::<int>::empty(),
            preferred: 0,
        };
        EditTreeView {
            revisions: self.revisions.update(self.head, parent).push(child),
            head: id,
            staged: self.staged,
        }
    }

    /// The tree after an undo: the parent of the current revision is the
    /// current one, and its text is staged. At the root nothing changes.
    pub open spec fn undone(self) -> EditTreeView {
        match self.current().parent {
            Some(parent) => EditTreeView {
                head: parent,
                staged: self.revisions[parent].text,
                ..self
            },
            None => self,
        }
    }

    /// The tree after a redo: the preferred child of the current revision is
    /// the current one, and its text is staged. At a revision without
    /// children nothing changes.
    pub open spec fn redone(self) -> EditTreeView {
        match self.current().preferred_child() {
            Some(child) => EditTreeView {
                head: child,
                staged: self.revisions[child].text,
                ..self
            },
            None => self,
        }
    }

    /// The tree after the current revision's preference has gone to the
    /// child listed at index `preferred`.
    pub open spec fn preferring(self, preferred: int) -> EditTreeView {
        EditTreeView {
            revisions: self.revisions.update(
                self.head,
                RevisionView { preferred, ..self.current() },
            ),
            ..self
        }
    }

    /// The tree after the preference of the current revision has gone to the
    /// child made just before the preferred one, or from the oldest child to
    /// the youngest. Without children nothing changes.
    pub open spec fn with_previous_child(self) -> EditTreeView {
        let count = self.current().children.len() as int;
        if count == 0 {
            self
        } else if self.current().preferred == 0 {
            self.preferring(count - 1)
        } else {
            self.preferring(self.current().preferred - 1)
        }
    }

    /// The tree after the preference of the current revision has gone to the
    /// child made just after the preferred one, or from the youngest child to
    /// the oldest. Without children nothing changes.
    pub open spec fn with_next_child(self) -> EditTreeView {
        let count = self.current().children.len() as int;
        if count == 0 {
            self
        } else if self.current().preferred + 1 >= count {
            self.preferring(0)
        } else {
            self.preferring(self.current().preferred + 1)
        }
    }
}

impl View for Revision {
    type V = RevisionView;

    closed spec fn view(&self) -> RevisionView {
        RevisionView {
            text: text_of(self.text),
            parent: match self.parent {
                Some(parent) => Some(parent as int),
                None => None,
            },
            children: self.children@.map_values(|child: usize| child as int),
            preferred: self.preferred as int,
        }
    }
}

impl View for EditTree {
    type V = EditTreeView;

    closed spec fn view(&self) -> EditTreeView {
        EditTreeView {
            revisions: self.revisions@.map_values(|revision: Revision| revision@),
            head: self.head_index as int,
            staged: text_of(self.staged),
        }
    }
}

// ---------------------------------------------------------------------------
// Laws of the history
// ---------------------------------------------------------------------------
/// A tree with one revision is well formed.
pub proof fn lemma_rooted_well_formed(text: Seq<char>)
    ensures
        EditTreeView::rooted(text).well_formed(),
{
}

/// A commit keeps the tree well formed, keeps every revision that was there
/// with its text and its parent, and adds one revision.
pub proof fn lemma_commit_keeps_history(tree: EditTreeView)
    requires
        tree.well_formed(),
    ensures
        tree.committed().well_formed(),
        tree.committed().revisions.len() == tree.revisions.len() + 1,
        forall|i: int|
            0 <= i < tree.revisions.len() ==> (#[trigger] tree.committed().revisions[i]).text
                == tree.revisions[i].text && tree.committed().revisions[i].parent
                == tree.revisions[i].parent,
{
    let after = tree.committed();
    let id = tree.revisions.len() as int;
    assert forall|i: int| 0 < i < after.revisions.len() implies (
    #[trigger] after.revisions[i].parent matches Some(p) && 0 <= p < i
        && after.revisions[p].children.contains(i)) by {
        if i == id {
            let children = after.revisions[tree.head].children;
            assert(children[children.len() - 1] == id);
        } else {
            let p = tree.revisions[i].parent->0;
            let k = choose|k: int|
                0 <= k < tree.revisions[p].children.len() && tree.revisions[p].children[k] == i;
            assert(after.revisions[p].children[k] == i);
        }
    }
    assert forall|i: int, k: int|
        0 <= i < after.revisions.len() && 0 <= k < after.revisions[i].children.len() implies i
        < #[trigger] after.revisions[i].children[k] < after.revisions.len()
        && after.revisions[after.revisions[i].children[k]].parent == Some(i) by {
        if i == tree.head && k == tree.current().children.len() {
        } else {
            assert(after.revisions[i].children[k] == tree.revisions[i].children[k]);
        }
    }
    assert forall|i: int, k: int, l: int|
        0 <= i < after.revisions.len() && 0 <= k < l < after.revisions[i].children.len() implies
        #[trigger] after.revisions[i].children[k] < #[trigger] after.revisions[i].children[l] by {
        if i == tree.head && l == tree.current().children.len() {
            assert(after.revisions[i].children[k] == tree.revisions[i].children[k]);
        } else {
            assert(after.revisions[i].children[k] == tree.revisions[i].children[k]);
            assert(after.revisions[i].children[l] == tree.revisions[i].children[l]);
        }
    }
}

/// Undo, redo and the choice among the children keep the tree well formed
/// and change neither the revisions' texts nor parents nor children.
pub proof fn lemma_navigation_keeps_history(tree: EditTreeView)
    requires
        tree.well_formed(),
    ensures
        tree.undone().well_formed(),
        tree.redone().well_formed(),
        tree.with_previous_child().well_formed(),
        tree.with_next_child().well_formed(),
        tree.undone().revisions == tree.revisions,
        tree.redone().revisions == tree.revisions,
        tree.with_previous_child().head == tree.head,
        tree.with_next_child().head == tree.head,
        tree.with_previous_child().staged == tree.staged,
        tree.with_next_child().staged == tree.staged,
        forall|i: int|
            0 <= i < tree.revisions.len() ==> {
                &&& (#[trigger] tree.with_previous_child().revisions[i]).text
                    == tree.revisions[i].text
                &&& tree.with_previous_child().revisions[i].parent == tree.revisions[i].parent
                &&& tree.with_previous_child().revisions[i].children == tree.revisions[i].children
            },
        forall|i: int|
            0 <= i < tree.revisions.len() ==> {
                &&& (#[trigger] tree.with_next_child().revisions[i]).text == tree.revisions[i].text
                &&& tree.with_next_child().revisions[i].parent == tree.revisions[i].parent
                &&& tree.with_next_child().revisions[i].children == tree.revisions[i].children
            },
{
    if tree.current().parent is Some {
        assert(tree.head > 0);
    }
    if tree.current().preferred_child() is Some {
        let child = tree.current().children[tree.current().preferred];
        assert(tree.head < child < tree.revisions.len());
    }
    lemma_preferring_keeps_history(tree, tree.with_previous_child().current().preferred);
    lemma_preferring_keeps_history(tree, tree.with_next_child().current().preferred);
}

/// Preferring one of the children keeps the tree well formed.
proof fn lemma_preferring_keeps_history(tree: EditTreeView, preferred: int)
    requires
        tree.well_formed(),
        0 <= preferred,
        preferred < tree.current().children.len() || preferred == 0,
    ensures
        tree.preferring(preferred).well_formed(),
{
    let after = tree.preferring(preferred);
    assert forall|i: int| 0 < i < after.revisions.len() implies (
    #[trigger] after.revisions[i].parent matches Some(p) && 0 <= p < i
        && after.revisions[p].children.contains(i)) by {
        let p = tree.revisions[i].parent->0;
        let k = choose|k: int|
            0 <= k < tree.revisions[p].children.len() && tree.revisions[p].children[k] == i;
        assert(after.revisions[p].children[k] == i);
    }
    assert forall|i: int, k: int|
        0 <= i < after.revisions.len() && 0 <= k < after.revisions[i].children.len() implies i
        < #[trigger] after.revisions[i].children[k] < after.revisions.len()
        && after.revisions[after.revisions[i].children[k]].parent == Some(i) by {
        assert(after.revisions[i].children[k] == tree.revisions[i].children[k]);
    }
    assert forall|i: int, k: int, l: int|
        0 <= i < after.revisions.len() && 0 <= k < l < after.revisions[i].children.len() implies
        #[trigger] after.revisions[i].children[k] < #[trigger] after.revisions[i].children[l] by {
        assert(after.revisions[i].children[k] == tree.revisions[i].children[k]);
        assert(after.revisions[i].children[l] == tree.revisions[i].children[l]);
    }
}

/// Undo after a commit stages the text of the revision that was current when
/// the commit was made, and makes that revision current again.
pub proof fn lemma_undo_after_commit(tree: EditTreeView)
    requires
        tree.well_formed(),
    ensures
        tree.committed().undone().head == tree.head,
        tree.committed().undone().staged == tree.current().text,
        tree.staged == tree.current().text ==> tree.committed().undone().staged == tree.staged,
{
}

/// Redo after the undo of a commit stages the text that was committed, and
/// makes the committed revision current again.
pub proof fn lemma_redo_after_undo(tree: EditTreeView)
    requires
        tree.well_formed(),
    ensures
        tree.committed().undone().redone().head == tree.committed().head,
        tree.committed().undone().redone().staged == tree.staged,
        tree.committed().undone().redone() == tree.committed(),
{
    let after = tree.committed().undone().redone();
    assert(after.revisions =~= tree.committed().revisions);
}

/// After two commits from the same revision, the first one undone before the
/// second was made, going back to that revision, to its previous child and
/// forward again stages the text of the first commit, not of the second.
pub proof fn lemma_previous_branch(tree: EditTreeView, second: Seq<char>)
    requires
        tree.well_formed(),
    ensures
        ({
            let first = tree.committed();
            let back = first.undone();
            let branched = (EditTreeView { staged: second, ..back }).committed();
            branched.undone().with_previous_child().redone().staged == tree.staged
        }),
{
    let first = tree.committed();
    let back = first.undone();
    let edited = EditTreeView { staged: second, ..back };
    let branched = edited.committed();
    let at_parent = branched.undone();
    assert(at_parent.head == tree.head);
    let count = tree.current().children.len() as int;
    assert(at_parent.current().children.len() == count + 2);
    assert(at_parent.current().preferred == count + 1);
    let chosen = at_parent.with_previous_child();
    assert(chosen.current().preferred == count);
    assert(chosen.current().children[count] == tree.revisions.len());
}

// ---------------------------------------------------------------------------
// The tree
// ---------------------------------------------------------------------------
impl EditTree {
    /// Whether the tree is well formed, which every tree made by `new` and
    /// changed by the methods of this type is.
    pub open spec fn well_formed(&self) -> bool {
        self@.well_formed()
    }

    /// A history whose only revision holds `text`, which is also staged.
    pub fn new(text: Rope) -> (tree: Self)
        ensures
            tree@ == EditTreeView::rooted(text_of(text)),
            tree.well_formed(),
    {
        let root = Revision {
            text: text.clone(),
            parent: None,
            children: Vec::new(),
            preferred: 0,
        };
        let mut revisions: Vec<Revision> = Vec::new();
        revisions.push(root);
        let tree = EditTree { revisions, head_index: 0, staged: text };
        proof {
            assert(root@.children =~= Seq::<int>::empty());
            assert(tree@.revisions =~= EditTreeView::rooted(text_of(text)).revisions);
        }
        tree
    }

    /// The staged buffer.
    pub fn staged(&self) -> (text: &Rope)
        ensures
            text_of(*text) == self@.staged,
    {
        &self.staged
    }

    /// The staged buffer, to be edited in place. The revisions stay as they
    /// are whatever is done to it.
    pub fn staged_mut(&mut self) -> (text: &mut Rope)
        ensures
            text_of(*text) == old(self)@.staged,
            final(self)@ == (EditTreeView { staged: text_of(*final(text)), ..old(self)@ }),
    {
        &mut self.staged
    }

    /// The number of revisions, which is at least one.
    pub fn len(&self) -> (count: usize)
        ensures
            count == self@.revisions.len(),
    {
        self.revisions.len()
    }

    /// The current revision.
    pub fn head(&self) -> (revision: usize)
        ensures
            revision == self@.head,
    {
        self.head_index
    }

    /// The text of the given revision, if there is such a revision.
    pub fn text(&self, revision: usize) -> (text: Option<&Rope>)
        ensures
            revision >= self@.revisions.len() ==> text is None,
            revision < self@.revisions.len() ==> (text matches Some(found) && text_of(*found)
                == self@.revisions[revision as int].text),
    {
        if revision < self.revisions.len() {
            Some(&self.revisions[revision].text)
        } else {
            None
        }
    }

    /// The revision that the given revision was made from; none for the
    /// first revision and for a revision that does not exist.
    pub fn parent(&self, revision: usize) -> (parent: Option<usize>)
        ensures
            revision >= self@.revisions.len() ==> parent is None,
            revision < self@.revisions.len() ==> match parent {
                Some(id) => self@.revisions[revision as int].parent == Some(id as int),
                None => self@.revisions[revision as int].parent is None,
            },
    {
        if revision < self.revisions.len() {
            self.revisions[revision].parent
        } else {
            None
        }
    }

    /// The revisions made from the given revision, oldest first; none for a
    /// revision that does not exist.
    pub fn children(&self, revision: usize) -> (children: Vec<usize>)
        ensures
            revision >= self@.revisions.len() ==> children@.len() == 0,
            revision < self@.revisions.len() ==> children@.map_values(|child: usize| child as int)
                == self@.revisions[revision as int].children,
    {
        let mut children: Vec<usize> = Vec::new();
        if revision < self.revisions.len() {
            let listed = &self.revisions[revision].children;
            let mut k: usize = 0;
            while k < listed.len()
                invariant
                    k <= listed@.len(),
                    children@ == listed@.subrange(0, k as int),
                decreases listed@.len() - k,
            {
                children.push(listed[k]);
                proof {
                    assert(children@ =~= listed@.subrange(0, k + 1));
                }
                k = k + 1;
            }
            proof {
                assert(children@ =~= listed@);
            }
        }
        children
    }

    /// The child of the given revision that redo goes to from there; none
    /// for a revision without children and for one that does not exist.
    pub fn preferred_child(&self, revision: usize) -> (child: Option<usize>)
        ensures
            revision >= self@.revisions.len() ==> child is None,
            revision < self@.revisions.len() ==> match child {
                Some(id) => self@.revisions[revision as int].preferred_child() == Some(id as int),
                None => self@.revisions[revision as int].preferred_child() is None,
            },
    {
        if revision < self.revisions.len() {
            let entry = &self.revisions[revision];
            if entry.preferred < entry.children.len() {
                Some(entry.children[entry.preferred])
            } else {
                None
            }
        } else {
            None
        }
    }

    /// Commits the staged buffer: its text becomes a new revision, the
    /// youngest and the preferred child of the current revision, and the
    /// current revision from now on.
    pub fn commit(&mut self)
        requires
            old(self).well_formed(),
        ensures
            final(self)@ == old(self)@.committed(),
            final(self).well_formed(),
    {
        let ghost before = self@;
        proof {
            lemma_commit_keeps_history(before);
        }
        let id: usize = self.revisions.len();
        let head: usize = self.head_index;
        let child = Revision {
            text: self.staged.clone(),
            parent: Some(head),
            children: Vec::new(),
            preferred: 0,
        };
        let parent = &mut self.revisions[head];
        let position: usize = parent.children.len();
        parent.children.push(id);
        parent.preferred = position;
        self.revisions.push(child);
        self.head_index = id;
        proof {
            assert(child@.children =~= Seq::<int>::empty());
            assert(self@.revisions[head as int].children
                =~= before.committed().revisions[head as int].children);
            assert(self@.revisions =~= before.committed().revisions);
        }
    }

    /// Goes back to the revision that the current one was made from and
    /// stages its text. Says whether there was such a revision; at the root
    /// nothing happens.
    pub fn undo(&mut self) -> (moved: bool)
        requires
            old(self).well_formed(),
        ensures
            final(self)@ == old(self)@.undone(),
            final(self).well_formed(),
            moved == old(self)@.current().parent is Some,
    {
        proof {
            lemma_navigation_keeps_history(self@);
        }
        match self.revisions[self.head_index].parent {
            Some(parent) => {
                assert(self@.revisions[self@.head].parent == Some(parent as int));
                self.staged = self.revisions[parent].text.clone();
                self.head_index = parent;
                true
            },
            None => false,
        }
    }

    /// Goes forward to the preferred child of the current revision and
    /// stages its text. Says whether there was such a child; at a revision
    /// without children nothing happens.
    pub fn redo(&mut self) -> (moved: bool)
        requires
            old(self).well_formed(),
        ensures
            final(self)@ == old(self)@.redone(),
            final(self).well_formed(),
            moved == old(self)@.current().preferred_child() is Some,
    {
        proof {
            lemma_navigation_keeps_history(self@);
        }
        match self.preferred_child(self.head_index) {
            Some(child) => {
                assert(0 <= child < self@.revisions.len());
                self.staged = self.revisions[child].text.clone();
                self.head_index = child;
                true
            },
            None => false,
        }
    }

    /// Lets redo go to the child made just before the one it went to so far,
    /// or from the oldest child to the youngest. The current revision, the
    /// staged buffer and the shape of the tree stay as they are.
    pub fn previous_child_revision(&mut self)
        requires
            old(self).well_formed(),
        ensures
            final(self)@ == old(self)@.with_previous_child(),
            final(self).well_formed(),
    {
        let ghost before = self@;
        proof {
            lemma_navigation_keeps_history(before);
        }
        let head: usize = self.head_index;
        let current = &mut self.revisions[head];
        let count: usize = current.children.len();
        if count > 0 {
            if current.preferred == 0 {
                current.preferred = count - 1;
            } else {
                current.preferred = current.preferred - 1;
            }
        }
        proof {
            assert(self@.revisions =~= before.with_previous_child().revisions);
        }
    }

    /// Lets redo go to the child made just after the one it went to so far, or
    /// from the youngest child to the oldest. The current revision, the staged
    /// buffer and the shape of the tree stay as they are.
    pub fn next_child_revision(&mut self)
        requires
            old(self).well_formed(),
        ensures
            final(self)@ == old(self)@.with_next_child(),
            final(self).well_formed(),
    {
        let ghost before = self@;
        proof {
            lemma_navigation_keeps_history(before);
        }
        let head: usize = self.head_index;
        let current = &mut self.revisions[head];
        let count: usize = current.children.len();
        if count > 0 {
            if current.preferred >= count - 1 {
                current.preferred = 0;
            } else {
                current.preferred = current.preferred + 1;
            }
        }
        proof {
            assert(self@.revisions =~= before.with_next_child().revisions);
        }
    }

    /// Undoes, and where that has exchanged the staged buffer brings `cursor`
    /// over into the new one.
    pub fn undo_with(&mut self, cursor: &mut Cursor) -> (moved: bool)
        requires
            old(self).well_formed(),
        ensures
            final(self)@ == old(self)@.undone(),
            final(self).well_formed(),
            moved == old(self)@.current().parent is Some,
            final(cursor)@ == if moved {
                synced(old(cursor)@, old(self)@.staged, final(self)@.staged)
            } else {
                old(cursor)@
            },
            moved ==> final(cursor)@.aligned(final(self)@.staged),
    {
        let previous = self.staged.clone();
        let moved = self.undo();
        if moved {
            cursor.sync(&previous, &self.staged);
        }
        moved
    }

    /// Redoes, and where that has exchanged the staged buffer brings `cursor`
    /// over into the new one.
    pub fn redo_with(&mut self, cursor: &mut Cursor) -> (moved: bool)
        requires
            old(self).well_formed(),
        ensures
            final(self)@ == old(self)@.redone(),
            final(self).well_formed(),
            moved == old(self)@.current().preferred_child() is Some,
            final(cursor)@ == if moved {
                synced(old(cursor)@, old(self)@.staged, final(self)@.staged)
            } else {
                old(cursor)@
            },
            moved ==> final(cursor)@.aligned(final(self)@.staged),
    {
        let previous = self.staged.clone();
        let moved = self.redo();
        if moved {
            cursor.sync(&previous, &self.staged);
        }
        moved
    }
}

} // verus!
