use vstd::prelude::*;

verus! {

/// A stable handle of a node in an [`Arena`].
#[derive(Debug, Clone, Copy, PartialEq, Eq, Structural)]
pub struct Node(pub usize);

/// An append-only store of nodes addressed by [`Node`]. A slot may be
/// emptied by `take` and filled again by `replace`; its id never changes.
pub struct Arena<T> {
    items: Vec<Option<T>>,
}

impl<T> View for Arena<T> {
    type V = Seq<Option<T>>;

    closed spec fn view(&self) -> Seq<Option<T>> {
        self.items@
    }
}

impl<T> Arena<T> {
    /// The id is that of a slot that holds a node.
    pub open spec fn is_live(&self, id: Node) -> bool {
        id.0 < self@.len() && self@[id.0 as int] is Some
    }

    /// The node held at a live id.
    pub open spec fn node(&self, id: Node) -> T {
        self@[id.0 as int]->Some_0
    }

    pub fn new() -> (r: Self)
        ensures
            r@ == Seq::<Option<T>>::empty(),
    {
        Arena { items: Vec::new() }
    }

    pub fn len(&self) -> (r: usize)
        ensures
            r == self@.len(),
    {
        self.items.len()
    }

    pub fn is_empty(&self) -> (r: bool)
        ensures
            r == (self@.len() == 0),
    {
        self.items.len() == 0
    }

    /// Appends a node and returns its new id.
    pub fn add(&mut self, val: T) -> (r: Node)
        ensures
            r.0 == old(self)@.len(),
            final(self)@ == old(self)@.push(Some(val)),
    {
        let id = self.items.len();
        self.items.push(Some(val));
        Node(id)
    }

    /// Whether a node is held at the id.
    pub fn contains(&self, id: Node) -> (r: bool)
        ensures
            r == self.is_live(id),
    {
        id.0 < self.items.len() && self.items[id.0].is_some()
    }

    /// The node held at a live id.
    pub fn get(&self, id: Node) -> (r: &T)
        requires
            self.is_live(id),
        ensures
            *r == self.node(id),
    {
        self.items[id.0].as_ref().unwrap()
    }

    /// The node held at the id, if any.
    pub fn try_get(&self, id: Node) -> (r: Option<&T>)
        ensures
            r == (if self.is_live(id) { Some(&self.node(id)) } else { None::<&T> }),
    {
        if id.0 < self.items.len() {
            self.items[id.0].as_ref()
        } else {
            None
        }
    }

    /// Moves the node out of its slot, which stays empty until `replace`.
    pub fn take(&mut self, id: Node) -> (r: T)
        requires
            old(self).is_live(id),
        ensures
            r == old(self).node(id),
            final(self)@ == old(self)@.update(id.0 as int, None),
    {
        self.items.push(None);
        let slot = self.items.swap_remove(id.0);
        proof {
            assert(self.items@ =~= old(self)@.update(id.0 as int, None));
        }
        slot.unwrap()
    }

    /// Fills the slot of the id with a node; the id stays valid for every
    /// parent that holds it.
    pub fn replace(&mut self, id: Node, val: T)
        requires
            id.0 < old(self)@.len(),
        ensures
            final(self)@ == old(self)@.update(id.0 as int, Some(val)),
    {
        self.items.set(id.0, Some(val));
    }
}

} // verus!
