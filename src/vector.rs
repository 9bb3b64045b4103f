use vstd::prelude::*;

verus! {

/// An ordered tuple of components; its dimension is the number of components.
#[derive(Debug, PartialEq)]
pub struct Vector<T> {
    pub elements: Vec<T>,
}

/// `b` holds, position by position, clones of the entries of `a`.
pub open spec fn cloned_seq<T: Clone>(a: Seq<T>, b: Seq<T>) -> bool {
    &&& a.len() == b.len()
    &&& forall|i: int| 0 <= i < a.len() ==> cloned(a[i], #[trigger] b[i])
}

impl<T> View for Vector<T> {
    type V = Seq<T>;

    open spec fn view(&self) -> Seq<T> {
        self.elements@
    }
}

impl<T> Vector<T> {
    /// Vector with the given components.
    pub fn new(elements: Vec<T>) -> (r: Vector<T>)
        ensures
            r@ == elements@,
    {
        Vector { elements }
    }

    /// Reference to the component at `index`, or `None` past the last one.
    pub fn get_ref(&self, index: usize) -> (r: Option<&T>)
        ensures
            index < self@.len() ==> r == Some(&self@[index as int]),
            index >= self@.len() ==> r is None,
    {
        self.elements.get(index)
    }

    /// Number of components.
    pub fn dim(&self) -> (r: usize)
        ensures
            r == self@.len(),
    {
        self.elements.len()
    }

    /// Replaces the component at `index`; fails, leaving the vector as it was,
    /// when `index` is not below the dimension.
    pub fn set(&mut self, index: usize, value: T) -> (r: Result<(), ()>)
        ensures
            index < old(self)@.len() ==> r is Ok && final(self)@ == old(self)@.update(index as int, value),
            index >= old(self)@.len() ==> r is Err && final(self)@ == old(self)@,
    {
        if index < self.elements.len() {
            self.elements.set(index, value);
            Ok(())
        } else {
            Err(())
        }
    }

    /// Vector of `f` applied to the components in the same position of `self`
    /// and `other`; `None` when their dimensions differ.
    pub fn zip_with<U, F: Fn(&T, &T) -> U>(&self, other: &Vector<T>, f: F) -> (r: Option<Vector<U>>)
        requires
            self@.len() == other@.len() ==> forall|i: int| 0 <= i < self@.len() ==> f.requires((&self@[i], &other@[i])),
        ensures
            r is Some <==> self@.len() == other@.len(),
            r matches Some(v) ==> v@.len() == self@.len() && forall|i: int|
                0 <= i < self@.len() ==> f.ensures((&self@[i], &other@[i]), #[trigger] v@[i]),
    {
        if self.elements.len() != other.elements.len() {
            return None;
        }
        let mut out: Vec<U> = Vec::new();
        let mut i: usize = 0;
        while i < self.elements.len()
            invariant
                self@.len() == other@.len(),
                forall|i: int| 0 <= i < self@.len() ==> f.requires((&self@[i], &other@[i])),
                i <= self@.len(),
                out@.len() == i,
                forall|k: int| 0 <= k < i ==> f.ensures((&self@[k], &other@[k]), #[trigger] out@[k]),
            decreases self@.len() - i,
        {
            out.push(f(&self.elements[i], &other.elements[i]));
            i += 1;
        }
        Some(Vector { elements: out })
    }

    /// Vector of `f` applied to each component.
    pub fn map<U, F: Fn(&T) -> U>(&self, f: F) -> (r: Vector<U>)
        requires
            forall|i: int| 0 <= i < self@.len() ==> f.requires((&self@[i],)),
        ensures
            r@.len() == self@.len(),
            forall|i: int| 0 <= i < self@.len() ==> f.ensures((&self@[i],), #[trigger] r@[i]),
    {
        let mut out: Vec<U> = Vec::new();
        let mut i: usize = 0;
        while i < self.elements.len()
            invariant
                forall|i: int| 0 <= i < self@.len() ==> f.requires((&self@[i],)),
                i <= self@.len(),
                out@.len() == i,
                forall|k: int| 0 <= k < i ==> f.ensures((&self@[k],), #[trigger] out@[k]),
            decreases self@.len() - i,
        {
            out.push(f(&self.elements[i]));
            i += 1;
        }
        Vector { elements: out }
    }

    /// Whether the dimensions agree and `close` holds of the components in
    /// every position.
    pub fn approximately_equal<F: Fn(&T, &T) -> bool>(&self, other: &Vector<T>, close: F) -> (r: bool)
        requires
            self@.len() == other@.len() ==> forall|i: int| 0 <= i < self@.len() ==> close.requires((&self@[i], &other@[i])),
        ensures
            r ==> self@.len() == other@.len() && forall|i: int|
                0 <= i < self@.len() ==> close.ensures((&self@[i], &other@[i]), true),
            !r ==> self@.len() != other@.len() || exists|i: int|
                0 <= i < self@.len() && close.ensures((&self@[i], &other@[i]), false),
    {
        if self.elements.len() != other.elements.len() {
            return false;
        }
        let mut i: usize = 0;
        while i < self.elements.len()
            invariant
                self@.len() == other@.len(),
                forall|i: int| 0 <= i < self@.len() ==> close.requires((&self@[i], &other@[i])),
                i <= self@.len(),
                forall|k: int| 0 <= k < i ==> close.ensures((&self@[k], &other@[k]), true),
            decreases self@.len() - i,
        {
            if !close(&self.elements[i], &other.elements[i]) {
                return false;
            }
            i += 1;
        }
        true
    }
}

impl<T: Copy> Vector<T> {
    /// Copy of the component at `index`, or `None` past the last one.
    pub fn get(&self, index: usize) -> (r: Option<T>)
        ensures
            index < self@.len() ==> r == Some(self@[index as int]),
            index >= self@.len() ==> r is None,
    {
        if index < self.elements.len() {
            Some(self.elements[index])
        } else {
            None
        }
    }
}

impl<T: Clone> Clone for Vector<T> {
    fn clone(&self) -> (r: Vector<T>)
        ensures
            cloned_seq(self@, r@),
    {
        let mut elements: Vec<T> = Vec::new();
        let mut i: usize = 0;
        while i < self.elements.len()
            invariant
                i <= self@.len(),
                elements@.len() == i,
                forall|k: int| 0 <= k < i ==> cloned(self@[k], #[trigger] elements@[k]),
            decreases self@.len() - i,
        {
            elements.push(self.elements[i].clone());
            i += 1;
        }
        Vector { elements }
    }
}

} // verus!
