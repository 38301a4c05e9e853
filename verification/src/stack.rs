//! Window identifiers and the ordered collection of them that is laid out.

use vstd::prelude::*;

verus! {

/// The identifier of a window. The library never looks inside it.
#[derive(Debug, Clone, Copy, PartialEq, Eq, Hash, Structural)]
pub struct Xid(pub u32);

/// Windows in tiling order, one of them focused. No identifier occurs twice.
/// The focused window may stand anywhere in the order.
#[derive(Debug)]
pub struct Stack {
    ids: Vec<Xid>,
    focus: usize,
}

/// Whether `focus` names an element of a sequence of `len` elements; in an
/// empty sequence nothing is focused and the index is zero.
pub open spec fn focus_fits(len: nat, focus: int) -> bool {
    if len == 0 {
        focus == 0
    } else {
        0 <= focus < len
    }
}

/// Whether some identifier occurs twice in `ids`.
pub fn has_duplicates(ids: &Vec<Xid>) -> (found: bool)
    ensures
        found == !ids@.no_duplicates(),
{
    let n: usize = ids.len();
    let mut i: usize = 0;
    while i < n
        invariant
            n == ids@.len(),
            i <= n,
            forall|a: int, b: int| 0 <= a < b < i ==> ids@[a] != ids@[b],
        decreases n - i,
    {
        let mut j: usize = 0;
        while j < i
            invariant
                n == ids@.len(),
                i < n,
                j <= i,
                forall|a: int, b: int| 0 <= a < b < i ==> ids@[a] != ids@[b],
                forall|a: int| 0 <= a < j ==> ids@[a] != ids@[i as int],
            decreases i - j,
        {
            if ids[j] == ids[i] {
                assert(!ids@.no_duplicates());
                return true;
            }
            j += 1;
        }
        i += 1;
    }
    assert(ids@.no_duplicates()) by {
        assert forall|a: int, b: int| 0 <= a < ids@.len() && 0 <= b < ids@.len() && a != b implies ids@[a]
            != ids@[b] by {
            if a < b {
                assert(ids@[a] != ids@[b]);
            } else {
                assert(ids@[b] != ids@[a]);
            }
        }
    }
    false
}

impl Stack {
    #[verifier::type_invariant]
    spec fn inv(self) -> bool {
        &&& self.ids@.no_duplicates()
        &&& focus_fits(self.ids@.len(), self.focus as int)
    }

    /// The identifiers in tiling order.
    pub closed spec fn view(&self) -> Seq<Xid> {
        self.ids@
    }

    /// The position of the focused window.
    pub closed spec fn focus_index(&self) -> int {
        self.focus as int
    }

    /// The stack of `ids` in this order, with the one at `focus` focused.
    /// There is none if an identifier occurs twice, or if `focus` names no
    /// element (for an empty stack `focus` is zero).
    pub fn try_new(ids: Vec<Xid>, focus: usize) -> (res: Option<Stack>)
        ensures
            res is Some <==> ids@.no_duplicates() && focus_fits(ids@.len(), focus as int),
            res matches Some(s) ==> s@ == ids@ && s.focus_index() == focus,
    {
        let fits: bool = if ids.len() == 0 {
            focus == 0
        } else {
            focus < ids.len()
        };
        if !fits || has_duplicates(&ids) {
            None
        } else {
            Some(Stack { ids, focus })
        }
    }

    /// The identifiers in tiling order. None of them occurs twice.
    pub fn ids(&self) -> (ids: &Vec<Xid>)
        ensures
            ids@ == self@,
            self@.no_duplicates(),
            focus_fits(self@.len(), self.focus_index()),
    {
        proof {
            use_type_invariant(self);
        }
        &self.ids
    }

    /// How many windows there are.
    pub fn len(&self) -> (n: usize)
        ensures
            n == self@.len(),
    {
        self.ids.len()
    }

    /// Whether there is no window.
    pub fn is_empty(&self) -> (b: bool)
        ensures
            b == (self@.len() == 0),
    {
        self.ids.len() == 0
    }

    /// The window at position `i` of the tiling order, if there is one.
    pub fn get(&self, i: usize) -> (id: Option<Xid>)
        ensures
            i < self@.len() ==> id == Some(self@[i as int]),
            i >= self@.len() ==> id is None,
    {
        if i < self.ids.len() {
            Some(self.ids[i])
        } else {
            None
        }
    }

    /// The focused window, if there is any window.
    pub fn focused(&self) -> (id: Option<Xid>)
        ensures
            self@.len() == 0 ==> id is None,
            self@.len() > 0 ==> 0 <= self.focus_index() < self@.len() && id == Some(
                self@[self.focus_index()],
            ),
    {
        proof {
            use_type_invariant(self);
        }
        if self.ids.len() == 0 {
            None
        } else {
            Some(self.ids[self.focus])
        }
    }

    /// Whether `id` is one of the windows.
    pub fn contains(&self, id: Xid) -> (b: bool)
        ensures
            b == self@.contains(id),
    {
        let n: usize = self.ids.len();
        let mut i: usize = 0;
        while i < n
            invariant
                n == self.ids@.len(),
                i <= n,
                forall|k: int| 0 <= k < i ==> self.ids@[k] != id,
            decreases n - i,
        {
            if self.ids[i] == id {
                return true;
            }
            i += 1;
        }
        false
    }
}

} // verus!
