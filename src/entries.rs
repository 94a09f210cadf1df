use vstd::prelude::*;

verus! {

/// The position of the first occurrence of `p` in `s`.
pub open spec fn first_index(s: Seq<Seq<char>>, p: Seq<char>) -> int {
    choose|i: int| 0 <= i < s.len() && s[i] == p && forall|j: int| 0 <= j < i ==> s[j] != p
}

/// The contents of a store: scalar entries, each a payload, and list
/// entries, each a sequence of payloads, keyed by string.
pub struct Entries {
    pub scalars: Map<Seq<char>, Seq<char>>,
    pub lists: Map<Seq<char>, Seq<Seq<char>>>,
}

impl Entries {
    /// No key is both a scalar and a list.
    pub open spec fn exclusive(self) -> bool {
        forall|k: Seq<char>| !(#[trigger] self.scalars.contains_key(k) && self.lists.contains_key(k))
    }

    /// `k` is held, as a scalar or as a list.
    pub open spec fn holds(self, k: Seq<char>) -> bool {
        self.scalars.contains_key(k) || self.lists.contains_key(k)
    }

    /// The payload of scalar `k`, if there is one.
    pub open spec fn scalar(self, k: Seq<char>) -> Option<Seq<char>> {
        if self.scalars.contains_key(k) {
            Some(self.scalars[k])
        } else {
            None
        }
    }

    /// The payload at `pos` of list `k`, if the list exists and `pos` is in bounds.
    pub open spec fn item(self, k: Seq<char>, pos: int) -> Option<Seq<char>> {
        if self.lists.contains_key(k) && 0 <= pos < self.lists[k].len() {
            Some(self.lists[k][pos])
        } else {
            None
        }
    }

    /// The length of list `k`, or zero where there is no such list.
    pub open spec fn list_len(self, k: Seq<char>) -> nat {
        if self.lists.contains_key(k) {
            self.lists[k].len()
        } else {
            0
        }
    }

    /// `k` becomes a scalar holding `p`; a list under `k` is dropped.
    pub open spec fn put_scalar(self, k: Seq<char>, p: Seq<char>) -> Entries {
        Entries { scalars: self.scalars.insert(k, p), lists: self.lists.remove(k) }
    }

    /// `k` becomes an empty list; a scalar under `k` is dropped.
    pub open spec fn put_list(self, k: Seq<char>) -> Entries {
        Entries { scalars: self.scalars.remove(k), lists: self.lists.insert(k, Seq::empty()) }
    }

    /// `k` is dropped, whichever kind it is.
    pub open spec fn remove_key(self, k: Seq<char>) -> Entries {
        Entries { scalars: self.scalars.remove(k), lists: self.lists.remove(k) }
    }

    /// List `k` is dropped; scalars stay.
    pub open spec fn remove_list(self, k: Seq<char>) -> Entries {
        Entries { scalars: self.scalars, lists: self.lists.remove(k) }
    }

    /// `ps` is appended to list `k`, where it exists.
    pub open spec fn extend_list(self, k: Seq<char>, ps: Seq<Seq<char>>) -> Entries {
        if self.lists.contains_key(k) {
            Entries { scalars: self.scalars, lists: self.lists.insert(k, self.lists[k] + ps) }
        } else {
            self
        }
    }

    /// The payload at `pos` of list `k` is taken out, where it exists.
    pub open spec fn pop_at(self, k: Seq<char>, pos: int) -> Entries {
        if self.item(k, pos) is Some {
            Entries { scalars: self.scalars, lists: self.lists.insert(k, self.lists[k].remove(pos)) }
        } else {
            self
        }
    }

    /// The first payload of list `k` equal to `p` is taken out, where there is one.
    pub open spec fn remove_first(self, k: Seq<char>, p: Seq<char>) -> Entries {
        if self.lists.contains_key(k) && self.lists[k].contains(p) {
            Entries {
                scalars: self.scalars,
                lists: self.lists.insert(k, self.lists[k].remove(first_index(self.lists[k], p))),
            }
        } else {
            self
        }
    }
}

/// Every operation keeps each key out of one of the two kinds.
pub proof fn lemma_operations_keep_exclusive(
    e: Entries,
    k: Seq<char>,
    p: Seq<char>,
    ps: Seq<Seq<char>>,
    pos: int,
)
    requires
        e.exclusive(),
    ensures
        e.put_scalar(k, p).exclusive(),
        e.put_list(k).exclusive(),
        e.remove_key(k).exclusive(),
        e.remove_list(k).exclusive(),
        e.extend_list(k, ps).exclusive(),
        e.pop_at(k, pos).exclusive(),
        e.remove_first(k, p).exclusive(),
{
}

/// Reading a scalar right after storing it gives back the stored payload.
pub proof fn lemma_put_then_get(e: Entries, k: Seq<char>, p: Seq<char>)
    ensures
        e.put_scalar(k, p).scalar(k) == Some(p),
{
}

/// A list created and then extended holds exactly the appended payloads, in order.
pub proof fn lemma_list_order(e: Entries, k: Seq<char>, ps: Seq<Seq<char>>)
    ensures
        e.put_list(k).extend_list(k, ps).list_len(k) == ps.len(),
        forall|i: int|
            0 <= i < ps.len() ==> #[trigger] e.put_list(k).extend_list(k, ps).item(k, i) == Some(
                ps[i],
            ),
{
    let f = e.put_list(k).extend_list(k, ps);
    assert(f.lists[k] =~= ps);
}

/// Popping position `pos` returns the payload there and shifts the later
/// payloads one place to the left.
pub proof fn lemma_pop_shifts_left(e: Entries, k: Seq<char>, pos: int)
    requires
        e.item(k, pos) is Some,
    ensures
        e.pop_at(k, pos).list_len(k) == e.list_len(k) - 1,
        forall|i: int| 0 <= i < pos ==> #[trigger] e.pop_at(k, pos).item(k, i) == e.item(k, i),
        forall|i: int|
            pos <= i < e.list_len(k) - 1 ==> #[trigger] e.pop_at(k, pos).item(k, i) == e.item(
                k,
                i + 1,
            ),
{
}

/// Creating a list over a scalar replaces the scalar, and storing a scalar
/// over a list replaces the list.
pub proof fn lemma_kind_overwrite(e: Entries, k: Seq<char>, p: Seq<char>)
    ensures
        !e.put_list(k).scalars.contains_key(k),
        e.put_list(k).lists.contains_key(k),
        e.put_scalar(k, p).scalars.contains_key(k),
        !e.put_scalar(k, p).lists.contains_key(k),
{
}

/// A key that is not held reads as absent, as an empty list, and is not
/// removed by anything.
pub proof fn lemma_missing_key(e: Entries, k: Seq<char>, pos: int)
    requires
        !e.holds(k),
    ensures
        e.scalar(k) is None,
        e.item(k, pos) is None,
        e.list_len(k) == 0,
        e.remove_key(k) == e,
{
    assert(e.remove_key(k).scalars =~= e.scalars);
    assert(e.remove_key(k).lists =~= e.lists);
}

} // verus!
