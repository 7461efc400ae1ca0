//! Values under identifiers, in the order in which the identifiers were entered.

use vstd::prelude::*;

verus! {

/// The place of an identifier.
pub open spec fn find<T>(s: Seq<(u128, T)>, id: u128) -> Option<int>
    decreases s.len(),
{
    if s.len() == 0 {
        None
    } else if s.last().0 == id {
        Some(s.len() - 1)
    } else {
        find(s.drop_last(), id)
    }
}

/// The value under an identifier.
pub open spec fn lookup<T>(s: Seq<(u128, T)>, id: u128) -> Option<T> {
    match find(s, id) {
        Some(i) => Some(s[i].1),
        None => None,
    }
}

/// The entries with one more: in place of the value under that identifier, or else at the end.
pub open spec fn put<T>(s: Seq<(u128, T)>, id: u128, value: T) -> Seq<(u128, T)> {
    match find(s, id) {
        Some(i) => s.update(i, (id, value)),
        None => s.push((id, value)),
    }
}

/// The entries without that of an identifier.
pub open spec fn without<T>(s: Seq<(u128, T)>, id: u128) -> Seq<(u128, T)> {
    match find(s, id) {
        Some(i) => s.remove(i),
        None => s,
    }
}

/// No identifier occurs twice.
pub open spec fn distinct<T>(s: Seq<(u128, T)>) -> bool {
    forall|i: int, j: int|
        #![trigger s[i], s[j]]
        0 <= i < j < s.len() ==> s[i].0 != s[j].0
}

/// Where an identifier is found, and where it is not.
pub proof fn lemma_find<T>(s: Seq<(u128, T)>, id: u128)
    ensures
        match find(s, id) {
            Some(i) => 0 <= i < s.len() && s[i].0 == id,
            None => forall|i: int| #![trigger s[i]] 0 <= i < s.len() ==> s[i].0 != id,
        },
    decreases s.len(),
{
    if s.len() > 0 && s.last().0 != id {
        let t: Seq<(u128, T)> = s.drop_last();
        lemma_find(t, id);
        if find(t, id) is None {
            assert forall|i: int| #![trigger s[i]] 0 <= i < s.len() implies s[i].0 != id by {
                if i < s.len() - 1 {
                    assert(t[i] == s[i]);
                }
            }
        }
    }
}

/// An identifier that occurs, and occurs once, is found there.
pub proof fn lemma_find_at<T>(s: Seq<(u128, T)>, id: u128, at: int)
    requires
        distinct(s),
        0 <= at < s.len(),
        s[at].0 == id,
    ensures
        find(s, id) == Some(at),
{
    lemma_find(s, id);
    match find(s, id) {
        Some(i) => {
            if i < at {
                assert(s[i].0 != s[at].0);
            }
            if at < i {
                assert(s[at].0 != s[i].0);
            }
        },
        None => {},
    }
}

/// What has been put is looked up again, and every other identifier keeps its value.
pub proof fn put_then_lookup<T>(s: Seq<(u128, T)>, id: u128, value: T, other: u128)
    requires
        distinct(s),
    ensures
        distinct(put(s, id, value)),
        lookup(put(s, id, value), other) == if other == id {
            Some(value)
        } else {
            lookup(s, other)
        },
{
    let t: Seq<(u128, T)> = put(s, id, value);
    lemma_find(s, id);
    lemma_find(s, other);
    assert forall|i: int, j: int|
        #![trigger t[i], t[j]]
        0 <= i < j < t.len() implies t[i].0 != t[j].0 by {
        if j < s.len() {
            assert(s[i].0 != s[j].0);
        }
    }
    lemma_find(t, other);
    if other == id {
        match find(s, id) {
            Some(i) => {
                lemma_find_at(t, id, i);
            },
            None => {
                lemma_find_at(t, id, s.len() as int);
            },
        }
    } else {
        match find(s, other) {
            Some(i) => {
                assert(t[i] == s[i]);
                lemma_find_at(t, other, i);
            },
            None => {
                match find(t, other) {
                    Some(i) => {
                        if i < s.len() {
                            assert(t[i].0 == s[i].0);
                        }
                    },
                    None => {},
                }
            },
        }
    }
}

/// What has been taken out is gone, and every other identifier keeps its value.
pub proof fn without_then_lookup<T>(s: Seq<(u128, T)>, id: u128, other: u128)
    requires
        distinct(s),
    ensures
        distinct(without(s, id)),
        lookup(without(s, id), other) == if other == id {
            None
        } else {
            lookup(s, other)
        },
{
    let t: Seq<(u128, T)> = without(s, id);
    lemma_find(s, id);
    lemma_find(s, other);
    match find(s, id) {
        Some(at) => {
            assert forall|i: int| 0 <= i < t.len() implies #[trigger] t[i] == if i < at {
                s[i]
            } else {
                s[i + 1]
            } by {}
            assert forall|i: int, j: int|
                #![trigger t[i], t[j]]
                0 <= i < j < t.len() implies t[i].0 != t[j].0 by {
                let si: int = if i < at {
                    i
                } else {
                    i + 1
                };
                let sj: int = if j < at {
                    j
                } else {
                    j + 1
                };
                assert(s[si].0 != s[sj].0);
            }
            lemma_find(t, other);
            match find(t, other) {
                Some(i) => {
                    let si: int = if i < at {
                        i
                    } else {
                        i + 1
                    };
                    assert(s[si].0 == other);
                    lemma_find_at(s, other, si);
                },
                None => {
                    match find(s, other) {
                        Some(k) => {
                            if k != at {
                                let ti: int = if k < at {
                                    k
                                } else {
                                    k - 1
                                };
                                assert(t[ti].0 == other);
                            }
                        },
                        None => {},
                    }
                },
            }
        },
        None => {
            lemma_find(t, other);
        },
    }
}

/// Taking out what has just been put under a new identifier undoes the putting.
pub proof fn put_then_without<T>(s: Seq<(u128, T)>, id: u128, value: T)
    requires
        lookup(s, id) is None,
    ensures
        without(put(s, id, value), id) == s,
{
    let t: Seq<(u128, T)> = put(s, id, value);
    assert(find(t, id) == Some(t.len() - 1));
    assert(t.remove(t.len() - 1) == s);
}

/// Of two values that are put under one identifier, the second counts.
pub proof fn put_twice<T>(s: Seq<(u128, T)>, id: u128, first: T, second: T)
    requires
        distinct(s),
    ensures
        put(put(s, id, first), id, second) == put(s, id, second),
{
    let t: Seq<(u128, T)> = put(s, id, first);
    put_then_lookup(s, id, first, id);
    lemma_find(s, id);
    match find(s, id) {
        Some(i) => {
            lemma_find_at(t, id, i);
        },
        None => {
            lemma_find_at(t, id, s.len() as int);
        },
    }
    assert(put(t, id, second) =~= put(s, id, second));
}

/// Values under identifiers.
#[derive(Debug)]
pub struct Registry<T> {
    entries: Vec<(u128, T)>,
}

impl<T: View> View for Registry<T> {
    type V = Seq<(u128, T::V)>;

    closed spec fn view(&self) -> Seq<(u128, T::V)> {
        Seq::new(self.entries@.len(), |i: int| (self.entries@[i].0, self.entries@[i].1@))
    }
}

impl<T: View> Registry<T> {
    pub fn new() -> (r: Self)
        ensures
            r@ == Seq::<(u128, T::V)>::empty(),
    {
        let r: Registry<T> = Registry { entries: Vec::new() };
        assert(r@ =~= Seq::<(u128, T::V)>::empty());
        r
    }

    pub fn len(&self) -> (r: usize)
        ensures
            r == self@.len(),
    {
        self.entries.len()
    }

    /// The identifier and the value at a place.
    pub fn at(&self, i: usize) -> (r: (u128, &T))
        requires
            i < self@.len(),
        ensures
            (r.0, r.1@) == self@[i as int],
    {
        (self.entries[i].0, &self.entries[i].1)
    }

    fn position(&self, id: u128) -> (r: Option<usize>)
        ensures
            match r {
                Some(i) => find(self@, id) == Some(i as int) && i < self@.len(),
                None => find(self@, id) is None,
            },
    {
        let mut i: usize = self.entries.len();
        assert(self@.take(i as int) == self@);
        while i > 0
            invariant
                i <= self@.len(),
                self@.len() == self.entries@.len(),
                find(self@, id) == find(self@.take(i as int), id),
            decreases i,
        {
            assert(self@.take(i as int).drop_last() == self@.take(i - 1));
            assert(self@.take(i as int).last() == self@[i - 1]);
            i = i - 1;
            if self.entries[i].0 == id {
                return Some(i);
            }
        }
        None
    }

    pub fn get(&self, id: u128) -> (r: Option<&T>)
        ensures
            match r {
                Some(v) => lookup(self@, id) == Some(v@),
                None => lookup(self@, id) is None,
            },
    {
        match self.position(id) {
            Some(i) => Some(&self.entries[i].1),
            None => None,
        }
    }

    pub fn insert(&mut self, id: u128, value: T)
        ensures
            final(self)@ == put(old(self)@, id, value@),
    {
        match self.position(id) {
            Some(i) => {
                self.entries.set(i, (id, value));
            },
            None => {
                self.entries.push((id, value));
            },
        }
        assert(self@ =~= put(old(self)@, id, value@));
    }

    pub fn remove(&mut self, id: u128) -> (r: Option<T>)
        ensures
            final(self)@ == without(old(self)@, id),
            match r {
                Some(v) => lookup(old(self)@, id) == Some(v@),
                None => lookup(old(self)@, id) is None,
            },
    {
        match self.position(id) {
            Some(i) => {
                let (_, v) = self.entries.remove(i);
                assert(self@ =~= without(old(self)@, id));
                Some(v)
            },
            None => None,
        }
    }
}

} // verus!
