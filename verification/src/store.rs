//! The table: point operations on records keyed by string pairs.

use vstd::prelude::*;

use crate::item::{
    attr_at, distinct_names, has_string_keys, item_pid, item_uid, lemma_attr_at_none,
    lemma_attr_at_push, pairs_view, str_eq, AttrValue, Item,
};

verus! {

/// A record's key pair: partition key, then sort key.
pub open spec fn key_of(it: Item) -> (Seq<char>, Seq<char>) {
    (item_uid(it.attrs@), item_pid(it.attrs@))
}

/// The record under the key `(u, p)`; the first match wins.
pub open spec fn rec_at(s: Seq<Item>, u: Seq<char>, p: Seq<char>) -> Option<Item>
    decreases s.len(),
{
    if s.len() == 0 {
        None
    } else if key_of(s[0]) == (u, p) {
        Some(s[0])
    } else {
        rec_at(s.skip(1), u, p)
    }
}

/// Keys are pairwise distinct.
pub open spec fn distinct_keys(s: Seq<Item>) -> bool {
    forall|i: int, j: int| 0 <= i < j < s.len() ==> key_of(s[i]) != key_of(s[j])
}

/// Every record is well formed, has string-typed key attributes, and no
/// two records share a key.
pub open spec fn tbl_wf(s: Seq<Item>) -> bool {
    &&& forall|i: int|
        0 <= i < s.len() ==> (#[trigger] s[i]).wf() && has_string_keys(s[i].attrs@)
    &&& distinct_keys(s)
}

/// The key pairs of the records whose partition key is `u`, in table
/// order: what the range query returns, projected to its keys.
pub open spec fn partition_pairs(s: Seq<Item>, u: Seq<char>) -> Seq<(Seq<char>, Seq<char>)>
    decreases s.len(),
{
    if s.len() == 0 {
        Seq::empty()
    } else {
        let rest = partition_pairs(s.drop_last(), u);
        if item_uid(s.last().attrs@) == u {
            rest.push((item_uid(s.last().attrs@), item_pid(s.last().attrs@)))
        } else {
            rest
        }
    }
}

pub proof fn lemma_rec_at_update(s: Seq<Item>, i: int, it: Item, u: Seq<char>, p: Seq<char>)
    requires
        0 <= i < s.len(),
        key_of(it) == key_of(s[i]),
        distinct_keys(s),
    ensures
        rec_at(s.update(i, it), u, p) == (if (u, p) == key_of(it) {
            Some(it)
        } else {
            rec_at(s, u, p)
        }),
    decreases s.len(),
{
    let t = s.update(i, it);
    if i == 0 {
        assert(t[0] == it);
        assert(t.skip(1) =~= s.skip(1));
    } else {
        assert(t[0] == s[0]);
        assert(t.skip(1) =~= s.skip(1).update(i - 1, it));
        assert(distinct_keys(s.skip(1))) by {
            assert forall|a: int, b: int|
                0 <= a < b < s.skip(1).len() implies key_of(s.skip(1)[a]) != key_of(
                s.skip(1)[b],
            ) by {
                assert(s.skip(1)[a] == s[a + 1]);
                assert(s.skip(1)[b] == s[b + 1]);
            }
        }
        assert(s.skip(1)[i - 1] == s[i]);
        lemma_rec_at_update(s.skip(1), i - 1, it, u, p);
        if (u, p) == key_of(s[0]) {
            assert(key_of(s[0]) != key_of(s[i]));
        }
    }
}

pub proof fn lemma_rec_at_push(s: Seq<Item>, it: Item, u: Seq<char>, p: Seq<char>)
    ensures
        rec_at(s.push(it), u, p) == (if rec_at(s, u, p) is Some {
            rec_at(s, u, p)
        } else if (u, p) == key_of(it) {
            Some(it)
        } else {
            None::<Item>
        }),
    decreases s.len(),
{
    let t = s.push(it);
    if s.len() == 0 {
        assert(t[0] == it);
        assert(t.skip(1) =~= Seq::<Item>::empty());
        assert(rec_at(t.skip(1), u, p) is None);
        assert(rec_at(s, u, p) is None);
    } else {
        assert(t[0] == s[0]);
        assert(t.skip(1) =~= s.skip(1).push(it));
        lemma_rec_at_push(s.skip(1), it, u, p);
        assert(rec_at(t.skip(1), u, p) == rec_at(s.skip(1).push(it), u, p));
    }
}

pub proof fn lemma_rec_at_none(s: Seq<Item>, u: Seq<char>, p: Seq<char>)
    ensures
        (rec_at(s, u, p) is None) <==> (forall|i: int|
            0 <= i < s.len() ==> key_of(s[i]) != (u, p)),
    decreases s.len(),
{
    if s.len() > 0 {
        lemma_rec_at_none(s.skip(1), u, p);
        if rec_at(s, u, p) is None {
            assert(key_of(s[0]) != (u, p));
            assert(rec_at(s.skip(1), u, p) is None);
            assert forall|i: int| 0 <= i < s.len() implies key_of(s[i]) != (u, p) by {
                if i > 0 {
                    assert(s.skip(1)[i - 1] == s[i]);
                    assert(key_of(s.skip(1)[i - 1]) != (u, p));
                }
            }
        } else {
            if key_of(s[0]) != (u, p) {
                assert(rec_at(s.skip(1), u, p) is Some);
                assert(exists|j: int|
                    0 <= j < s.skip(1).len() && key_of(s.skip(1)[j]) == (u, p));
                let j = choose|j: int|
                    0 <= j < s.skip(1).len() && key_of(s.skip(1)[j]) == (u, p);
                assert(key_of(s[j + 1]) == (u, p));
            }
        }
    }
}

pub proof fn lemma_rec_at_remove(s: Seq<Item>, i: int, u: Seq<char>, p: Seq<char>)
    requires
        0 <= i < s.len(),
        distinct_keys(s),
    ensures
        rec_at(s.remove(i), u, p) == (if (u, p) == key_of(s[i]) {
            None::<Item>
        } else {
            rec_at(s, u, p)
        }),
    decreases s.len(),
{
    let t = s.remove(i);
    if i == 0 {
        assert(t =~= s.skip(1));
        if (u, p) == key_of(s[0]) {
            lemma_rec_at_none(s.skip(1), u, p);
            assert forall|a: int| 0 <= a < s.skip(1).len() implies key_of(s.skip(1)[a]) != (
            u, p) by {
                assert(s.skip(1)[a] == s[a + 1]);
                assert(key_of(s[0]) != key_of(s[a + 1]));
            }
        }
    } else {
        assert(t[0] == s[0]);
        assert(t.skip(1) =~= s.skip(1).remove(i - 1));
        assert(distinct_keys(s.skip(1))) by {
            assert forall|a: int, b: int|
                0 <= a < b < s.skip(1).len() implies key_of(s.skip(1)[a]) != key_of(
                s.skip(1)[b],
            ) by {
                assert(s.skip(1)[a] == s[a + 1]);
                assert(s.skip(1)[b] == s[b + 1]);
            }
        }
        assert(s.skip(1)[i - 1] == s[i]);
        lemma_rec_at_remove(s.skip(1), i - 1, u, p);
        if (u, p) == key_of(s[0]) {
            assert(key_of(s[0]) != key_of(s[i]));
        }
    }
}

/// Every pair the range query returns carries the queried partition key.
pub proof fn lemma_partition_pairs_uid(s: Seq<Item>, u: Seq<char>, k: int)
    requires
        0 <= k < partition_pairs(s, u).len(),
    ensures
        partition_pairs(s, u)[k].0 == u,
    decreases s.len(),
{
    if s.len() > 0 {
        let s0 = s.drop_last();
        if item_uid(s.last().attrs@) == u {
            if k < partition_pairs(s0, u).len() {
                lemma_partition_pairs_uid(s0, u, k);
            }
        } else {
            lemma_partition_pairs_uid(s0, u, k);
        }
    }
}

/// A record that is there turns up in its partition's range query.
pub proof fn lemma_rec_at_in_partition(s: Seq<Item>, u: Seq<char>, p: Seq<char>)
    requires
        rec_at(s, u, p) is Some,
    ensures
        partition_pairs(s, u).contains((u, p)),
    decreases s.len(),
{
    assert(s.len() > 0);
    let s0 = s.drop_last();
    let l = s.last();
    assert(s =~= s0.push(l));
    lemma_rec_at_push(s0, l, u, p);
    if rec_at(s0, u, p) is Some {
        lemma_rec_at_in_partition(s0, u, p);
        let j = choose|j: int|
            0 <= j < partition_pairs(s0, u).len() && partition_pairs(s0, u)[j] == (u, p);
        assert(partition_pairs(s, u)[j] == (u, p));
    } else {
        assert((u, p) == key_of(l));
        assert(partition_pairs(s, u).last() == (u, p));
    }
}

/// The table: records addressed by `(user_id, profile_id)`, both strings.
pub struct Table {
    pub items: Vec<Item>,
}

impl View for Table {
    type V = Seq<Item>;

    open spec fn view(&self) -> Seq<Item> {
        self.items@
    }
}

impl Table {
    pub open spec fn wf(&self) -> bool {
        tbl_wf(self@)
    }

    pub fn new() -> (r: Table)
        ensures
            r@ == Seq::<Item>::empty(),
            r.wf(),
    {
        Table { items: Vec::new() }
    }

    /// The index of the record under `(u, p)`, if one is there.
    fn find_index(&self, u: &str, p: &str) -> (r: Option<usize>)
        requires
            self.wf(),
        ensures
            match r {
                Some(i) => i < self@.len() && key_of(self@[i as int]) == (u@, p@) && rec_at(
                    self@,
                    u@,
                    p@,
                ) == Some(self@[i as int]),
                None => rec_at(self@, u@, p@) is None,
            },
    {
        let mut i: usize = 0;
        proof {
            assert(self@.skip(0) =~= self@);
        }
        while i < self.items.len()
            invariant
                i <= self@.len(),
                self.wf(),
                rec_at(self@, u@, p@) == rec_at(self@.skip(i as int), u@, p@),
            decreases self@.len() - i,
        {
            proof {
                assert(self@.skip(i as int)[0] == self@[i as int]);
                assert(self@.skip(i as int).skip(1) =~= self@.skip(i as int + 1));
            }
            if self.items[i].key_matches(u, p) {
                return Some(i);
            }
            i = i + 1;
        }
        None
    }

    /// The record under `(u, p)`: a point get.
    pub fn get_item(&self, u: &str, p: &str) -> (r: Option<&Item>)
        requires
            self.wf(),
        ensures
            match r {
                Some(it) => rec_at(self@, u@, p@) == Some(*it),
                None => rec_at(self@, u@, p@) is None,
            },
    {
        match self.find_index(u, p) {
            Some(i) => Some(&self.items[i]),
            None => None,
        }
    }

    /// Stores `it` under its own key, replacing any record already
    /// there: an unconditional put.
    pub fn put_item(&mut self, it: Item)
        requires
            old(self).wf(),
            it.wf(),
            has_string_keys(it.attrs@),
        ensures
            final(self).wf(),
            forall|u2: Seq<char>, p2: Seq<char>|
                rec_at(final(self)@, u2, p2) == (if (u2, p2) == key_of(it) {
                    Some(it)
                } else {
                    rec_at(old(self)@, u2, p2)
                }),
    {
        let ghost v0 = self@;
        let ghost git = it;
        let ks = it.key_strings();
        let idx = self.find_index(ks.0.as_str(), ks.1.as_str());
        proof {
            assert((ks.0@, ks.1@) == key_of(git));
        }
        match idx {
            Some(i) => {
                let _replaced = self.items.remove(i);
                self.items.insert(i, it);
                proof {
                    assert(self@ =~= v0.update(i as int, git));
                    assert forall|u2: Seq<char>, p2: Seq<char>|
                        rec_at(self@, u2, p2) == (if (u2, p2) == key_of(git) {
                            Some(git)
                        } else {
                            rec_at(v0, u2, p2)
                        }) by {
                        lemma_rec_at_update(v0, i as int, git, u2, p2);
                    }
                    assert forall|a: int, b: int|
                        0 <= a < b < self@.len() implies key_of(self@[a]) != key_of(
                        self@[b],
                    ) by {
                        assert(key_of(v0[a]) != key_of(v0[b]));
                    }
                }
            }
            None => {
                self.items.push(it);
                proof {
                    assert forall|u2: Seq<char>, p2: Seq<char>|
                        rec_at(self@, u2, p2) == (if (u2, p2) == key_of(git) {
                            Some(git)
                        } else {
                            rec_at(v0, u2, p2)
                        }) by {
                        lemma_rec_at_push(v0, git, u2, p2);
                    }
                    lemma_rec_at_none(v0, key_of(git).0, key_of(git).1);
                    assert forall|a: int, b: int|
                        0 <= a < b < self@.len() implies key_of(self@[a]) != key_of(
                        self@[b],
                    ) by {
                        if b < v0.len() {
                            assert(key_of(v0[a]) != key_of(v0[b]));
                        } else {
                            assert(self@[b] == git);
                            assert(key_of(v0[a]) != (key_of(git).0, key_of(git).1));
                        }
                    }
                }
            }
        }
    }

    /// Overwrites the named attributes of the record under `(u, p)` and
    /// nothing else: the expression-driven update.  Key attributes are
    /// never among the assignments.
    pub fn update_item(&mut self, u: &str, p: &str, assigns: Vec<(String, AttrValue)>)
        requires
            old(self).wf(),
            distinct_names(assigns@),
            attr_at(assigns@, "user_id"@) is None,
            attr_at(assigns@, "profile_id"@) is None,
            rec_at(old(self)@, u@, p@) is Some,
        ensures
            final(self).wf(),
            rec_at(old(self)@, u@, p@) matches Some(it0) && rec_at(final(self)@, u@, p@)
                matches Some(it1) && forall|n: Seq<char>|
                attr_at(it1.attrs@, n) == (if attr_at(assigns@, n) is Some {
                    attr_at(assigns@, n)
                } else {
                    attr_at(it0.attrs@, n)
                }),
            forall|u2: Seq<char>, p2: Seq<char>|
                (u2, p2) != (u@, p@) ==> rec_at(final(self)@, u2, p2) == rec_at(
                    old(self)@,
                    u2,
                    p2,
                ),
    {
        let ghost v0 = self@;
        let ghost a0 = assigns@;
        let idx = self.find_index(u, p);
        let mut rest = assigns;
        match idx {
            Some(i) => {
                let mut it = self.items.remove(i);
                let ghost it0 = it;
                let mut k: usize = 0;
                let total: usize = rest.len();
                proof {
                    assert(a0.take(0) =~= Seq::<(String, AttrValue)>::empty());
                    assert(a0.skip(0) =~= a0);
                    assert(total == a0.len());
                }
                while rest.len() > 0
                    invariant
                        k <= a0.len(),
                        a0.len() <= usize::MAX,
                        rest@ =~= a0.skip(k as int),
                        distinct_names(a0),
                        it.wf(),
                        it0.wf(),
                        forall|n: Seq<char>|
                            attr_at(it.attrs@, n) == (if attr_at(a0.take(k as int), n)
                                is Some {
                                attr_at(a0.take(k as int), n)
                            } else {
                                attr_at(it0.attrs@, n)
                            }),
                    decreases rest@.len(),
                {
                    proof {
                        assert(rest@[0] == a0[k as int]);
                    }
                    let pair = rest.remove(0);
                    let ghost gpair = pair;
                    let (nm, val) = pair;
                    it.set_attr(nm.as_str(), val);
                    proof {
                        assert(gpair == a0[k as int]);
                        assert(a0.take(k as int + 1) =~= a0.take(k as int).push(
                            a0[k as int],
                        ));
                        assert forall|n: Seq<char>|
                            attr_at(it.attrs@, n) == (if attr_at(a0.take(k as int + 1), n)
                                is Some {
                                attr_at(a0.take(k as int + 1), n)
                            } else {
                                attr_at(it0.attrs@, n)
                            }) by {
                            lemma_attr_at_push(a0.take(k as int), a0[k as int], n);
                            if n == a0[k as int].0@ {
                                lemma_attr_at_none(a0.take(k as int), n);
                                assert forall|x: int|
                                    0 <= x < a0.take(k as int).len() implies a0.take(
                                    k as int)[x].0@ != n by {
                                    assert(a0.take(k as int)[x] == a0[x]);
                                    assert(a0[x].0@ != a0[k as int].0@);
                                }
                            }
                        }
                        assert(rest@ =~= a0.skip(k as int + 1));
                    }
                    k = k + 1;
                }
                proof {
                    assert(a0.take(a0.len() as int) =~= a0);
                }
                let ghost it1 = it;
                self.items.insert(i, it);
                proof {
                    assert(self@ =~= v0.update(i as int, it1));
                    assert(attr_at(it1.attrs@, "user_id"@) == attr_at(it0.attrs@, "user_id"@));
                    assert(attr_at(it1.attrs@, "profile_id"@) == attr_at(
                        it0.attrs@,
                        "profile_id"@,
                    ));
                    assert(key_of(it1) == key_of(v0[i as int]));
                    assert forall|u2: Seq<char>, p2: Seq<char>|
                        rec_at(self@, u2, p2) == (if (u2, p2) == key_of(it1) {
                            Some(it1)
                        } else {
                            rec_at(v0, u2, p2)
                        }) by {
                        lemma_rec_at_update(v0, i as int, it1, u2, p2);
                    }
                    assert(rec_at(self@, u@, p@) == Some(it1));
                    assert forall|a: int, b: int|
                        0 <= a < b < self@.len() implies key_of(self@[a]) != key_of(
                        self@[b],
                    ) by {
                        assert(key_of(v0[a]) != key_of(v0[b]));
                    }
                }
            }
            None => {
                proof {
                    assert(false);
                }
            }
        }
    }

    /// Removes the record under `(u, p)`, if any: the idempotent point
    /// delete.
    pub fn delete_item(&mut self, u: &str, p: &str)
        requires
            old(self).wf(),
        ensures
            final(self).wf(),
            forall|u2: Seq<char>, p2: Seq<char>|
                rec_at(final(self)@, u2, p2) == (if (u2, p2) == (u@, p@) {
                    None::<Item>
                } else {
                    rec_at(old(self)@, u2, p2)
                }),
    {
        let ghost v0 = self@;
        match self.find_index(u, p) {
            Some(i) => {
                let _removed = self.items.remove(i);
                proof {
                    assert forall|u2: Seq<char>, p2: Seq<char>|
                        rec_at(self@, u2, p2) == (if (u2, p2) == (u@, p@) {
                            None::<Item>
                        } else {
                            rec_at(v0, u2, p2)
                        }) by {
                        lemma_rec_at_remove(v0, i as int, u2, p2);
                    }
                    assert forall|a: int, b: int|
                        0 <= a < b < self@.len() implies key_of(self@[a]) != key_of(
                        self@[b],
                    ) by {
                        let a2: int = if a < i { a } else { a + 1 };
                        let b2: int = if b < i { b } else { b + 1 };
                        assert(self@[a] == v0[a2]);
                        assert(self@[b] == v0[b2]);
                        assert(key_of(v0[a2]) != key_of(v0[b2]));
                    }
                }
            }
            None => {},
        }
    }

    /// The key pairs of every record whose partition key is `u`, in
    /// table order: the range query, projected to its keys.
    pub fn query_keys(&self, u: &str) -> (r: Vec<(String, String)>)
        requires
            self.wf(),
        ensures
            pairs_view(r@) == partition_pairs(self@, u@),
    {
        let mut out: Vec<(String, String)> = Vec::new();
        let mut i: usize = 0;
        proof {
            assert(self@.take(0) =~= Seq::<Item>::empty());
        }
        while i < self.items.len()
            invariant
                i <= self@.len(),
                self.wf(),
                pairs_view(out@) == partition_pairs(self@.take(i as int), u@),
            decreases self@.len() - i,
        {
            proof {
                assert(self@.take(i as int + 1).drop_last() =~= self@.take(i as int));
                assert(self@.take(i as int + 1).last() == self@[i as int]);
            }
            let ks = self.items[i].key_strings();
            let in_partition = str_eq(ks.0.as_str(), u);
            if in_partition {
                out.push(ks);
            }
            proof {
                assert(pairs_view(out@) =~~= partition_pairs(self@.take(i as int + 1), u@));
            }
            i = i + 1;
        }
        proof {
            assert(self@.take(self@.len() as int) =~= self@);
        }
        out
    }
}

} // verus!
