//! Records of the table: lists of named, typed attribute values.

use vstd::prelude::*;

verus! {

/// One stored attribute value: the store's tagged union over the value
/// types the service meets.  String values are the only ones the read
/// path reports; boolean and other typed values are carried through
/// writes but filtered out of read bodies.
pub enum AttrValue {
    Str(String),
    Boolean(bool),
    Other,
}

/// The mathematical shape of an attribute value.
pub enum AttrView {
    Str(Seq<char>),
    Boolean(bool),
    Other,
}

impl View for AttrValue {
    type V = AttrView;

    open spec fn view(&self) -> AttrView {
        match self {
            AttrValue::Str(s) => AttrView::Str(s@),
            AttrValue::Boolean(b) => AttrView::Boolean(*b),
            AttrValue::Other => AttrView::Other,
        }
    }
}

/// The value bound to `name` in the attribute list `s`; the first
/// occurrence of a name wins.
pub open spec fn attr_at(s: Seq<(String, AttrValue)>, name: Seq<char>) -> Option<AttrView>
    decreases s.len(),
{
    if s.len() == 0 {
        None
    } else if s[0].0@ == name {
        Some(s[0].1@)
    } else {
        attr_at(s.skip(1), name)
    }
}

/// No attribute name occurs twice.
pub open spec fn distinct_names(s: Seq<(String, AttrValue)>) -> bool {
    forall|i: int, j: int| 0 <= i < j < s.len() ==> s[i].0@ != s[j].0@
}

/// The string-typed attributes of `s`, in order: exactly what the read
/// path reports.
pub open spec fn str_attrs(s: Seq<(String, AttrValue)>) -> Seq<(Seq<char>, Seq<char>)>
    decreases s.len(),
{
    if s.len() == 0 {
        Seq::empty()
    } else {
        let rest = str_attrs(s.drop_last());
        match s.last().1@ {
            AttrView::Str(v) => rest.push((s.last().0@, v)),
            _ => rest,
        }
    }
}

/// The views of a list of owned string pairs.
pub open spec fn pairs_view(s: Seq<(String, String)>) -> Seq<(Seq<char>, Seq<char>)> {
    s.map_values(|p: (String, String)| (p.0@, p.1@))
}

/// Relies on str's `PartialEq`: two slices are equal exactly when their
/// character sequences are.
#[verifier::external_body]
pub(crate) fn str_eq(a: &str, b: &str) -> (r: bool)
    ensures
        r == (a@ == b@),
{
    a == b
}

pub proof fn lemma_attr_at_update(
    s: Seq<(String, AttrValue)>,
    i: int,
    p: (String, AttrValue),
    n: Seq<char>,
)
    requires
        0 <= i < s.len(),
        s[i].0@ == p.0@,
        distinct_names(s),
    ensures
        attr_at(s.update(i, p), n) == (if n == p.0@ {
            Some(p.1@)
        } else {
            attr_at(s, n)
        }),
    decreases s.len(),
{
    let t = s.update(i, p);
    if i == 0 {
        assert(t[0] == p);
        assert(t.skip(1) =~= s.skip(1));
    } else {
        assert(t[0] == s[0]);
        assert(t.skip(1) =~= s.skip(1).update(i - 1, p));
        assert(distinct_names(s.skip(1))) by {
            assert forall|a: int, b: int|
                0 <= a < b < s.skip(1).len() implies s.skip(1)[a].0@ != s.skip(1)[b].0@ by {
                assert(s.skip(1)[a] == s[a + 1]);
                assert(s.skip(1)[b] == s[b + 1]);
            }
        }
        assert(s.skip(1)[i - 1] == s[i]);
        lemma_attr_at_update(s.skip(1), i - 1, p, n);
        if n == s[0].0@ {
            assert(s[0].0@ != s[i].0@);
        }
    }
}

pub proof fn lemma_attr_at_push(s: Seq<(String, AttrValue)>, p: (String, AttrValue), n: Seq<char>)
    ensures
        attr_at(s.push(p), n) == (if attr_at(s, n) is Some {
            attr_at(s, n)
        } else if n == p.0@ {
            Some(p.1@)
        } else {
            None::<AttrView>
        }),
    decreases s.len(),
{
    let t = s.push(p);
    if s.len() == 0 {
        assert(t[0] == p);
        assert(t.skip(1) =~= Seq::<(String, AttrValue)>::empty());
        assert(attr_at(t.skip(1), n) is None);
        assert(attr_at(s, n) is None);
    } else {
        assert(t[0] == s[0]);
        assert(t.skip(1) =~= s.skip(1).push(p));
        lemma_attr_at_push(s.skip(1), p, n);
        assert(attr_at(t.skip(1), n) == attr_at(s.skip(1).push(p), n));
    }
}

pub proof fn lemma_attr_at_none(s: Seq<(String, AttrValue)>, n: Seq<char>)
    ensures
        (attr_at(s, n) is None) <==> (forall|i: int| 0 <= i < s.len() ==> s[i].0@ != n),
    decreases s.len(),
{
    if s.len() > 0 {
        lemma_attr_at_none(s.skip(1), n);
        if attr_at(s, n) is None {
            assert(s[0].0@ != n);
            assert(attr_at(s.skip(1), n) is None);
            assert forall|i: int| 0 <= i < s.len() implies s[i].0@ != n by {
                if i > 0 {
                    assert(s.skip(1)[i - 1] == s[i]);
                    assert(s.skip(1)[i - 1].0@ != n);
                }
            }
        } else {
            if s[0].0@ != n {
                assert(attr_at(s.skip(1), n) is Some);
                assert(exists|j: int| 0 <= j < s.skip(1).len() && s.skip(1)[j].0@ == n);
                let j = choose|j: int| 0 <= j < s.skip(1).len() && s.skip(1)[j].0@ == n;
                assert(s[j + 1].0@ == n);
            }
        }
    }
}

/// Every string-typed attribute of a record shows up in its projection:
/// reading back a record reflects each string value bound in it.
pub proof fn lemma_str_attr_projected(s: Seq<(String, AttrValue)>, n: Seq<char>, v: Seq<char>)
    requires
        attr_at(s, n) == Some(AttrView::Str(v)),
    ensures
        str_attrs(s).contains((n, v)),
    decreases s.len(),
{
    assert(s.len() > 0);
    let s0 = s.drop_last();
    let l = s.last();
    assert(s =~= s0.push(l));
    lemma_attr_at_push(s0, l, n);
    if attr_at(s0, n) is Some {
        lemma_str_attr_projected(s0, n, v);
        let j = choose|j: int| 0 <= j < str_attrs(s0).len() && str_attrs(s0)[j] == (n, v);
        match l.1@ {
            AttrView::Str(w) => {
                assert(str_attrs(s)[j] == (n, v));
            }
            _ => {
                assert(str_attrs(s)[j] == (n, v));
            }
        }
    } else {
        assert(n == l.0@ && l.1@ == AttrView::Str(v));
        assert(str_attrs(s).last() == (n, v));
    }
}

/// One record of the table: named attribute values with pairwise
/// distinct names.
pub struct Item {
    pub attrs: Vec<(String, AttrValue)>,
}

impl Item {
    /// Distinct attribute names; every constructor and mutator keeps this.
    pub open spec fn wf(&self) -> bool {
        distinct_names(self.attrs@)
    }

    pub fn new() -> (r: Item)
        ensures
            r.attrs@ == Seq::<(String, AttrValue)>::empty(),
            r.wf(),
    {
        Item { attrs: Vec::new() }
    }

    /// The index holding `name`, if any.
    pub fn find_attr(&self, name: &str) -> (r: Option<usize>)
        ensures
            match r {
                Some(i) => i < self.attrs@.len() && self.attrs@[i as int].0@ == name@
                    && attr_at(self.attrs@, name@) == Some(self.attrs@[i as int].1@),
                None => attr_at(self.attrs@, name@) is None,
            },
    {
        let mut i: usize = 0;
        proof {
            assert(self.attrs@.skip(0) =~= self.attrs@);
        }
        while i < self.attrs.len()
            invariant
                i <= self.attrs@.len(),
                attr_at(self.attrs@, name@) == attr_at(self.attrs@.skip(i as int), name@),
            decreases self.attrs@.len() - i,
        {
            proof {
                assert(self.attrs@.skip(i as int)[0] == self.attrs@[i as int]);
                assert(self.attrs@.skip(i as int).skip(1) =~= self.attrs@.skip(i as int + 1));
            }
            if str_eq(self.attrs[i].0.as_str(), name) {
                return Some(i);
            }
            i = i + 1;
        }
        None
    }

    /// Binds `name` to `value`, replacing any previous binding for it.
    pub fn set_attr(&mut self, name: &str, value: AttrValue)
        requires
            old(self).wf(),
        ensures
            final(self).wf(),
            forall|n: Seq<char>| attr_at(final(self).attrs@, n) == (if n == name@ {
                Some(value@)
            } else {
                attr_at(old(self).attrs@, n)
            }),
    {
        let ghost v0 = self.attrs@;
        let found = self.find_attr(name);
        let pair = (name.to_owned(), value);
        let ghost gp = pair;
        match found {
            Some(i) => {
                let _replaced = self.attrs.remove(i);
                self.attrs.insert(i, pair);
                proof {
                    assert(self.attrs@ =~= v0.update(i as int, gp));
                    assert forall|n: Seq<char>|
                        attr_at(self.attrs@, n) == (if n == name@ {
                            Some(gp.1@)
                        } else {
                            attr_at(v0, n)
                        }) by {
                        lemma_attr_at_update(v0, i as int, gp, n);
                    }
                    assert forall|a: int, b: int|
                        0 <= a < b < self.attrs@.len() implies self.attrs@[a].0@
                        != self.attrs@[b].0@ by {
                        assert(v0[a].0@ != v0[b].0@);
                    }
                }
            }
            None => {
                self.attrs.push(pair);
                proof {
                    assert forall|n: Seq<char>|
                        attr_at(self.attrs@, n) == (if n == name@ {
                            Some(gp.1@)
                        } else {
                            attr_at(v0, n)
                        }) by {
                        lemma_attr_at_push(v0, gp, n);
                    }
                    lemma_attr_at_none(v0, name@);
                    assert forall|a: int, b: int|
                        0 <= a < b < self.attrs@.len() implies self.attrs@[a].0@
                        != self.attrs@[b].0@ by {
                        if b < v0.len() {
                            assert(v0[a].0@ != v0[b].0@);
                        } else {
                            assert(self.attrs@[b] == gp);
                            assert(v0[a].0@ != name@);
                        }
                    }
                }
            }
        }
    }

    /// The string-typed attributes, as owned pairs: the read path's body.
    pub fn project_string_attrs(&self) -> (r: Vec<(String, String)>)
        ensures
            pairs_view(r@) == str_attrs(self.attrs@),
    {
        let mut out: Vec<(String, String)> = Vec::new();
        let mut i: usize = 0;
        while i < self.attrs.len()
            invariant
                i <= self.attrs@.len(),
                pairs_view(out@) == str_attrs(self.attrs@.take(i as int)),
            decreases self.attrs@.len() - i,
        {
            proof {
                assert(self.attrs@.take(i as int + 1).drop_last() =~= self.attrs@.take(i as int));
                assert(self.attrs@.take(i as int + 1).last() == self.attrs@[i as int]);
            }
            match &self.attrs[i].1 {
                AttrValue::Str(v) => {
                    let pair = (self.attrs[i].0.clone(), v.clone());
                    out.push(pair);
                    proof {
                        assert(pairs_view(out@) =~~= str_attrs(
                            self.attrs@.take(i as int + 1),
                        ));
                    }
                }
                _ => {}
            }
            i = i + 1;
        }
        proof {
            assert(self.attrs@.take(self.attrs@.len() as int) =~= self.attrs@);
        }
        out
    }
}

/// The string under an attribute view, where one is there.
pub open spec fn str_of(o: Option<AttrView>) -> Seq<char> {
    match o {
        Some(AttrView::Str(v)) => v,
        _ => Seq::empty(),
    }
}

/// The partition half of a record's key.
pub open spec fn item_uid(s: Seq<(String, AttrValue)>) -> Seq<char> {
    str_of(attr_at(s, "user_id"@))
}

/// The sort half of a record's key.
pub open spec fn item_pid(s: Seq<(String, AttrValue)>) -> Seq<char> {
    str_of(attr_at(s, "profile_id"@))
}

/// Both key attributes are there and string-typed.
pub open spec fn has_string_keys(s: Seq<(String, AttrValue)>) -> bool {
    &&& attr_at(s, "user_id"@) matches Some(AttrView::Str(_))
    &&& attr_at(s, "profile_id"@) matches Some(AttrView::Str(_))
}

impl Item {
    /// Whether this record's key pair is exactly `(u, p)`.
    /// The owned key strings of a record.
    pub fn key_strings(&self) -> (r: (String, String))
        requires
            has_string_keys(self.attrs@),
        ensures
            r.0@ == item_uid(self.attrs@),
            r.1@ == item_pid(self.attrs@),
    {
        let uid = match self.find_attr("user_id") {
            Some(i) => match &self.attrs[i].1 {
                AttrValue::Str(s) => s.clone(),
                _ => String::new(),
            },
            None => String::new(),
        };
        let pid = match self.find_attr("profile_id") {
            Some(i) => match &self.attrs[i].1 {
                AttrValue::Str(s) => s.clone(),
                _ => String::new(),
            },
            None => String::new(),
        };
        (uid, pid)
    }

    /// Whether this record's key pair is exactly `(u, p)`.
    pub fn key_matches(&self, u: &str, p: &str) -> (r: bool)
        requires
            has_string_keys(self.attrs@),
        ensures
            r == (item_uid(self.attrs@) == u@ && item_pid(self.attrs@) == p@),
    {
        let uid_ok = match self.find_attr("user_id") {
            Some(i) => match &self.attrs[i].1 {
                AttrValue::Str(s) => str_eq(s.as_str(), u),
                _ => false,
            },
            None => false,
        };
        let pid_ok = match self.find_attr("profile_id") {
            Some(i) => match &self.attrs[i].1 {
                AttrValue::Str(s) => str_eq(s.as_str(), p),
                _ => false,
            },
            None => false,
        };
        uid_ok && pid_ok
    }
}

} // verus!
