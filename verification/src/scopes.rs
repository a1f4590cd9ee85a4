//! A stack of name-to-value mappings, used for symbol tables and
//! environments during compilation.
//!
//! The innermost scope is the last one. A lookup searches from the
//! innermost scope outwards; within a scope, the latest binding for a
//! name wins. The model of a scope is a mathematical map from name to
//! value; the model of the whole table is the sequence of those maps.

use vstd::prelude::*;

verus! {

/// One scope: bindings in the order they were added; later entries win.
pub type Scope<V> = Vec<(String, V)>;

/// The scope hierarchy. The first scope is the global one; it is always
/// present.
#[derive(Debug)]
pub struct Scopes<V> {
    pub scopes: Vec<Scope<V>>,
}

/// The value bound to `k` in one scope's binding list; the last binding
/// for `k` wins.
pub open spec fn assoc_lookup<V>(s: Seq<(String, V)>, k: Seq<char>) -> Option<V>
    decreases s,
{
    if s.len() == 0 {
        None
    } else if s[s.len() - 1].0@ == k {
        Some(s[s.len() - 1].1)
    } else {
        assoc_lookup(s.subrange(0, s.len() - 1), k)
    }
}

/// The mapping a scope's binding list denotes.
pub open spec fn scope_map<V>(s: Seq<(String, V)>) -> Map<Seq<char>, V> {
    Map::new(|k: Seq<char>| assoc_lookup(s, k) is Some, |k: Seq<char>| assoc_lookup(s, k)->0)
}

/// The models of a sequence of scopes, pointwise.
pub open spec fn scope_views<V>(v: Seq<Scope<V>>) -> Seq<Map<Seq<char>, V>>
    decreases v,
{
    if v.len() == 0 {
        Seq::empty()
    } else {
        scope_views(v.subrange(0, v.len() - 1)).push(scope_map(v[v.len() - 1]@))
    }
}

/// A pointwise scope model has the length of its carrier.
pub broadcast proof fn lemma_scope_views_len<V>(v: Seq<Scope<V>>)
    ensures
        #[trigger] scope_views(v).len() == v.len(),
    decreases v,
{
    if v.len() > 0 {
        lemma_scope_views_len(v.subrange(0, v.len() - 1));
    }
}

/// A pointwise scope model holds the model of each scope.
pub broadcast proof fn lemma_scope_views_index<V>(v: Seq<Scope<V>>, i: int)
    requires
        0 <= i < v.len(),
    ensures
        #[trigger] scope_views(v)[i] == scope_map(v[i]@),
    decreases v,
{
    lemma_scope_views_len(v);
    if v.len() > 0 && i < v.len() - 1 {
        lemma_scope_views_index(v.subrange(0, v.len() - 1), i);
    }
}

/// The value bound to `k`, searching the innermost scope first.
pub open spec fn scopes_lookup<V>(views: Seq<Map<Seq<char>, V>>, k: Seq<char>) -> Option<V>
    decreases views,
{
    if views.len() == 0 {
        None
    } else if views[views.len() - 1].contains_key(k) {
        Some(views[views.len() - 1][k])
    } else {
        scopes_lookup(views.subrange(0, views.len() - 1), k)
    }
}

impl<V> View for Scopes<V> {
    type V = Seq<Map<Seq<char>, V>>;

    open spec fn view(&self) -> Seq<Map<Seq<char>, V>> {
        scope_views(self.scopes@)
    }
}

impl<V> Scopes<V> {
    /// A table holding one empty global scope.
    pub fn new() -> (r: Self)
        ensures
            r@ =~= seq![Map::<Seq<char>, V>::empty()],
    {
        let mut scopes: Vec<Scope<V>> = Vec::new();
        scopes.push(Vec::new());
        let r = Scopes { scopes };
        proof {
            lemma_scope_views_len(r.scopes@);
            lemma_scope_views_index(r.scopes@, 0);
            assert(scope_map(Seq::<(String, V)>::empty()) =~= Map::<Seq<char>, V>::empty());
            assert(r.scopes@[0]@ =~= Seq::<(String, V)>::empty());
        }
        r
    }

    /// Open a new innermost scope.
    pub fn open_new(&mut self)
        ensures
            final(self)@ =~= old(self)@.push(Map::<Seq<char>, V>::empty()),
    {
        self.scopes.push(Vec::new());
        proof {
            lemma_scope_views_len(self.scopes@);
            lemma_scope_views_len(old(self).scopes@);
            assert(self.scopes@.subrange(0, self.scopes@.len() - 1) =~= old(self).scopes@);
            assert(self.scopes@[self.scopes@.len() - 1]@ =~= Seq::<(String, V)>::empty());
            assert(scope_map(Seq::<(String, V)>::empty()) =~= Map::<Seq<char>, V>::empty());
        }
    }

    /// Close the innermost scope and hand it back. The global scope is
    /// never closed.
    pub fn collapse_innermost(&mut self) -> (r: Scope<V>)
        requires
            old(self)@.len() > 1,
        ensures
            final(self)@ =~= old(self)@.subrange(0, old(self)@.len() - 1),
            scope_map(r@) == old(self)@[old(self)@.len() - 1],
    {
        proof {
            lemma_scope_views_len(self.scopes@);
            lemma_scope_views_index(self.scopes@, self.scopes@.len() - 1);
        }
        let r = self.scopes.pop().unwrap();
        proof {
            lemma_scope_views_len(self.scopes@);
            assert(self.scopes@ =~= old(self).scopes@.subrange(
                0,
                old(self).scopes@.len() - 1,
            ));
            assert forall|i: int| 0 <= i < self@.len() implies self@[i] == old(self)@.subrange(
                0,
                old(self)@.len() - 1,
            )[i] by {
                lemma_scope_views_index(self.scopes@, i);
                lemma_scope_views_index(old(self).scopes@, i);
            }
        }
        r
    }

    /// Bind `key` to `val` in the innermost scope.
    pub fn add_entry(&mut self, key: String, val: V)
        requires
            old(self)@.len() >= 1,
        ensures
            final(self)@ =~= old(self)@.update(
                old(self)@.len() - 1,
                old(self)@[old(self)@.len() - 1].insert(key@, val),
            ),
    {
        proof {
            lemma_scope_views_len(self.scopes@);
        }
        let ghost kv = key@;
        let last = self.scopes.len() - 1;
        let inner = &mut self.scopes[last];
        inner.push((key, val));
        proof {
            lemma_scope_views_len(self.scopes@);
            let os = old(self).scopes@;
            let ns = self.scopes@;
            assert(ns =~= os.update(os.len() - 1, ns[os.len() - 1]));
            assert(ns[os.len() - 1]@ =~= os[os.len() - 1]@.push((ns[os.len() - 1]@[ns[os.len()
                - 1]@.len() - 1].0, val)));
            let oldlist = os[os.len() - 1]@;
            let newlist = ns[os.len() - 1]@;
            assert(newlist[newlist.len() - 1].0@ == kv);
            assert(newlist.subrange(0, newlist.len() - 1) =~= oldlist);
            assert(scope_map(newlist) =~= scope_map(oldlist).insert(kv, val));
            assert forall|i: int| 0 <= i < ns.len() implies #[trigger] scope_views(ns)[i] == (
            if i == os.len() - 1 {
                scope_map(newlist)
            } else {
                scope_views(os)[i]
            }) by {
                lemma_scope_views_index(ns, i);
                lemma_scope_views_index(os, i);
            }
            assert forall|i: int| 0 <= i < old(self)@.len() implies final(self)@[i] == old(
                self,
            )@.update(old(self)@.len() - 1, old(self)@[old(self)@.len() - 1].insert(kv, val))[i]
                by {
                lemma_scope_views_index(os, old(self)@.len() - 1);
            }
        }
    }

    /// The value bound to `key`, searching the innermost scope first.
    #[verifier::loop_isolation(false)]
    pub fn find_entry(&self, key: &String) -> (r: Option<&V>)
        ensures
            match r {
                Some(v) => scopes_lookup(self@, key@) == Some(*v),
                None => scopes_lookup(self@, key@) is None,
            },
    {
        proof {
            lemma_scope_views_len(self.scopes@);
            assert(self.scopes@.subrange(0, self.scopes@.len() as int) =~= self.scopes@);
        }
        let ghost k = key@;
        let mut si: usize = self.scopes.len();
        while si > 0
            invariant
                si <= self.scopes@.len(),
                scopes_lookup(self@, k) == scopes_lookup(
                    scope_views(self.scopes@.subrange(0, si as int)),
                    k,
                ),
            decreases si,
        {
            let scope = &self.scopes[si - 1];
            proof {
                assert(scope@.subrange(0, scope@.len() as int) =~= scope@);
            }
            let mut ei: usize = scope.len();
            while ei > 0
                invariant
                    ei <= scope@.len(),
                    *scope == self.scopes@[si as int - 1],
                    1 <= si <= self.scopes@.len(),
                    assoc_lookup(scope@, k) == assoc_lookup(scope@.subrange(0, ei as int), k),
                decreases ei,
            {
                proof {
                    assert(scope@.subrange(0, ei as int).subrange(0, ei - 1) =~= scope@.subrange(
                        0,
                        ei - 1,
                    ));
                }
                if scope[ei - 1].0 == *key {
                    proof {
                        assert(assoc_lookup(scope@, k) == Some(scope@[ei - 1].1));
                        assert(scope_map(scope@).contains_key(k));
                        lemma_scope_views_index(self.scopes@, si - 1);
                        let pre = scope_views(self.scopes@.subrange(0, si as int));
                        lemma_scope_views_len(self.scopes@.subrange(0, si as int));
                        lemma_scope_views_index(self.scopes@.subrange(0, si as int), si - 1);
                        assert(self.scopes@.subrange(0, si as int)[si - 1] == self.scopes@[si
                            - 1]);
                        assert(pre[pre.len() - 1] == scope_map(scope@));
                        assert(scopes_lookup(pre, k) == Some(scope@[ei - 1].1));
                    }
                    return Some(&scope[ei - 1].1);
                }
                ei = ei - 1;
            }
            proof {
                assert(scope@.subrange(0, 0) =~= Seq::<(String, V)>::empty());
                assert(assoc_lookup(scope@, k) is None);
                assert(!scope_map(scope@).contains_key(k));
                let pre = scope_views(self.scopes@.subrange(0, si as int));
                lemma_scope_views_len(self.scopes@.subrange(0, si as int));
                lemma_scope_views_index(self.scopes@.subrange(0, si as int), si - 1);
                assert(pre[pre.len() - 1] == scope_map(scope@));
                lemma_scope_views_len(self.scopes@.subrange(0, si - 1));
                assert forall|i: int| 0 <= i < si - 1 implies #[trigger] scope_views(
                    self.scopes@.subrange(0, si - 1),
                )[i] == pre[i] by {
                    lemma_scope_views_index(self.scopes@.subrange(0, si as int), i);
                    lemma_scope_views_index(self.scopes@.subrange(0, si - 1), i);
                    assert(self.scopes@.subrange(0, si as int)[i] == self.scopes@.subrange(
                        0,
                        si - 1,
                    )[i]);
                }
                assert(pre.subrange(0, pre.len() - 1) =~= scope_views(
                    self.scopes@.subrange(0, si - 1),
                ));
            }
            si = si - 1;
        }
        proof {
            assert(self.scopes@.subrange(0, 0) =~= Seq::<Scope<V>>::empty());
        }
        None
    }
}

impl<V> Default for Scopes<V> {
    /// A table holding one empty global scope.
    fn default() -> (r: Self)
        ensures
            r@ =~= seq![Map::<Seq<char>, V>::empty()],
    {
        Scopes::new()
    }
}

} // verus!
