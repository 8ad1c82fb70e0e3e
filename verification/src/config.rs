//! Reading values for parsers from a configuration source
//!
//! [`Cursors`] keeps, for every path of names, how many values were read so far, so that
//! repeated reads of the same name get consecutive positions and entering a section again
//! restarts the positions of the names under it.

use crate::text::str_chars;
use std::collections::BTreeMap;
use vstd::prelude::*;

verus! {

/// A source of configuration values
///
/// `path` lists the sections entered so far with their positions, `name` is the value
/// asked for and `num` is how many times it was asked for before in the same section.
pub trait Config {
    /// What a source promises of the answer `r` to a read; nothing, unless it says more.
    open spec fn answers(&self, path: Seq<(&'static str, usize)>, name: Seq<char>, num: usize, r: Option<String>) -> bool {
        true
    }

    fn get(&self, path: &[(&'static str, usize)], name: &'static str, num: usize) -> (r: Option<String>)
        ensures
            self.answers(path@, name@, num, r),
    ;
}

/// Looks up `key` in a map.
///
/// Trusted: calls `BTreeMap::get` and clones the value found; the contract claims what
/// std documents: the value stored under an equal key, if any.
#[verifier::external_body]
fn btree_lookup(map: &BTreeMap<String, String>, key: &str) -> (r: Option<String>)
    ensures
        r is Some == map.deep_view().dom().contains(key@),
        r matches Some(v) ==> v@ == map.deep_view()[key@],
{
    map.get(key).cloned()
}

impl Config for BTreeMap<String, String> {
    /// The value stored under `name`, and only for the first read at the top level.
    open spec fn answers(&self, path: Seq<(&'static str, usize)>, name: Seq<char>, num: usize, r: Option<String>) -> bool {
        &&& r is Some == (path.len() == 0 && num == 0 && self.deep_view().dom().contains(name))
        &&& r matches Some(v) ==> v@ == self.deep_view()[name]
    }

    fn get(&self, path: &[(&'static str, usize)], name: &'static str, num: usize) -> (r: Option<String>) {
        if path.len() == 0 && num == 0 {
            btree_lookup(self, name)
        } else {
            None
        }
    }
}

/// The names along a path.
pub open spec fn path_names(path: Seq<(&'static str, usize)>) -> Seq<Seq<char>> {
    path.map_values(|p: (&'static str, usize)| p.0@)
}

/// Leaf positions for paths of names; a path is identified by the names along it.
///
/// The paths are kept as a vector of keyed nodes rather than a tree of maps keyed by name:
/// vstd's `BTreeMap` contracts hold only for keys whose ordering it specifies
/// (`key_obeys_cmp_spec`), and it specifies none for string keys.
pub struct Trie {
    nodes: Vec<(Vec<Vec<char>>, usize)>,
}

/// The names of a stored key.
pub open spec fn key_view(k: Vec<Vec<char>>) -> Seq<Seq<char>> {
    k@.map_values(|v: Vec<char>| v@)
}

impl Trie {
    /// Keys are distinct, and so are leaves.
    pub closed spec fn wf(&self) -> bool {
        forall|i: int, j: int|
            0 <= i < self.nodes@.len() && 0 <= j < self.nodes@.len() && i != j ==> key_view(
                self.nodes@[i].0,
            ) != key_view(self.nodes@[j].0) && self.nodes@[i].1 != self.nodes@[j].1
    }

    /// Leaf position of a path, if it has one.
    pub closed spec fn leaf(&self, k: Seq<Seq<char>>) -> Option<usize> {
        if exists|i: int| 0 <= i < self.nodes@.len() && key_view(self.nodes@[i].0) == k {
            let i = choose|i: int| 0 <= i < self.nodes@.len() && key_view(self.nodes@[i].0) == k;
            Some(self.nodes@[i].1)
        } else {
            None
        }
    }

    /// An empty trie
    pub fn new() -> (t: Trie)
        ensures
            t.wf(),
            forall|k: Seq<Seq<char>>| #[trigger] t.leaf(k) is None,
    {
        Trie { nodes: Vec::new() }
    }

    proof fn lemma_leaf_at(&self, i: int)
        requires
            self.wf(),
            0 <= i < self.nodes@.len(),
        ensures
            self.leaf(key_view(self.nodes@[i].0)) == Some(self.nodes@[i].1),
    {
        let k = key_view(self.nodes@[i].0);
        let j = choose|j: int| 0 <= j < self.nodes@.len() && key_view(self.nodes@[j].0) == k;
        assert(i == j);
    }

    fn key_eq(a: &Vec<Vec<char>>, b: &Vec<Vec<char>>) -> (r: bool)
        ensures
            r == (key_view(*a) == key_view(*b)),
    {
        if a.len() != b.len() {
            assert(key_view(*a).len() != key_view(*b).len());
            return false;
        }
        let mut i: usize = 0;
        while i < a.len()
            invariant
                i <= a@.len(),
                a@.len() == b@.len(),
                forall|j: int| 0 <= j < i ==> a@[j]@ == b@[j]@,
            decreases a.len() - i,
        {
            if !crate::text::chars_eq(&a[i], &b[i]) {
                assert(key_view(*a)[i as int] != key_view(*b)[i as int]);
                return false;
            }
            i = i + 1;
        }
        assert(key_view(*a) =~= key_view(*b));
        true
    }

    /// `child` extends `parent` by exactly one name.
    fn is_child(parent: &Vec<Vec<char>>, child: &Vec<Vec<char>>) -> (r: bool)
        ensures
            r == (key_view(*child).len() == key_view(*parent).len() + 1 && key_view(*child).take(
                key_view(*parent).len() as int,
            ) == key_view(*parent)),
    {
        if child.len() == 0 || child.len() - 1 != parent.len() {
            return false;
        }
        let mut i: usize = 0;
        while i < parent.len()
            invariant
                i <= parent@.len(),
                child@.len() == parent@.len() + 1,
                forall|j: int| 0 <= j < i ==> child@[j]@ == parent@[j]@,
            decreases parent.len() - i,
        {
            if !crate::text::chars_eq(&parent[i], &child[i]) {
                assert(key_view(*child).take(parent@.len() as int)[i as int] != key_view(
                    *parent,
                )[i as int]);
                return false;
            }
            i = i + 1;
        }
        assert(key_view(*child).take(parent@.len() as int) =~= key_view(*parent));
        true
    }

    /// The names of `path` followed by `name`.
    fn path_key(path: &[(&'static str, usize)], name: &'static str) -> (key: Vec<Vec<char>>)
        ensures
            key_view(key) == path_names(path@).push(name@),
    {
        let mut key: Vec<Vec<char>> = Vec::new();
        let mut i: usize = 0;
        while i < path.len()
            invariant
                i <= path@.len(),
                key_view(key) == path_names(path@).take(i as int),
            decreases path.len() - i,
        {
            let (p, _) = path[i];
            let ghost before = key;
            let v = str_chars(p);
            key.push(v);
            assert(key_view(key) =~= key_view(before).push(p@));
            assert(path_names(path@)[i as int] == p@);
            i = i + 1;
            assert(key_view(key) =~= path_names(path@).take(i as int));
        }
        let ghost before = key;
        let v = str_chars(name);
        key.push(v);
        assert(key_view(key) =~= key_view(before).push(name@));
        assert(path_names(path@).take(path@.len() as int) =~= path_names(path@));
        key
    }

    /// A copy of `key`.
    fn copy_key(key: &Vec<Vec<char>>) -> (r: Vec<Vec<char>>)
        ensures
            key_view(r) == key_view(*key),
    {
        let mut r: Vec<Vec<char>> = Vec::new();
        let mut i: usize = 0;
        while i < key.len()
            invariant
                i <= key@.len(),
                key_view(r) == key_view(*key).take(i as int),
            decreases key.len() - i,
        {
            let ghost before = r;
            let v = key[i].clone();
            assert(v@ =~= key@[i as int]@);
            r.push(v);
            assert(key_view(r) =~= key_view(before).push(key@[i as int]@));
            i = i + 1;
            assert(key_view(r) =~= key_view(*key).take(i as int));
        }
        assert(key_view(*key).take(key@.len() as int) =~= key_view(*key));
        r
    }

    /// Index of the node stored under `key`, if any.
    fn find(&self, key: &Vec<Vec<char>>) -> (r: Option<usize>)
        ensures
            r matches Some(f) ==> f < self.nodes@.len() && key_view(self.nodes@[f as int].0)
                == key_view(*key),
            r is None ==> forall|m: int|
                0 <= m < self.nodes@.len() ==> key_view(self.nodes@[m].0) != key_view(*key),
    {
        let mut j: usize = 0;
        while j < self.nodes.len()
            invariant
                j <= self.nodes@.len(),
                forall|m: int| 0 <= m < j ==> key_view(self.nodes@[m].0) != key_view(*key),
            decreases self.nodes.len() - j,
        {
            if Self::key_eq(&self.nodes[j].0, key) {
                return Some(j);
            }
            j = j + 1;
        }
        None
    }

    /// Stores a new node; `key` had none and `leaf` is used by no other node.
    fn add(&mut self, key: Vec<Vec<char>>, leaf: usize)
        requires
            old(self).wf(),
            old(self).leaf(key_view(key)) is None,
            forall|k: Seq<Seq<char>>| #[trigger] old(self).leaf(k) matches Some(l) ==> l != leaf,
        ensures
            final(self).wf(),
            final(self).leaf(key_view(key)) == Some(leaf),
            forall|k: Seq<Seq<char>>|
                k != key_view(key) ==> #[trigger] final(self).leaf(k) == old(self).leaf(k),
            final(self).nodes@.len() == old(self).nodes@.len() + 1,
    {
        let ghost before = *self;
        let ghost gkey = key_view(key);
        self.nodes.push((key, leaf));
        proof {
            let n = before.nodes@.len() as int;
            assert(key_view(self.nodes@[n].0) == gkey);
            assert forall|a: int, b: int|
                0 <= a < self.nodes@.len() && 0 <= b < self.nodes@.len() && a != b implies key_view(
                self.nodes@[a].0,
            ) != key_view(self.nodes@[b].0) && self.nodes@[a].1 != self.nodes@[b].1 by {
                if a == n {
                    before.lemma_leaf_at(b);
                } else if b == n {
                    before.lemma_leaf_at(a);
                } else {
                    assert(self.nodes@[a] == before.nodes@[a]);
                    assert(self.nodes@[b] == before.nodes@[b]);
                }
            }
            assert forall|k: Seq<Seq<char>>| k != gkey implies #[trigger] self.leaf(k)
                == before.leaf(k) by {
                if exists|m: int| 0 <= m < self.nodes@.len() && key_view(self.nodes@[m].0) == k {
                    let m = choose|m: int|
                        0 <= m < self.nodes@.len() && key_view(self.nodes@[m].0) == k;
                    assert(m != n);
                    assert(self.nodes@[m] == before.nodes@[m]);
                    before.lemma_leaf_at(m);
                    self.lemma_leaf_at(m);
                } else {
                    if exists|m: int| 0 <= m < before.nodes@.len() && key_view(before.nodes@[m].0) == k {
                        let m = choose|m: int|
                            0 <= m < before.nodes@.len() && key_view(before.nodes@[m].0) == k;
                        assert(self.nodes@[m] == before.nodes@[m]);
                    }
                }
            }
            self.lemma_leaf_at(n);
        }
    }

    /// Leaves of the paths one name below `key`.
    fn children(&self, key: &Vec<Vec<char>>) -> (r: Vec<usize>)
        requires
            self.wf(),
        ensures
            forall|j: usize| #[trigger] r@.contains(j) <==> exists|x: Seq<char>|
                #[trigger] self.leaf(key_view(*key).push(x)) == Some(j),
    {
        let ghost gkey = key_view(*key);
        let mut children: Vec<usize> = Vec::new();
        let mut m: usize = 0;
        while m < self.nodes.len()
            invariant
                m <= self.nodes@.len(),
                gkey == key_view(*key),
                forall|jj: usize| #[trigger] children@.contains(jj) <==> exists|t: int|
                    0 <= t < m && #[trigger] self.nodes@[t].1 == jj && self.is_child_at(gkey, t),
            decreases self.nodes.len() - m,
        {
            let ghost before = children@;
            let hit = Self::is_child(key, &self.nodes[m].0);
            if hit {
                children.push(self.nodes[m].1);
            }
            proof {
                assert(hit == self.is_child_at(gkey, m as int));
                assert(hit ==> children@ == before.push(self.nodes@[m as int].1));
                assert(!hit ==> children@ == before);
                assert forall|jj: usize| #[trigger] children@.contains(jj) <==> exists|t: int|
                    0 <= t < m + 1 && #[trigger] self.nodes@[t].1 == jj && self.is_child_at(gkey, t) by {
                    if children@.contains(jj) {
                        if before.contains(jj) {
                        } else {
                            let w = choose|w: int| 0 <= w < children@.len() && children@[w] == jj;
                            assert(hit);
                            assert(w == before.len());
                            assert(self.nodes@[m as int].1 == jj);
                        }
                    }
                    if exists|t: int|
                        0 <= t < m + 1 && #[trigger] self.nodes@[t].1 == jj && self.is_child_at(gkey, t) {
                        let t = choose|t: int|
                            0 <= t < m + 1 && #[trigger] self.nodes@[t].1 == jj && self.is_child_at(gkey, t);
                        if t < m {
                            assert(before.contains(jj));
                            let w = choose|w: int| 0 <= w < before.len() && before[w] == jj;
                            assert(children@[w] == jj);
                        } else {
                            assert(children@[children@.len() - 1] == jj);
                        }
                    }
                }
            }
            m = m + 1;
        }
        proof {
            assert forall|jj: usize| #[trigger] children@.contains(jj) <==> exists|x: Seq<char>|
                #[trigger] self.leaf(gkey.push(x)) == Some(jj) by {
                if children@.contains(jj) {
                    let t = choose|t: int|
                        0 <= t < self.nodes@.len() && #[trigger] self.nodes@[t].1 == jj && self.is_child_at(gkey, t);
                    let x = key_view(self.nodes@[t].0).last();
                    assert(gkey.push(x) =~= key_view(self.nodes@[t].0));
                    self.lemma_leaf_at(t);
                    assert(self.leaf(gkey.push(x)) == Some(jj));
                }
                if exists|x: Seq<char>| #[trigger] self.leaf(gkey.push(x)) == Some(jj) {
                    let x = choose|x: Seq<char>| #[trigger] self.leaf(gkey.push(x)) == Some(jj);
                    let t = choose|t: int|
                        0 <= t < self.nodes@.len() && key_view(self.nodes@[t].0) == gkey.push(x);
                    assert(key_view(self.nodes@[t].0).take(gkey.len() as int) =~= gkey);
                    assert(self.is_child_at(gkey, t));
                    assert(self.nodes@[t].1 == jj);
                }
            }
        }
        children
    }

    /// The node at `t` lies one name below `key`.
    spec fn is_child_at(&self, key: Seq<Seq<char>>, t: int) -> bool {
        &&& key_view(self.nodes@[t].0).len() == key.len() + 1
        &&& key_view(self.nodes@[t].0).take(key.len() as int) == key
    }

    /// Leaf of the path `path` followed by `name`, created as `fallback` when missing, and
    /// the leaves of the paths one name below it
    pub fn enter(&mut self, path: &[(&'static str, usize)], name: &'static str, fallback: usize) -> (r: (
        usize,
        Vec<usize>,
    ))
        requires
            old(self).wf(),
            forall|k: Seq<Seq<char>>| #[trigger] old(self).leaf(k) matches Some(l) ==> l != fallback,
        ensures
            final(self).wf(),
            ({
                let key = path_names(path@).push(name@);
                &&& r.0 == (match old(self).leaf(key) {
                    Some(l) => l,
                    None => fallback,
                })
                &&& final(self).leaf(key) == Some(r.0)
                &&& forall|k: Seq<Seq<char>>| k != key ==> #[trigger] final(self).leaf(k) == old(self).leaf(k)
                &&& forall|j: usize| #[trigger] r.1@.contains(j) <==> exists|x: Seq<char>|
                    #[trigger] final(self).leaf(key.push(x)) == Some(j)
            }),
    {
        let key = Self::path_key(path, name);
        let ghost gkey = key_view(key);
        let leaf = match self.find(&key) {
            Some(f) => {
                proof {
                    self.lemma_leaf_at(f as int);
                }
                self.nodes[f].1
            },
            None => {
                assert(self.leaf(gkey) is None);
                let k2 = Self::copy_key(&key);
                self.add(k2, fallback);
                fallback
            },
        };
        let children = self.children(&key);
        (leaf, children)
    }
}

/// Read positions for every path of names
pub struct Cursors {
    tree: Trie,
    items: Vec<usize>,
}

impl Cursors {
    /// Leaves are valid positions; the trie is consistent.
    pub closed spec fn wf(&self) -> bool {
        &&& self.tree.wf()
        &&& forall|k: Seq<Seq<char>>| #[trigger] self.tree.leaf(k) matches Some(l) ==> l
            < self.items@.len()
    }

    /// Position counter slot of a path, if the path was read or entered before.
    pub closed spec fn slot(&self, k: Seq<Seq<char>>) -> Option<usize> {
        self.tree.leaf(k)
    }

    /// Counter values per slot.
    pub closed spec fn counts(&self) -> Seq<usize> {
        self.items@
    }

    /// No positions read yet
    pub fn new() -> (c: Cursors)
        ensures
            c.wf(),
            c.counts() == Seq::<usize>::empty(),
            forall|k: Seq<Seq<char>>| #[trigger] c.slot(k) is None,
    {
        Cursors { tree: Trie::new(), items: Vec::new() }
    }

    fn bump(&mut self, pos: usize) -> (r: usize)
        requires
            pos <= old(self).items@.len(),
            pos < old(self).items@.len() ==> old(self).items@[pos as int] < usize::MAX,
        ensures
            final(self).tree == old(self).tree,
            pos < old(self).items@.len() ==> r == old(self).items@[pos as int] && final(self).items@
                == old(self).items@.update(pos as int, (r + 1) as usize),
            pos == old(self).items@.len() ==> r == 0 && final(self).items@ == old(self).items@.push(1),
    {
        if pos == self.items.len() {
            self.items.push(0);
        }
        let res = self.items[pos];
        self.items.set(pos, res + 1);
        res
    }

    /// Position of the next read of `name` under `path`; reads of the same name count up.
    pub fn get(&mut self, path: &[(&'static str, usize)], name: &'static str) -> (r: usize)
        requires
            old(self).wf(),
            old(self).slot(path_names(path@).push(name@)) matches Some(l) ==> old(self).counts()[l as int]
                < usize::MAX,
        ensures
            final(self).wf(),
            ({
                let key = path_names(path@).push(name@);
                &&& forall|k: Seq<Seq<char>>| k != key ==> #[trigger] final(self).slot(k) == old(self).slot(k)
                &&& match old(self).slot(key) {
                    Some(l) => {
                        &&& r == old(self).counts()[l as int]
                        &&& final(self).slot(key) == Some(l)
                        &&& final(self).counts() == old(self).counts().update(l as int, (r + 1) as usize)
                    },
                    None => {
                        &&& r == 0
                        &&& final(self).slot(key) == Some(old(self).counts().len() as usize)
                        &&& final(self).counts() == old(self).counts().push(1)
                    },
                }
            }),
    {
        let n = self.items.len();
        let (pos, _) = self.tree.enter(path, name, n);
        let r = self.bump(pos);
        r
    }

    /// Counter slot `i` belongs to a path one name below `key`.
    pub open spec fn below(&self, key: Seq<Seq<char>>, i: int) -> bool {
        exists|x: Seq<char>| #[trigger] self.slot(key.push(x)) == Some(i as usize)
    }

    /// Entering the section `name` under `path`: positions of the names directly below it
    /// restart from 0, and the section's own position is returned.
    pub fn enter(&mut self, path: &[(&'static str, usize)], name: &'static str) -> (r: usize)
        requires
            old(self).wf(),
            old(self).slot(path_names(path@).push(name@)) matches Some(l) ==> old(self).counts()[l as int]
                < usize::MAX,
        ensures
            final(self).wf(),
            ({
                let key = path_names(path@).push(name@);
                &&& forall|k: Seq<Seq<char>>| k != key ==> #[trigger] final(self).slot(k) == old(self).slot(k)
                &&& match old(self).slot(key) {
                    Some(l) => {
                        &&& r == old(self).counts()[l as int]
                        &&& final(self).slot(key) == Some(l)
                        &&& final(self).counts().len() == old(self).counts().len()
                        &&& final(self).counts()[l as int] == r + 1
                        &&& forall|i: int|
                            0 <= i < old(self).counts().len() && i != l ==> #[trigger] final(self).counts()[i]
                                == if old(self).below(key, i) {
                                0
                            } else {
                                old(self).counts()[i]
                            }
                    },
                    None => {
                        &&& r == 0
                        &&& final(self).slot(key) == Some(old(self).counts().len() as usize)
                        &&& final(self).counts().len() == old(self).counts().len() + 1
                        &&& final(self).counts().last() == 1
                        &&& forall|i: int|
                            0 <= i < old(self).counts().len() ==> #[trigger] final(self).counts()[i]
                                == if old(self).below(key, i) {
                                0
                            } else {
                                old(self).counts()[i]
                            }
                    },
                }
            }),
    {
        let n = self.items.len();
        let ghost key = path_names(path@).push(name@);
        let ghost old_self = *self;
        let (pos, children) = self.tree.enter(path, name, n);
        let ghost new_tree = self.tree;
        proof {
            assert forall|t: int| 0 <= t < n implies (children@.contains(t as usize) <==> old_self.below(
                key,
                t,
            )) by {
                if children@.contains(t as usize) {
                    let x = choose|x: Seq<char>| #[trigger] new_tree.leaf(key.push(x)) == Some(
                        t as usize,
                    );
                    assert(key.push(x).len() != key.len());
                    assert(old_self.tree.leaf(key.push(x)) == Some(t as usize));
                    assert(old_self.slot(key.push(x)) == Some(t as usize));
                }
                if old_self.below(key, t) {
                    let x = choose|x: Seq<char>| #[trigger] old_self.slot(key.push(x)) == Some(
                        t as usize,
                    );
                    assert(key.push(x).len() != key.len());
                    assert(new_tree.leaf(key.push(x)) == Some(t as usize));
                }
            }
        }
        let mut i: usize = 0;
        while i < children.len()
            invariant
                self.tree == new_tree,
                self.items@.len() == n,
                n == old_self.items@.len(),
                i <= children@.len(),
                forall|t: int|
                    0 <= t < n ==> #[trigger] self.items@[t] == if exists|c: int|
                        0 <= c < i && children@[c] == t {
                        0
                    } else {
                        old_self.items@[t]
                    },
            decreases children.len() - i,
        {
            let c = children[i];
            if c < self.items.len() {
                self.items.set(c, 0);
            }
            i = i + 1;
            assert forall|t: int| 0 <= t < n implies #[trigger] self.items@[t] == if exists|cc: int|
                0 <= cc < i && children@[cc] == t {
                0
            } else {
                old_self.items@[t]
            } by {
                if t == c {
                    assert(children@[i - 1] == t);
                } else {
                    if exists|cc: int| 0 <= cc < i && children@[cc] == t {
                        let cc = choose|cc: int| 0 <= cc < i && children@[cc] == t;
                        assert(cc != i - 1);
                    }
                }
            }
        }
        proof {
            assert forall|t: int| 0 <= t < n implies #[trigger] self.items@[t] == if old_self.below(key, t) {
                0
            } else {
                old_self.items@[t]
            } by {
                if exists|cc: int| 0 <= cc < children@.len() && children@[cc] == t {
                    let cc = choose|cc: int| 0 <= cc < children@.len() && children@[cc] == t;
                    assert(children@.contains(t as usize));
                } else {
                    if children@.contains(t as usize) {
                        let cc = choose|cc: int| 0 <= cc < children@.len() && children@[cc] == t as usize;
                    }
                }
            }
            if let Some(l) = old_self.slot(key) {
                assert(!old_self.below(key, l as int)) by {
                    if old_self.below(key, l as int) {
                        let x = choose|x: Seq<char>| #[trigger] old_self.slot(key.push(x)) == Some(l);
                        old_self.tree.lemma_leaf_injective(key, key.push(x));
                        assert(key.push(x).len() != key.len());
                    }
                }
            }
        }
        let r = self.bump(pos);
        proof {
            assert forall|k: Seq<Seq<char>>| #[trigger] self.tree.leaf(k) matches Some(l) ==> l
                < self.items@.len() by {
                if k != key {
                    assert(self.tree.leaf(k) == old_self.tree.leaf(k));
                }
            }
        }
        r
    }
}

impl Default for Cursors {
    fn default() -> (c: Cursors)
        ensures
            c.wf(),
            c.counts() == Seq::<usize>::empty(),
            forall|k: Seq<Seq<char>>| #[trigger] c.slot(k) is None,
    {
        Cursors::new()
    }
}

impl Trie {
    proof fn lemma_leaf_injective(&self, a: Seq<Seq<char>>, b: Seq<Seq<char>>)
        requires
            self.wf(),
            self.leaf(a) is Some,
            self.leaf(a) == self.leaf(b),
        ensures
            a == b,
    {
        let i = choose|i: int| 0 <= i < self.nodes@.len() && key_view(self.nodes@[i].0) == a;
        let j = choose|j: int| 0 <= j < self.nodes@.len() && key_view(self.nodes@[j].0) == b;
        self.lemma_leaf_at(i);
        self.lemma_leaf_at(j);
    }
}

/// Configuration reader: asks `config` for values, keeping track of positions
pub struct ConfigReader<C> {
    config: C,
    cursors: Cursors,
    unconsumed: usize,
    path: Vec<(&'static str, usize)>,
}

impl<C: Config> ConfigReader<C> {
    /// Sections entered so far, with their positions.
    pub closed spec fn path(&self) -> Seq<(&'static str, usize)> {
        self.path@
    }

    /// Read positions.
    pub closed spec fn cursors(&self) -> Cursors {
        self.cursors
    }

    /// Counter of values that can still be read.
    pub closed spec fn remaining(&self) -> usize {
        self.unconsumed
    }

    /// The configuration source.
    pub closed spec fn source(&self) -> C {
        self.config
    }

    /// A reader at the top level of `config`
    pub fn new(config: C) -> (r: Self)
        ensures
            r.path() == Seq::<(&'static str, usize)>::empty(),
            r.cursors().wf(),
            r.cursors().counts() == Seq::<usize>::empty(),
            forall|k: Seq<Seq<char>>| #[trigger] r.cursors().slot(k) is None,
            r.remaining() == 1000000000,
            r.source() == config,
    {
        Self { config, cursors: Cursors::new(), unconsumed: 1000000000, path: Vec::new() }
    }

    /// Enter section `name`, at its next position
    pub fn enter(&mut self, name: &'static str)
        requires
            old(self).cursors().wf(),
            old(self).cursors().slot(path_names(old(self).path()).push(name@)) matches Some(l)
                ==> old(self).cursors().counts()[l as int] < usize::MAX,
        ensures
            final(self).cursors().wf(),
            final(self).remaining() == old(self).remaining(),
            final(self).source() == old(self).source(),
            final(self).path().drop_last() == old(self).path(),
            final(self).path().len() == old(self).path().len() + 1,
            final(self).path().last().0 == name,
            final(self).path().last().1 == (match old(self).cursors().slot(
                path_names(old(self).path()).push(name@),
            ) {
                Some(l) => old(self).cursors().counts()[l as int],
                None => 0,
            }),
    {
        let pos = self.cursors.enter(self.path.as_slice(), name);
        self.path.push((name, pos));
        assert(self.path@.drop_last() =~= old(self).path@);
    }

    /// Leave the innermost section
    pub fn exit(&mut self)
        ensures
            final(self).path() == (if old(self).path().len() > 0 {
                old(self).path().drop_last()
            } else {
                old(self).path()
            }),
            final(self).cursors() == old(self).cursors(),
            final(self).remaining() == old(self).remaining(),
            final(self).source() == old(self).source(),
    {
        self.path.pop();
    }

    /// The next value of `name` in the current section, if the source has it
    pub fn get(&mut self, name: &'static str) -> (r: Option<String>)
        requires
            old(self).cursors().wf(),
            old(self).remaining() > 0,
            old(self).cursors().slot(path_names(old(self).path()).push(name@)) matches Some(l)
                ==> old(self).cursors().counts()[l as int] < usize::MAX,
        ensures
            final(self).cursors().wf(),
            final(self).path() == old(self).path(),
            final(self).source() == old(self).source(),
            final(self).remaining() == if r is Some {
                (old(self).remaining() - 1) as usize
            } else {
                old(self).remaining()
            },
            ({
                let key = path_names(old(self).path()).push(name@);
                let pos: usize = match old(self).cursors().slot(key) {
                    Some(l) => old(self).cursors().counts()[l as int],
                    None => 0,
                };
                &&& old(self).source().answers(old(self).path(), name@, pos, r)
                &&& forall|k: Seq<Seq<char>>| k != key ==> #[trigger] final(self).cursors().slot(k)
                    == old(self).cursors().slot(k)
                &&& match old(self).cursors().slot(key) {
                    Some(l) => {
                        &&& final(self).cursors().slot(key) == Some(l)
                        &&& final(self).cursors().counts() == old(self).cursors().counts().update(
                            l as int,
                            (pos + 1) as usize,
                        )
                    },
                    None => {
                        &&& final(self).cursors().slot(key) == Some(
                            old(self).cursors().counts().len() as usize,
                        )
                        &&& final(self).cursors().counts() == old(self).cursors().counts().push(1)
                    },
                }
            }),
    {
        let pos = self.cursors.get(self.path.as_slice(), name);
        let v = self.config.get(self.path.as_slice(), name, pos);
        match v {
            Some(v) => {
                self.unconsumed = self.unconsumed - 1;
                Some(v)
            },
            None => None,
        }
    }

    /// Counter of values that can still be read
    pub fn unconsumed(&self) -> (n: usize)
        ensures
            n == self.remaining(),
    {
        self.unconsumed
    }
}

} // verus!
