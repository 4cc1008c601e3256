//! Dense maps keyed by the compiler's numeric identifiers.
//!
//! Node and definition identifiers are allocated densely from zero, so a
//! vector of optional slots indexed by the identifier gives a total map
//! whose contents are easy to state: slot `k` holds the value bound to
//! identifier `k`, if any.

use vstd::prelude::*;
use crate::ids::{DefId, NodeId};

verus! {

/// A partial map from `u32` keys to values, stored as dense slots.
#[derive(Debug)]
pub struct IdMap<V> {
    slots: Vec<Option<V>>,
}

impl<V> IdMap<V> {
    /// The value bound to key `k`, if any.
    pub closed spec fn lookup(self, k: int) -> Option<V> {
        if 0 <= k < self.slots@.len() { self.slots@[k] } else { None }
    }

    /// One past the largest slot allocated; every bound key is below it.
    pub closed spec fn bound(self) -> nat {
        self.slots@.len()
    }

    pub fn new() -> (r: Self)
        ensures
            forall|k: int| r.lookup(k) is None,
            r.bound() == 0,
    {
        IdMap { slots: Vec::new() }
    }

    pub fn get(&self, k: u32) -> (r: Option<&V>)
        ensures
            r == match self.lookup(k as int) { Some(v) => Some(&v), None => None },
    {
        if (k as usize) < self.slots.len() {
            match &self.slots[k as usize] {
                Some(v) => Some(v),
                None => None,
            }
        } else {
            None
        }
    }

    pub fn contains_key(&self, k: u32) -> (r: bool)
        ensures
            r == self.lookup(k as int) is Some,
    {
        if (k as usize) < self.slots.len() {
            self.slots[k as usize].is_some()
        } else {
            false
        }
    }

    /// Binds `k` to `v`, replacing any previous binding.
    pub fn insert(&mut self, k: u32, v: V)
        ensures
            final(self).lookup(k as int) == Some(v),
            forall|j: int| j != k ==> final(self).lookup(j) == old(self).lookup(j),
            final(self).bound() == if k as nat >= old(self).bound() { k as nat + 1 } else { old(self).bound() },
    {
        let ghost old_slots = self.slots@;
        while self.slots.len() <= k as usize
            invariant
                self.slots@.len() >= old_slots.len(),
                self.slots@.len() <= if old_slots.len() > k as nat + 1 { old_slots.len() } else { k as nat + 1 },
                forall|j: int| 0 <= j < old_slots.len() ==> self.slots@[j] == old_slots[j],
                forall|j: int| old_slots.len() <= j < self.slots@.len() ==> self.slots@[j] is None,
            decreases k as nat + 1 - self.slots@.len(),
        {
            self.slots.push(None);
        }
        self.slots.set(k as usize, Some(v));
    }

    /// Number of bound keys (keys are `u32`, so only slots in that range count).
    pub fn len(&self) -> (r: usize)
        ensures
            r == 0 <==> forall|k: int| 0 <= k <= u32::MAX ==> self.lookup(k) is None,
    {
        let mut n: usize = 0;
        let mut i: usize = 0;
        let len = self.slots.len();
        let bound: usize = if len > 0xFFFF_FFFFusize { 0xFFFF_FFFFusize } else { len };
        let mut extra: usize = 0;
        if len > 0xFFFF_FFFFusize {
            if self.slots[0xFFFF_FFFFusize].is_some() {
                extra = 1;
            }
        }
        while i < bound
            invariant
                len == self.slots@.len(),
                bound <= len,
                bound <= 0xFFFF_FFFF,
                i <= bound,
                n <= i,
                n == 0 <==> forall|k: int| 0 <= k < i ==> self.slots@[k] is None,
            decreases bound - i,
        {
            if self.slots[i].is_some() {
                n = n + 1;
            }
            i = i + 1;
        }
        let r = n + extra;
        proof {
            if r == 0 {
                assert forall|k: int| 0 <= k <= u32::MAX implies self.lookup(k) is None by {
                    if 0 <= k < self.slots@.len() {
                        if k < bound {
                            assert(self.slots@[k] is None);
                        }
                    }
                }
            } else if n != 0 {
                let w = choose|k: int| 0 <= k < i && !(self.slots@[k] is None);
                assert(!(self.lookup(w) is None));
            } else {
                assert(!(self.lookup(0xFFFF_FFFF) is None));
            }
        }
        r
    }

    pub fn is_empty(&self) -> (r: bool)
        ensures
            r <==> forall|k: int| 0 <= k <= u32::MAX ==> self.lookup(k) is None,
    {
        self.len() == 0
    }

    /// The bound keys in increasing order.
    pub fn keys(&self) -> (r: Vec<u32>)
        ensures
            forall|i: int| 0 <= i < r@.len() ==> self.lookup(#[trigger] r@[i] as int) is Some,
            forall|k: int| k <= 0xFFFF_FFFF && self.lookup(k) is Some ==> exists|i: int| 0 <= i < r@.len() && r@[i] == k,
            forall|i: int, j: int| 0 <= i < j < r@.len() ==> r@[i] < r@[j],
    {
        let mut out: Vec<u32> = Vec::new();
        let mut i: usize = 0;
        let n = self.slots.len();
        while i < n
            invariant
                n == self.slots@.len(),
                i <= n,
                forall|a: int| 0 <= a < out@.len() ==> self.lookup(#[trigger] out@[a] as int) is Some && out@[a] < i,
                forall|k: int| 0 <= k < i && k <= 0xFFFF_FFFF && self.lookup(k) is Some ==> exists|a: int| 0 <= a < out@.len() && out@[a] == k,
                forall|a: int, b: int| 0 <= a < b < out@.len() ==> out@[a] < out@[b],
            decreases n - i,
        {
            let ghost prev = out@;
            if i <= 0xFFFF_FFFFusize && self.slots[i].is_some() {
                out.push(i as u32);
            }
            proof {
                assert forall|k: int| 0 <= k < i + 1 && k <= 0xFFFF_FFFF && self.lookup(k) is Some implies exists|a: int| 0 <= a < out@.len() && out@[a] == k by {
                    if k == i {
                        assert(out@[out@.len() - 1] == k);
                    } else {
                        let a = choose|a: int| 0 <= a < prev.len() && prev[a] == k;
                        assert(out@[a] == k);
                    }
                }
            }
            i = i + 1;
        }
        out
    }
}


/// A partial map keyed by NodeId.
#[derive(Debug)]
pub struct NodeMap<V> {
    inner: IdMap<V>,
}

impl<V> NodeMap<V> {
    /// The value bound to `k`, if any.
    pub closed spec fn at(self, k: NodeId) -> Option<V> {
        self.inner.lookup(k.0 as int)
    }

    pub fn new() -> (r: Self)
        ensures
            forall|k: NodeId| r.at(k) is None,
    {
        NodeMap { inner: IdMap::new() }
    }

    pub fn get(&self, k: &NodeId) -> (r: Option<&V>)
        ensures
            r == match self.at(*k) { Some(v) => Some(&v), None => None },
    {
        self.inner.get(k.0)
    }

    pub fn contains_key(&self, k: &NodeId) -> (r: bool)
        ensures
            r == self.at(*k) is Some,
    {
        self.inner.contains_key(k.0)
    }

    /// Binds `k` to `v`, replacing any previous binding.
    pub fn insert(&mut self, k: NodeId, v: V)
        ensures
            final(self).at(k) == Some(v),
            forall|j: NodeId| j != k ==> final(self).at(j) == old(self).at(j),
    {
        self.inner.insert(k.0, v);
        assert forall|j: NodeId| j != k implies self.at(j) == old(self).at(j) by {
            assert(j.0 != k.0);
        }
    }

    /// Number of bound keys.
    pub fn len(&self) -> (r: usize)
        ensures
            r == 0 <==> forall|k: NodeId| self.at(k) is None,
    {
        let n = self.inner.len();
        proof {
            if n != 0 {
                let w = choose|k: int| 0 <= k <= u32::MAX && !(self.inner.lookup(k) is None);
                assert(!(self.at(NodeId(w as u32)) is None));
            }
        }
        n
    }

    pub fn is_empty(&self) -> (r: bool)
        ensures
            r <==> forall|k: NodeId| self.at(k) is None,
    {
        self.len() == 0
    }

    /// The bound keys in increasing order.
    pub fn keys(&self) -> (r: Vec<NodeId>)
        ensures
            forall|i: int| 0 <= i < r@.len() ==> self.at(#[trigger] r@[i]) is Some,
            forall|k: NodeId| self.at(k) is Some ==> exists|i: int| 0 <= i < r@.len() && r@[i] == k,
            forall|i: int, j: int| 0 <= i < j < r@.len() ==> r@[i].0 < r@[j].0,
    {
        let raw = self.inner.keys();
        let mut out: Vec<NodeId> = Vec::new();
        let mut i: usize = 0;
        while i < raw.len()
            invariant
                i <= raw@.len(),
                out@.len() == i,
                forall|a: int| 0 <= a < i ==> (#[trigger] out@[a]).0 == raw@[a],
                forall|a: int| 0 <= a < raw@.len() ==> self.inner.lookup(#[trigger] raw@[a] as int) is Some,
            decreases raw@.len() - i,
        {
            out.push(NodeId(raw[i]));
            i = i + 1;
        }
        proof {
            assert forall|k: NodeId| self.at(k) is Some implies exists|i: int| 0 <= i < out@.len() && out@[i] == k by {
                let a = choose|a: int| 0 <= a < raw@.len() && raw@[a] == k.0;
                assert(out@[a].0 == k.0);
            }
        }
        out
    }

    /// The bound (key, value) pairs in increasing key order.
    pub fn entries(&self) -> (r: Vec<(NodeId, &V)>)
        ensures
            forall|i: int| 0 <= i < r@.len() ==> self.at(#[trigger] r@[i].0) == Some(*r@[i].1),
    {
        let ks = self.keys();
        let mut out: Vec<(NodeId, &V)> = Vec::new();
        let mut i: usize = 0;
        while i < ks.len()
            invariant
                i <= ks@.len(),
                out@.len() <= i,
                forall|a: int| 0 <= a < out@.len() ==> self.at(#[trigger] out@[a].0) == Some(*out@[a].1),
            decreases ks@.len() - i,
        {
            if let Some(v) = self.get(&ks[i]) {
                out.push((ks[i], v));
            }
            i = i + 1;
        }
        out
    }
}

/// A partial map keyed by DefId.
#[derive(Debug)]
pub struct DefMap<V> {
    inner: IdMap<V>,
}

impl<V> DefMap<V> {
    /// The value bound to `k`, if any.
    pub closed spec fn at(self, k: DefId) -> Option<V> {
        self.inner.lookup(k.0 as int)
    }

    pub fn new() -> (r: Self)
        ensures
            forall|k: DefId| r.at(k) is None,
    {
        DefMap { inner: IdMap::new() }
    }

    pub fn get(&self, k: &DefId) -> (r: Option<&V>)
        ensures
            r == match self.at(*k) { Some(v) => Some(&v), None => None },
    {
        self.inner.get(k.0)
    }

    pub fn contains_key(&self, k: &DefId) -> (r: bool)
        ensures
            r == self.at(*k) is Some,
    {
        self.inner.contains_key(k.0)
    }

    /// Binds `k` to `v`, replacing any previous binding.
    pub fn insert(&mut self, k: DefId, v: V)
        ensures
            final(self).at(k) == Some(v),
            forall|j: DefId| j != k ==> final(self).at(j) == old(self).at(j),
    {
        self.inner.insert(k.0, v);
        assert forall|j: DefId| j != k implies self.at(j) == old(self).at(j) by {
            assert(j.0 != k.0);
        }
    }

    /// Number of bound keys.
    pub fn len(&self) -> (r: usize)
        ensures
            r == 0 <==> forall|k: DefId| self.at(k) is None,
    {
        let n = self.inner.len();
        proof {
            if n != 0 {
                let w = choose|k: int| 0 <= k <= u32::MAX && !(self.inner.lookup(k) is None);
                assert(!(self.at(DefId(w as u32)) is None));
            }
        }
        n
    }

    pub fn is_empty(&self) -> (r: bool)
        ensures
            r <==> forall|k: DefId| self.at(k) is None,
    {
        self.len() == 0
    }

    /// The bound keys in increasing order.
    pub fn keys(&self) -> (r: Vec<DefId>)
        ensures
            forall|i: int| 0 <= i < r@.len() ==> self.at(#[trigger] r@[i]) is Some,
            forall|k: DefId| self.at(k) is Some ==> exists|i: int| 0 <= i < r@.len() && r@[i] == k,
            forall|i: int, j: int| 0 <= i < j < r@.len() ==> r@[i].0 < r@[j].0,
    {
        let raw = self.inner.keys();
        let mut out: Vec<DefId> = Vec::new();
        let mut i: usize = 0;
        while i < raw.len()
            invariant
                i <= raw@.len(),
                out@.len() == i,
                forall|a: int| 0 <= a < i ==> (#[trigger] out@[a]).0 == raw@[a],
                forall|a: int| 0 <= a < raw@.len() ==> self.inner.lookup(#[trigger] raw@[a] as int) is Some,
            decreases raw@.len() - i,
        {
            out.push(DefId(raw[i]));
            i = i + 1;
        }
        proof {
            assert forall|k: DefId| self.at(k) is Some implies exists|i: int| 0 <= i < out@.len() && out@[i] == k by {
                let a = choose|a: int| 0 <= a < raw@.len() && raw@[a] == k.0;
                assert(out@[a].0 == k.0);
            }
        }
        out
    }

    /// The bound (key, value) pairs in increasing key order.
    pub fn entries(&self) -> (r: Vec<(DefId, &V)>)
        ensures
            forall|i: int| 0 <= i < r@.len() ==> self.at(#[trigger] r@[i].0) == Some(*r@[i].1),
    {
        let ks = self.keys();
        let mut out: Vec<(DefId, &V)> = Vec::new();
        let mut i: usize = 0;
        while i < ks.len()
            invariant
                i <= ks@.len(),
                out@.len() <= i,
                forall|a: int| 0 <= a < out@.len() ==> self.at(#[trigger] out@[a].0) == Some(*out@[a].1),
            decreases ks@.len() - i,
        {
            if let Some(v) = self.get(&ks[i]) {
                out.push((ks[i], v));
            }
            i = i + 1;
        }
        out
    }
}

} // verus!
