//! Where the values of a template's variables come from.
use std::collections::{BTreeMap, HashMap};
use vstd::prelude::*;

use crate::template::opt_view;

verus! {

/// A source of variable values, consulted once per expression, in ascending order.
pub trait Vars: Sized {
    /// What `var` returns in this state for the `index`-th expression, raw name `name`.
    spec fn answer(&self, index: usize, name: Seq<char>) -> Option<Seq<char>>;

    /// The state once `var` has been asked about the `index`-th expression, raw name `name`.
    spec fn after(&self, index: usize, name: Seq<char>) -> Self;

    /// The value of the `index`-th expression of a template, whose raw name is `name`, or
    /// `None` where it has none.
    fn var(&mut self, index: usize, name: &str) -> (r: Option<String>)
        ensures
            opt_view(r) == old(self).answer(index, name@),
            *final(self) == old(self).after(index, name@),
    ;
}

/// The value stored under the key `name`, if any.
pub open spec fn lookup(m: Map<Seq<char>, Seq<char>>, name: Seq<char>) -> Option<Seq<char>> {
    if m.contains_key(name) {
        Some(m[name])
    } else {
        None
    }
}

/// The value stored under a key whose text is `name`, if any.
pub open spec fn keyed_lookup<K: View<V = Seq<char>>, W: View<V = Seq<char>>>(
    m: Map<K, W>,
    name: Seq<char>,
) -> Option<Seq<char>> {
    if exists|k: K| m.contains_key(k) && k@ == name {
        Some(m[choose|k: K| m.contains_key(k) && k@ == name]@)
    } else {
        None
    }
}

/// Relies on BTreeMap::get: the value stored under the key equal to `name`.
#[verifier::external_body]
fn btree_get(m: &BTreeMap<String, String>, name: &str) -> (r: Option<String>)
    ensures
        opt_view(r) == lookup(m.deep_view(), name@),
{
    m.get(name).cloned()
}

/// Relies on BTreeMap::get: the value stored under the key equal to `name`.
#[verifier::external_body]
fn btree_get_str(m: &BTreeMap<&str, &str>, name: &str) -> (r: Option<String>)
    ensures
        opt_view(r) == lookup(m.deep_view(), name@),
{
    m.get(name).map(|v| v.to_string())
}

/// Relies on HashMap::get: the value stored under the key equal to `name`.
#[verifier::external_body]
fn hash_get(m: &HashMap<String, String>, name: &str) -> (r: Option<String>)
    ensures
        opt_view(r) == keyed_lookup(m@, name@),
{
    m.get(name).cloned()
}

/// Relies on HashMap::get: the value stored under the key equal to `name`.
#[verifier::external_body]
fn hash_get_str(m: &HashMap<&str, &str>, name: &str) -> (r: Option<String>)
    ensures
        opt_view(r) == keyed_lookup(m@, name@),
{
    m.get(name).map(|v| v.to_string())
}

/// No variable has a value.
impl Vars for () {
    open spec fn answer(&self, index: usize, name: Seq<char>) -> Option<Seq<char>> {
        None
    }

    open spec fn after(&self, index: usize, name: Seq<char>) -> Self {
        *self
    }

    fn var(&mut self, index: usize, name: &str) -> (r: Option<String>) {
        None
    }
}

/// Values by name.
impl Vars for &BTreeMap<String, String> {
    open spec fn answer(&self, index: usize, name: Seq<char>) -> Option<Seq<char>> {
        lookup((**self).deep_view(), name)
    }

    open spec fn after(&self, index: usize, name: Seq<char>) -> Self {
        *self
    }

    fn var(&mut self, index: usize, name: &str) -> (r: Option<String>) {
        btree_get(*self, name)
    }
}

/// Values by name.
impl Vars for &BTreeMap<&str, &str> {
    open spec fn answer(&self, index: usize, name: Seq<char>) -> Option<Seq<char>> {
        lookup((**self).deep_view(), name)
    }

    open spec fn after(&self, index: usize, name: Seq<char>) -> Self {
        *self
    }

    fn var(&mut self, index: usize, name: &str) -> (r: Option<String>) {
        btree_get_str(*self, name)
    }
}

/// Values by name.
impl Vars for &HashMap<String, String> {
    open spec fn answer(&self, index: usize, name: Seq<char>) -> Option<Seq<char>> {
        keyed_lookup((**self)@, name)
    }

    open spec fn after(&self, index: usize, name: Seq<char>) -> Self {
        *self
    }

    fn var(&mut self, index: usize, name: &str) -> (r: Option<String>) {
        hash_get(*self, name)
    }
}

/// Values by name.
impl Vars for &HashMap<&str, &str> {
    open spec fn answer(&self, index: usize, name: Seq<char>) -> Option<Seq<char>> {
        keyed_lookup((**self)@, name)
    }

    open spec fn after(&self, index: usize, name: Seq<char>) -> Self {
        *self
    }

    fn var(&mut self, index: usize, name: &str) -> (r: Option<String>) {
        hash_get_str(*self, name)
    }
}

/// Values by position.
impl Vars for &[&str] {
    open spec fn answer(&self, index: usize, name: Seq<char>) -> Option<Seq<char>> {
        if index < (**self)@.len() {
            Some((**self)@[index as int]@)
        } else {
            None
        }
    }

    open spec fn after(&self, index: usize, name: Seq<char>) -> Self {
        *self
    }

    fn var(&mut self, index: usize, name: &str) -> (r: Option<String>) {
        if index < self.len() {
            Some(self[index].to_owned())
        } else {
            None
        }
    }
}

} // verus!
