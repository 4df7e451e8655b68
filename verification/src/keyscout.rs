//! The ancestor chain recorded by a scouting pass.
//!
//! A `KeyScoutChild` describes one record on the path from the buffer's root
//! to a mutation target: the value of its body-size field and the absolute
//! offset at which that size field begins. A `KeyScout` holds the matched
//! ancestor containers in root-to-parent order plus, when the path fully
//! resolved, the terminal record itself. The delete and replace algorithms
//! splice the terminal record's bytes and rewrite every recorded ancestor's
//! size field in place.

use vstd::prelude::*;

verus! {

/// One record on a scouted path: its name, the value of its body-size field,
/// and the absolute offset of that size field.
#[derive(Debug)]
pub struct KeyScoutChild {
    pub name: String,
    pub size: i32,
    pub starting_index: i32,
}

impl KeyScoutChild {
    /// A placeholder child: no position, zero size.
    pub fn new() -> (r: KeyScoutChild)
        ensures
            r.name@ == "null"@,
            r.size == 0,
            r.starting_index == -1,
    {
        KeyScoutChild { name: "null".to_owned(), size: 0, starting_index: -1 }
    }

    /// Set the record's name.
    pub fn set_name(&mut self, name: String)
        ensures
            final(self).name == name,
            final(self).size == old(self).size,
            final(self).starting_index == old(self).starting_index,
    {
        self.name = name;
    }

    /// The record's name.
    pub fn get_name(&self) -> (r: String)
        ensures
            r@ == self.name@,
    {
        self.name.clone()
    }

    /// Set the recorded body size.
    pub fn set_size(&mut self, size: i32)
        ensures
            final(self).size == size,
            final(self).name == old(self).name,
            final(self).starting_index == old(self).starting_index,
    {
        self.size = size;
    }

    /// The recorded body size.
    pub fn get_size(&self) -> (r: i32)
        ensures
            r == self.size,
    {
        self.size
    }

    /// Set the absolute offset of the record's size field.
    pub fn set_starting_index(&mut self, starting_index: i32)
        ensures
            final(self).starting_index == starting_index,
            final(self).name == old(self).name,
            final(self).size == old(self).size,
    {
        self.starting_index = starting_index;
    }

    /// The absolute offset of the record's size field.
    pub fn get_starting_index(&self) -> (r: i32)
        ensures
            r == self.starting_index,
    {
        self.starting_index
    }

    /// Shrink the recorded size by `amount`.
    pub fn remove_size(&mut self, amount: i32)
        requires
            i32::MIN <= old(self).size - amount <= i32::MAX,
        ensures
            final(self).size == old(self).size - amount,
            final(self).name == old(self).name,
            final(self).starting_index == old(self).starting_index,
    {
        self.size = self.size - amount;
    }

    /// Grow the recorded size by `amount`.
    pub fn add_size(&mut self, amount: i32)
        requires
            i32::MIN <= old(self).size + amount <= i32::MAX,
        ensures
            final(self).size == old(self).size + amount,
            final(self).name == old(self).name,
            final(self).starting_index == old(self).starting_index,
    {
        self.size = self.size + amount;
    }
}

/// The result of scouting a path: every matched ancestor container, in
/// root-to-parent order, and the terminal record when the path resolved. No
/// terminal record means the path was not found, whatever ancestors were
/// recorded along the way.
pub struct KeyScout {
    pub children: Vec<KeyScoutChild>,
    pub end: Option<KeyScoutChild>,
}

impl KeyScout {
    /// An empty scout: no ancestors, no terminal record.
    pub fn new() -> (r: KeyScout)
        ensures
            r.children@.len() == 0,
            r.end is None,
    {
        KeyScout { children: Vec::new(), end: None }
    }

    /// Record one more ancestor.
    pub fn add_child(&mut self, child: KeyScoutChild)
        ensures
            final(self).children@ == old(self).children@.push(child),
            final(self).end == old(self).end,
    {
        self.children.push(child);
    }

    /// The recorded ancestors, root first.
    pub fn get_children(&self) -> (r: &Vec<KeyScoutChild>)
        ensures
            r@ == self.children@,
    {
        &self.children
    }

    /// The first recorded ancestor with the given name, if any.
    pub fn get_child_by_name(&self, name: String) -> (r: Option<&KeyScoutChild>)
        ensures
            match r {
                Some(c) => exists|i: int|
                    0 <= i < self.children@.len() && *c == self.children@[i] && c.name@ == name@
                        && forall|j: int| 0 <= j < i ==> self.children@[j].name@ != name@,
                None => forall|i: int|
                    0 <= i < self.children@.len() ==> self.children@[i].name@ != name@,
            },
    {
        let mut i: usize = 0;
        while i < self.children.len()
            invariant
                i <= self.children@.len(),
                forall|j: int| 0 <= j < i ==> self.children@[j].name@ != name@,
            decreases self.children@.len() - i,
        {
            if self.children[i].name == name {
                return Some(&self.children[i]);
            }
            i = i + 1;
        }
        None
    }

    /// Record the terminal record.
    pub fn set_end(&mut self, end: KeyScoutChild)
        ensures
            final(self).end == Some(end),
            final(self).children == old(self).children,
    {
        self.end = Some(end);
    }

    /// The terminal record, if the path resolved.
    pub fn get_end(&self) -> (r: &Option<KeyScoutChild>)
        ensures
            *r == self.end,
    {
        &self.end
    }

    /// Shrink every recorded ancestor's size by `size`.
    pub fn remove_amount(&mut self, size: i32)
        requires
            forall|i: int|
                0 <= i < old(self).children@.len() ==> i32::MIN <= (
                #[trigger] old(self).children@[i]).size - size <= i32::MAX,
        ensures
            final(self).children@.len() == old(self).children@.len(),
            forall|i: int|
                0 <= i < old(self).children@.len() ==> {
                    let c = #[trigger] final(self).children@[i];
                    let o = old(self).children@[i];
                    c.size == o.size - size && c.name == o.name && c.starting_index
                        == o.starting_index
                },
            final(self).end == old(self).end,
    {
        let mut i: usize = 0;
        while i < self.children.len()
            invariant
                i <= self.children@.len(),
                self.children@.len() == old(self).children@.len(),
                self.end == old(self).end,
                forall|k: int|
                    0 <= k < old(self).children@.len() ==> i32::MIN <= (#[trigger] old(
                        self,
                    ).children@[k]).size - size <= i32::MAX,
                forall|k: int|
                    i <= k < old(self).children@.len() ==> #[trigger] self.children@[k] == old(
                        self,
                    ).children@[k],
                forall|k: int|
                    0 <= k < i ==> {
                        let c = #[trigger] self.children@[k];
                        let o = old(self).children@[k];
                        c.size == o.size - size && c.name == o.name && c.starting_index
                            == o.starting_index
                    },
            decreases self.children@.len() - i,
        {
            let new_size = self.children[i].size - size;
            self.children[i].size = new_size;
            i = i + 1;
        }
    }

    /// Grow every recorded ancestor's size by `size`.
    pub fn add_amount(&mut self, size: i32)
        requires
            forall|i: int|
                0 <= i < old(self).children@.len() ==> i32::MIN <= (
                #[trigger] old(self).children@[i]).size + size <= i32::MAX,
        ensures
            final(self).children@.len() == old(self).children@.len(),
            forall|i: int|
                0 <= i < old(self).children@.len() ==> {
                    let c = #[trigger] final(self).children@[i];
                    let o = old(self).children@[i];
                    c.size == o.size + size && c.name == o.name && c.starting_index
                        == o.starting_index
                },
            final(self).end == old(self).end,
    {
        let mut i: usize = 0;
        while i < self.children.len()
            invariant
                i <= self.children@.len(),
                self.children@.len() == old(self).children@.len(),
                self.end == old(self).end,
                forall|k: int|
                    0 <= k < old(self).children@.len() ==> i32::MIN <= (#[trigger] old(
                        self,
                    ).children@[k]).size + size <= i32::MAX,
                forall|k: int|
                    i <= k < old(self).children@.len() ==> #[trigger] self.children@[k] == old(
                        self,
                    ).children@[k],
                forall|k: int|
                    0 <= k < i ==> {
                        let c = #[trigger] self.children@[k];
                        let o = old(self).children@[k];
                        c.size == o.size + size && c.name == o.name && c.starting_index
                            == o.starting_index
                    },
            decreases self.children@.len() - i,
        {
            let new_size = self.children[i].size + size;
            self.children[i].size = new_size;
            i = i + 1;
        }
    }
}

} // verus!
