//! Hash tables behind the planner's state indexing.
//!
//! The planner keys its state maps, allocation table and rotation mapping by
//! plain integers and holds them in `hashbrown`'s hash map. The two wrapper
//! types below hide that map from the verifier; what a table holds is exposed
//! to contracts through an uninterpreted contents function, and each method's
//! contract states what `hashbrown`'s documentation promises of the call.

use vstd::prelude::*;

verus! {

/// Table from integer keys to indices, backed by `hashbrown::HashMap`.
#[verifier::external_body]
pub struct IndexTable {
    inner: hashbrown::HashMap<u64, usize>,
}

/// What an [`IndexTable`] holds, as a mathematical map.
pub uninterp spec fn index_table_contents(t: IndexTable) -> Map<u64, usize>;

/// The empty contents of a fresh [`IndexTable`].
pub open spec fn empty_index_map() -> Map<u64, usize> {
    Map::empty()
}

impl View for IndexTable {
    type V = Map<u64, usize>;

    open spec fn view(&self) -> Map<u64, usize> {
        index_table_contents(*self)
    }
}

impl IndexTable {
    /// Relies on `hashbrown::HashMap::new`: the new map is empty.
    #[verifier::external_body]
    pub fn new() -> (t: IndexTable)
        ensures
            index_table_contents(t) == empty_index_map(),
    {
        IndexTable { inner: hashbrown::HashMap::new() }
    }

    /// Relies on `hashbrown::HashMap::insert`: after the call the key maps to
    /// the value and every other key is unchanged.
    #[verifier::external_body]
    pub fn insert(&mut self, key: u64, value: usize)
        ensures
            index_table_contents(*final(self)) == index_table_contents(*old(self)).insert(
                key,
                value,
            ),
    {
        self.inner.insert(key, value);
    }

    /// Relies on `hashbrown::HashMap::get`: returns the value the key maps
    /// to, or `None` where the key is absent.
    #[verifier::external_body]
    pub fn get(&self, key: u64) -> (r: Option<usize>)
        ensures
            r == if index_table_contents(*self).dom().contains(key) {
                Some(index_table_contents(*self)[key])
            } else {
                None::<usize>
            },
    {
        self.inner.get(&key).copied()
    }

}

/// Table from a facing direction to its unit vector, backed by
/// `hashbrown::HashMap`.
#[verifier::external_body]
pub struct RotationTable {
    inner: hashbrown::HashMap<u8, (i32, i32)>,
}

/// What a [`RotationTable`] holds, as a mathematical map.
pub uninterp spec fn rotation_table_contents(t: RotationTable) -> Map<u8, (i32, i32)>;

/// The empty contents of a fresh [`RotationTable`].
pub open spec fn empty_rotation_map() -> Map<u8, (i32, i32)> {
    Map::empty()
}

impl View for RotationTable {
    type V = Map<u8, (i32, i32)>;

    open spec fn view(&self) -> Map<u8, (i32, i32)> {
        rotation_table_contents(*self)
    }
}

impl RotationTable {
    /// Relies on `hashbrown::HashMap::new`: the new map is empty.
    #[verifier::external_body]
    pub fn new() -> (t: RotationTable)
        ensures
            rotation_table_contents(t) == empty_rotation_map(),
    {
        RotationTable { inner: hashbrown::HashMap::new() }
    }

    /// Relies on `hashbrown::HashMap::insert`: after the call the key maps to
    /// the value and every other key is unchanged.
    #[verifier::external_body]
    pub fn insert(&mut self, key: u8, value: (i32, i32))
        ensures
            rotation_table_contents(*final(self)) == rotation_table_contents(*old(self)).insert(
                key,
                value,
            ),
    {
        self.inner.insert(key, value);
    }

    /// Relies on `hashbrown::HashMap::get`: returns the value the key maps
    /// to, or `None` where the key is absent.
    #[verifier::external_body]
    pub fn get(&self, key: u8) -> (r: Option<(i32, i32)>)
        ensures
            r == if rotation_table_contents(*self).dom().contains(key) {
                Some(rotation_table_contents(*self)[key])
            } else {
                None::<(i32, i32)>
            },
    {
        self.inner.get(&key).copied()
    }
}

} // verus!
