//! An identifier carrying the asset type it refers to at the type level,
//! so ids of different asset types cannot be mixed up.

use vstd::prelude::*;

use crate::id::AssetId;

verus! {

/// An [`AssetId`] tagged with the asset type it references.
pub struct TypedAssetId<A> {
    pub id: AssetId,
    pub marker: core::marker::PhantomData<A>,
}

impl<A> TypedAssetId<A> {
    /// Accepts exactly the non-zero values, as [`AssetId::new`] does.
    pub fn new(value: u64) -> (r: Option<TypedAssetId<A>>)
        ensures
            value == 0 ==> r is None,
            value != 0 ==> (r matches Some(t) && t.id.spec_value() == value),
    {
        match AssetId::new(value) {
            None => None,
            Some(id) => Some(TypedAssetId { id, marker: core::marker::PhantomData }),
        }
    }

    /// The untyped identifier.
    pub fn untyped(&self) -> (r: AssetId)
        ensures
            r == self.id,
    {
        self.id
    }
}

} // verus!
