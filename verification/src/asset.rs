//! The asset trait layer: how bytes become a decoded value and a decoded
//! value becomes an asset. Leaf assets decode synchronously; trivial
//! assets additionally collapse decode and build into one pure
//! byte-to-value function, so any builder accepts them.

use vstd::prelude::*;

verus! {

/// An asset that decodes synchronously, with no child dependencies.
pub trait LeafAsset: Sized {
    /// Decoded representation, consumed by the build phase.
    type Decoded;

    /// The asset type's name; sources use it to tell asset types apart
    /// when resolving the same path.
    fn name() -> (r: String);

    /// Decodes the asset from the bytes a source returned.
    fn decode(bytes: Vec<u8>) -> (r: Result<Self::Decoded, String>);
}

/// Builds an asset from its decoded representation with a caller-supplied
/// builder context.
pub trait AssetBuild<B>: LeafAsset {
    /// Builds the asset instance.
    fn build(builder: &mut B, decoded: Self::Decoded) -> (r: Result<Self, String>);
}

/// An asset that needs no build phase: bytes decode straight to the value.
pub trait TrivialAsset: Sized {
    /// The asset type's name.
    fn name() -> (r: String);

    /// Decodes the asset directly.
    fn decode(bytes: Vec<u8>) -> (r: Result<Self, String>);
}

impl<A: TrivialAsset> LeafAsset for A {
    type Decoded = A;

    fn name() -> (r: String) {
        <A as TrivialAsset>::name()
    }

    fn decode(bytes: Vec<u8>) -> (r: Result<A, String>) {
        <A as TrivialAsset>::decode(bytes)
    }
}

impl<B, A: TrivialAsset> AssetBuild<B> for A {
    /// A trivial asset builds to its decoded value, whatever the builder.
    fn build(_builder: &mut B, decoded: A) -> (r: Result<A, String>)
        ensures
            r == Ok::<A, String>(decoded),
    {
        Ok(decoded)
    }
}

} // verus!
