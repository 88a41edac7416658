//! The asset trait layer: a trivial asset decodes straight from bytes and
//! builds to itself with any builder.

use argosy::{AssetBuild, LeafAsset, TrivialAsset};

#[derive(Clone, Debug, PartialEq)]
struct Magnitude(usize);

impl TrivialAsset for Magnitude {
    fn name() -> String {
        "magnitude".to_string()
    }

    fn decode(bytes: Vec<u8>) -> Result<Magnitude, String> {
        Ok(Magnitude(bytes.len()))
    }
}

#[test]
fn trivial_asset_decodes_and_builds() {
    // The leaf view of a trivial asset decodes synchronously...
    let decoded = <Magnitude as LeafAsset>::decode(vec![1, 2, 3]).unwrap();
    assert_eq!(decoded, Magnitude(3));
    assert_eq!(<Magnitude as LeafAsset>::name(), "magnitude");
    // ...and builds to itself whatever the builder context is.
    let mut builder = ();
    let built = <Magnitude as AssetBuild<()>>::build(&mut builder, decoded).unwrap();
    assert_eq!(built, Magnitude(3));
}
