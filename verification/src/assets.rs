use vstd::prelude::*;

verus! {

/// A key that identifies a texture file by its path within the textures directory.
pub trait AssetKey {
    /// The path of the texture file within the textures directory.
    fn path(&self) -> &'static str;
}

/// The textures that the game uses.
#[derive(Clone, Copy, Debug, PartialEq, Eq, Hash, Structural)]
pub enum TextureKey {
    Tiles,
    Entities,
}

impl AssetKey for TextureKey {
    /// `tiles.png` for the tiles and `entities.png` for the entities.
    fn path(&self) -> (p: &'static str)
        ensures
            p@ == match self {
                TextureKey::Tiles => "tiles.png"@,
                TextureKey::Entities => "entities.png"@,
            },
    {
        match self {
            TextureKey::Tiles => "tiles.png",
            TextureKey::Entities => "entities.png",
        }
    }
}

} // verus!
