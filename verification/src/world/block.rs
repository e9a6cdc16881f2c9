use vstd::prelude::*;
use std::collections::HashMap;
use crate::util::greedyMeshHelper::{texture_fits, textures_fit, offset_fits};

verus! {

broadcast use vstd::std_specs::hash::group_hash_axioms;

/// A block of the world, by the id of its type. Id 0 is air.
#[derive(Clone, Copy, Debug, PartialEq, Eq, Structural)]
pub struct Block {
    pub ID: u8,
}

impl Block {
    pub fn Air() -> (r: Self)
        ensures
            r.ID == 0,
    {
        Block { ID: 0 }
    }
}

/// A block drawn with one texture per face; `Offsets` gives, for each face,
/// how far its texture lies from `TextureID` on the atlas.
#[derive(Clone)]
pub struct TextureSix {
    pub Textures: [String; 6],
    pub TextureID: u32,
    pub Offsets: [u32; 6],
}

/// A decoration block drawn with a single texture.
#[derive(Clone)]
pub struct TextureSingle {
    pub Texture: String,
    pub TextureID: u32,
}

#[derive(Clone)]
pub enum TextureData {
    SixSided(TextureSix),
    Decoration(TextureSingle),
}

/// What meshing reads of the block registry: the texture data (if any) of
/// every registered block id.
pub struct BlockTextureRegistry {
    Textures: HashMap<u8, Option<TextureData>>,
}

impl BlockTextureRegistry {
    pub closed spec fn view(&self) -> Map<u8, Option<TextureData>> {
        self.Textures@
    }

    pub fn New() -> (r: Self)
        ensures
            r@ == Map::<u8, Option<TextureData>>::empty(),
    {
        BlockTextureRegistry { Textures: HashMap::new() }
    }

    /// Registers block `id` with its texture data (or none, for the null texture).
    pub fn Register(&mut self, id: u8, data: Option<TextureData>)
        ensures
            final(self)@ == old(self)@.insert(id, data),
    {
        self.Textures.insert(id, data);
    }

    pub fn IsRegistered(&self, id: u8) -> (r: bool)
        ensures
            r == self@.contains_key(id),
    {
        self.Textures.contains_key(&id)
    }

    pub fn GetTextureData(&self, id: u8) -> (r: &Option<TextureData>)
        requires
            self@.contains_key(id),
        ensures
            *r == self@[id],
    {
        self.Textures.get(&id).unwrap()
    }

    /// Checks that every registered texture id plus face offset fits in an `i32`.
    pub fn TexturesFit(&self) -> (r: bool)
        ensures
            r == textures_fit(self@),
    {
        let mut id: u32 = 0;
        while id < 256
            invariant
                id <= 256,
                forall|k: u8| k < id && #[trigger] self@.contains_key(k) ==> texture_fits(self@[k]),
            decreases 256 - id,
        {
            if self.IsRegistered(id as u8) {
                match self.GetTextureData(id as u8) {
                    Some(TextureData::SixSided(data)) => {
                        let mut f: usize = 0;
                        while f < 6
                            invariant
                                f <= 6,
                                id < 256,
                                self@.contains_key(id as u8),
                                self@[id as u8] == Some(TextureData::SixSided(*data)),
                                forall|g: int| 0 <= g < f ==> #[trigger] offset_fits(*data, g),
                            decreases 6 - f,
                        {
                            let sum: i64 = data.TextureID as i32 as i64 + data.Offsets[f] as i32 as i64;
                            if sum < i32::MIN as i64 || sum > i32::MAX as i64 {
                                assert(!offset_fits(*data, f as int));
                                let ghost dd: TextureSix = *data;
                                assert(self@[id as u8] == Some(TextureData::SixSided(dd)));
                                assert(self@[id as u8] matches Some(TextureData::SixSided(x)) && x == dd);
                                assert(!texture_fits(self@[id as u8]));
                                return false;
                            }
                            f += 1;
                        }
                    },
                    _ => {},
                }
            }
            id += 1;
        }
        true
    }
}

} // verus!
