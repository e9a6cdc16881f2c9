#![allow(non_snake_case)]

use minecraft_gl::world::atlas::{
    AtlasDimension, AtlasLayout, AtlasMetadata, BlockAtlasTiles, ItemAtlasTiles, RegisteredBlockNames,
    RegisteredItemNames, TileOrigin,
};
use minecraft_gl::world::biomeGenerator::Biome;
use minecraft_gl::world::biomeReader::{
    BiomeDescription, BiomeReadError, BlockListEntry, HeightModifierDescription, ModifierFlags, ReadBiomeDescription,
    ReadBlockList, ReadHeightModifier,
};
use minecraft_gl::world::block::{Block, TextureData};
use minecraft_gl::world::blockRegistry::{BlockDescription, BlockRegistry};
use minecraft_gl::world::crafting::CraftingRegistry;
use minecraft_gl::world::item::Item;
use minecraft_gl::world::itemRegistry::{ItemDescription, ItemRegistry};
use minecraft_gl::world::{StateKind, StateType};

fn strings(names: &[&str]) -> Vec<String> {
    names.iter().map(|s| s.to_string()).collect()
}

fn block(id: u64, name: &str) -> BlockDescription {
    BlockDescription {
        ID: Some(id),
        Name: Some(name.to_string()),
        Enabled: Some(true),
        Decor: None,
        Texture: None,
        AttributesValid: true,
        Textures: None,
        DropItem: None,
        EffectiveTool: None,
    }
}

fn item(id: u64, name: &str) -> ItemDescription {
    ItemDescription {
        ID: Some(id),
        Name: Some(name.to_string()),
        Enabled: Some(true),
        AttributesValid: true,
        AttributeCount: 0,
        PlaceableBlock: None,
        StackSize: None,
        CraftingRecipe: None,
        Texture: None,
    }
}

fn some(s: &str) -> Option<String> {
    Some(s.to_string())
}

#[test]
fn state_type_names_attribute_kinds() {
    assert_eq!(StateType("Dynamic Container"), Ok(StateKind::DynamicContainer));
    assert_eq!(StateType("Int"), Ok(StateKind::Int));
    assert_eq!(StateType("Float"), Ok(StateKind::Float));
    assert_eq!(StateType("Bool"), Ok(StateKind::Bool));
    assert!(StateType("int").is_err());
    assert!(StateType("").is_err());
}

#[test]
fn a_random_biome_is_the_forest() {
    for _ in 0..10 {
        assert_eq!(Biome::Random(), Biome::Forest);
    }
}

fn modifier() -> HeightModifierDescription {
    HeightModifierDescription { HasMinHeight: true, HasMaxHeight: true, Decay: None, Constant: None, HasSpeed: false }
}

#[test]
fn height_modifiers_and_their_refusals() {
    assert_eq!(ReadHeightModifier(&modifier()), Ok(ModifierFlags { Decay: false, Constant: false }));
    let mut decaying = modifier();
    decaying.Decay = Some(true);
    decaying.HasSpeed = true;
    assert_eq!(ReadHeightModifier(&decaying), Ok(ModifierFlags { Decay: true, Constant: false }));
    let mut constant = modifier();
    constant.Constant = Some(true);
    assert_eq!(ReadHeightModifier(&constant), Ok(ModifierFlags { Decay: false, Constant: true }));
    let mut noMin = modifier();
    noMin.HasMinHeight = false;
    assert_eq!(ReadHeightModifier(&noMin), Err(BiomeReadError::MissingMinHeight));
    let mut noMax = modifier();
    noMax.HasMaxHeight = false;
    assert_eq!(ReadHeightModifier(&noMax), Err(BiomeReadError::MissingMaxHeight));
    let mut both = constant;
    both.Decay = Some(true);
    assert_eq!(ReadHeightModifier(&both), Err(BiomeReadError::ConstantAndDecaying));
    let mut fast = modifier();
    fast.Constant = Some(true);
    fast.HasSpeed = true;
    assert_eq!(ReadHeightModifier(&fast), Err(BiomeReadError::ConstantWithSpeed));
}

fn terrain() -> BlockRegistry {
    BlockRegistry::ReadBlockAttributes(vec![block(1, "Stone"), block(2, "Dirt"), block(3, "Grass"), block(4, "Coal")]).ok().unwrap()
}

fn entry(name: &str) -> BlockListEntry {
    BlockListEntry { Name: some(name), Modifier: modifier() }
}

#[test]
fn block_lists_resolve_names_in_order() {
    let blocks = terrain();
    let flags = ModifierFlags { Decay: false, Constant: false };
    let list = ReadBlockList(&vec![entry("Grass"), entry("Dirt")], &blocks).ok().unwrap();
    assert_eq!(list, vec![(Block { ID: 3 }, flags), (Block { ID: 2 }, flags)]);
    assert_eq!(ReadBlockList(&vec![], &blocks).ok().unwrap(), vec![]);
    let unnamed = BlockListEntry { Name: None, Modifier: modifier() };
    assert_eq!(ReadBlockList(&vec![entry("Grass"), unnamed], &blocks).err(), Some(BiomeReadError::MissingBlockName));
    let mut bad = entry("Dirt");
    bad.Modifier.HasMaxHeight = false;
    assert_eq!(ReadBlockList(&vec![bad], &blocks).err(), Some(BiomeReadError::MissingMaxHeight));
}

fn forest() -> BiomeDescription {
    BiomeDescription {
        Name: "Forest".to_string(),
        Cave: Some((true, modifier())),
        HeightLevel: Some(60),
        SurfaceAmplitude: Some(12),
        SeaLevel: Some(50),
        Crust: Some(vec![entry("Grass"), entry("Dirt")]),
        Mantle: some("Stone"),
        MantleMinLength: Some(3),
        MantleMaxLength: Some(6),
        Core: some("Stone"),
        Ores: Some((true, Some(vec![entry("Coal")]))),
    }
}

#[test]
fn a_forest_description_becomes_a_generation_plan() {
    let blocks = terrain();
    let plan = ReadBiomeDescription(&forest(), &blocks).ok().unwrap();
    let flags = ModifierFlags { Decay: false, Constant: false };
    assert_eq!(plan.Biome, Biome::Forest);
    assert_eq!(plan.CaveModifier, flags);
    assert_eq!(plan.HeightLevel, 60);
    assert_eq!(plan.SurfaceAmplitude, 12);
    assert_eq!(plan.SeaLevel, 50);
    assert_eq!(plan.Crust, vec![(Block { ID: 3 }, flags), (Block { ID: 2 }, flags)]);
    assert_eq!(plan.Mantle, Some(Block { ID: 1 }));
    assert_eq!(plan.MantleRange, (3, 6));
    assert_eq!(plan.Core, Block { ID: 1 });
    assert_eq!(plan.Ores, vec![(Block { ID: 4 }, flags)]);

    let mut noMantle = forest();
    noMantle.Mantle = None;
    assert_eq!(ReadBiomeDescription(&noMantle, &blocks).ok().unwrap().Mantle, None);
}

#[test]
fn biome_description_refusals() {
    let blocks = terrain();
    let refusal = |d: BiomeDescription| ReadBiomeDescription(&d, &blocks).err();
    let mut d = forest();
    d.Cave = None;
    assert_eq!(refusal(d), Some(BiomeReadError::MissingCave));
    let mut d = forest();
    d.Cave = Some((false, modifier()));
    assert_eq!(refusal(d), Some(BiomeReadError::MissingCaveCutoff));
    let mut d = forest();
    let mut caveless = modifier();
    caveless.HasMinHeight = false;
    d.Cave = Some((true, caveless));
    assert_eq!(refusal(d), Some(BiomeReadError::MissingMinHeight));
    let mut d = forest();
    d.HeightLevel = None;
    assert_eq!(refusal(d), Some(BiomeReadError::MissingHeightLevel));
    let mut d = forest();
    d.SurfaceAmplitude = None;
    assert_eq!(refusal(d), Some(BiomeReadError::MissingSurfaceAmplitude));
    let mut d = forest();
    d.SeaLevel = None;
    assert_eq!(refusal(d), Some(BiomeReadError::MissingSeaLevel));
    let mut d = forest();
    d.Crust = None;
    assert_eq!(refusal(d), Some(BiomeReadError::MissingCrust));
    let mut d = forest();
    d.MantleMinLength = None;
    assert_eq!(refusal(d), Some(BiomeReadError::MissingMantleMinLength));
    let mut d = forest();
    d.MantleMaxLength = None;
    assert_eq!(refusal(d), Some(BiomeReadError::MissingMantleMaxLength));
    let mut d = forest();
    d.Core = None;
    assert_eq!(refusal(d), Some(BiomeReadError::MissingCore));
    let mut d = forest();
    d.Ores = None;
    assert_eq!(refusal(d), Some(BiomeReadError::MissingOres));
    let mut d = forest();
    d.Ores = Some((false, Some(vec![])));
    assert_eq!(refusal(d), Some(BiomeReadError::MissingOreCutoff));
    let mut d = forest();
    d.Ores = Some((true, None));
    assert_eq!(refusal(d), Some(BiomeReadError::MissingOreBlocks));
    let mut d = forest();
    d.Name = "Desert".to_string();
    assert_eq!(refusal(d), Some(BiomeReadError::UnsupportedBiome));
}

#[test]
fn atlas_dimensions_are_ceiling_square_roots() {
    assert_eq!(AtlasDimension(0), 0);
    assert_eq!(AtlasDimension(1), 1);
    assert_eq!(AtlasDimension(2), 2);
    assert_eq!(AtlasDimension(4), 2);
    assert_eq!(AtlasDimension(5), 3);
    assert_eq!(AtlasDimension(9), 3);
    assert_eq!(AtlasDimension(10), 4);
    assert_eq!(AtlasDimension(u32::MAX), 65536);
}

#[test]
fn tiles_fill_the_atlas_row_by_row() {
    assert_eq!(TileOrigin(0, 3, 16), (0, 0));
    assert_eq!(TileOrigin(2, 3, 16), (32, 0));
    assert_eq!(TileOrigin(5, 3, 16), (32, 16));
    assert_eq!(TileOrigin(8, 3, 16), (32, 32));
    assert_eq!(AtlasLayout(5, 16), Some((3, 48)));
    assert_eq!(AtlasLayout(0, 16), Some((0, 0)));
    assert_eq!(AtlasLayout(5, u32::MAX), None);
}

#[test]
fn block_atlas_lays_textures_where_the_registry_points() {
    let mut grass = block(3, "Grass");
    grass.Textures = Some(Some(strings(&["g_top", "g_side", "g_side", "dirt", "g_side", "g_side"])));
    let mut flower = block(2, "Flower");
    flower.Decor = Some(true);
    flower.Texture = some("flower.png");
    let table = BlockRegistry::ReadBlockAttributes(vec![grass, flower, block(1, "Stone")]).ok().unwrap();
    let tiles = BlockAtlasTiles(&table);
    assert_eq!(tiles, vec![None, some("flower.png"), some("g_top"), some("g_side"), some("dirt")]);
    assert_eq!(tiles.len() as u32, table.NumRegisteredTextures);
    match &table.Entries[2].TextureData {
        Some(TextureData::SixSided(t)) => {
            for f in 0..6 {
                assert_eq!(tiles[(t.TextureID + t.Offsets[f]) as usize], Some(t.Textures[f].clone()));
            }
        },
        _ => panic!("grass should have six faces"),
    }
    let empty = BlockRegistry::ReadBlockAttributes(vec![]).ok().unwrap();
    assert!(BlockAtlasTiles(&empty).is_empty());
}

#[test]
fn item_atlas_puts_each_item_at_its_id() {
    let mut sword = item(1, "Sword");
    sword.Texture = some("sword.png");
    let mut apple = item(0, "Apple");
    apple.Texture = some("apple.png");
    let bare = item(2, "Bare");
    let mut crafting = CraftingRegistry::New();
    let table = ItemRegistry::ReadItemAttributes(vec![sword, bare, apple], &mut crafting).ok().unwrap();
    assert_eq!(ItemAtlasTiles(&table), vec![some("apple.png"), some("sword.png"), None]);
    assert_eq!(RegisteredItemNames(&table), strings(&["Apple", "Sword", "Bare"]));
}

#[test]
fn saved_atlases_are_reused_only_when_they_still_fit() {
    let blocks = terrain();
    let names = RegisteredBlockNames(&blocks);
    assert_eq!(names, strings(&["Air", "Stone", "Dirt", "Grass", "Coal"]));
    let saved = AtlasMetadata {
        Items: strings(&["Coal", "Grass", "Air", "Dirt", "Stone", "Old"]),
        Rows: 3,
        Cols: 3,
        TextureResolution: 16,
    };
    assert!(saved.MatchesBlocks(3, 16, &names));
    assert!(!saved.MatchesBlocks(2, 16, &names));
    assert!(!saved.MatchesBlocks(3, 32, &names));
    assert!(!saved.MatchesBlocks(3, 16, &strings(&["Air", "New"])));
    assert!(!saved.MatchesItems(3, 16, &names));
    let items = AtlasMetadata { Items: strings(&["Stone", "Air"]), Rows: 2, Cols: 2, TextureResolution: 8 };
    assert!(items.MatchesItems(2, 8, &names));
    assert!(!items.MatchesItems(2, 8, &strings(&["Stone"])));
    let oblong = AtlasMetadata { Items: vec![], Rows: 2, Cols: 3, TextureResolution: 8 };
    assert!(!oblong.MatchesItems(2, 8, &names));
    assert!(!oblong.MatchesItems(3, 8, &names));
}

#[test]
fn registries_look_names_and_ids_up() {
    let blocks = terrain();
    assert_eq!(blocks.GetNameOfID(2), Ok("Dirt".to_string()));
    assert_eq!(blocks.GetNameOfID(0), Ok(String::new()));
    assert!(blocks.GetNameOfID(9).is_err());
    assert_eq!(blocks.NameToID(&"Grass".to_string()), 3);
    assert_eq!(blocks.NameToID(&"Air".to_string()), 0);
    assert!(blocks.HasBlock(&"Coal".to_string()));
    assert!(blocks.HasBlock(&"Air".to_string()));
    assert!(!blocks.HasBlock(&"Lava".to_string()));
    let mut crafting = CraftingRegistry::New();
    let items = ItemRegistry::ReadItemAttributes(vec![item(4, "Stick"), item(9, "Gem")], &mut crafting).ok().unwrap();
    assert_eq!(items.NameToID(&"Gem".to_string()), 9);
    assert!(items.HasItem(&"Stick".to_string()));
    assert!(!items.HasItem(&"Air".to_string()));
}

#[test]
fn new_registries_are_empty() {
    let blocks = BlockRegistry::New();
    assert!(blocks.Entries.is_empty() && blocks.DropItems.is_empty() && blocks.EffectiveTools.is_empty());
    assert_eq!((blocks.NumRegisteredBlocks, blocks.NumRegisteredTextures), (0, 0));
    assert!(BlockAtlasTiles(&blocks).is_empty());
    assert_eq!(RegisteredBlockNames(&blocks), strings(&["Air"]));
    let items = ItemRegistry::New();
    assert!(items.Entries.is_empty() && items.PlaceBlocks.is_empty());
    assert_eq!((items.NumRegisteredItems, items.NumRegisteredTextures), (0, 0));
    assert!(ItemAtlasTiles(&items).is_empty());
}

#[test]
fn items_from_registered_ids_and_names() {
    let mut crafting = CraftingRegistry::New();
    let items = ItemRegistry::ReadItemAttributes(vec![item(4, "Stick"), item(9, "Gem")], &mut crafting).ok().unwrap();
    assert_eq!(Item::FromID(9, &items).ItemID.ID, 9);
    assert_eq!(Item::FromName(&"Stick".to_string(), &items).ItemID.ID, 4);
}

#[test]
fn refusals_carry_their_messages() {
    assert_eq!(StateType("int"), Err("Error! State type string of int is invalid!".to_string()));
    let blocks = terrain();
    assert_eq!(
        blocks.GetNameOfID(9),
        Err("Block id of 9 not found in block registry. Be sure that it exists or is actually enabled".to_string())
    );
}
