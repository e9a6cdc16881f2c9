#![allow(non_snake_case)]

use minecraft_gl::world::attributes::{LinkAttributes, LinkError};
use minecraft_gl::world::biomeGenerator::{Biome, FillColumns};
use minecraft_gl::world::block::{Block, BlockTextureRegistry, TextureData, TextureSix};
use minecraft_gl::world::blockRegistry::{BlockDescription, BlockReadError, BlockRegistry, TextureOffsets};
use minecraft_gl::world::chunk::{Chunk, To1D, To1Di, To1DUsize};
use minecraft_gl::world::crafting::{CraftingRecipe, CraftingRegistry, MatchType};
use minecraft_gl::world::item::{Item, ItemID, ItemStack};
use minecraft_gl::world::itemRegistry::{ItemDescription, ItemReadError, ItemRegistry, SquareSide};
use minecraft_gl::world::world::{BatchNeighbours, RenderDistanceUpdate, RenderListUpdate, TranslateChunks};
use minecraft_gl::world::GenericError;
use minecraft_gl::scene::mainmenu::MainMenu;
use minecraft_gl::scene::sceneManager::SceneState;
use minecraft_gl::event::{WindowCloseEvent, WindowResizeEvent};

fn recipe(grid: &[u8], side: u32) -> CraftingRecipe {
    CraftingRecipe::New(grid.to_vec(), side, side).ok().unwrap()
}

#[test]
fn crafting_recipe_must_be_a_non_empty_square() {
    assert!(CraftingRecipe::New(vec![1, 2, 3, 4], 2, 2).is_ok());
    assert!(CraftingRecipe::New(vec![1, 2], 1, 2).is_err());
    assert!(CraftingRecipe::New(vec![], 0, 0).is_err());
}

#[test]
fn crafting_recipes_match_totally_partially_or_not() {
    let a = recipe(&[1, 2, 3, 4], 2);
    let b = recipe(&[1, 2, 3, 4], 2);
    let c = recipe(&[1, 9, 3, 9], 2);
    let d = recipe(&[1, 2, 3, 4, 5, 6, 7, 8, 9], 3);
    assert_eq!(a.MatchType(&b), MatchType::TotalMatch);
    assert_eq!(b.MatchType(&a), MatchType::TotalMatch);
    assert_eq!(a.MatchType(&d), MatchType::ZeroMatch);
    assert!(matches!(a.MatchType(&c), MatchType::PartialMatch(_)));
    assert!(matches!(c.MatchType(&a), MatchType::PartialMatch(_)));
}

#[test]
fn crafting_registry_finds_the_smallest_matching_item() {
    let mut registry = CraftingRegistry::New();
    assert!(!registry.DoesRecipeExistFor(&ItemID::New(7)));
    registry.AddRecipe(9, recipe(&[5], 1));
    registry.AddRecipe(7, recipe(&[5], 1));
    registry.AddRecipe(3, recipe(&[6], 1));
    assert!(registry.DoesRecipeExistFor(&ItemID::New(7)));
    assert!(registry.GetRecipeFor(&ItemID::New(4)).is_none());
    assert_eq!(registry.MatchRecipe(&recipe(&[5], 1)), Some(ItemID::New(7)));
    assert_eq!(registry.MatchRecipe(&recipe(&[8], 1)), None);
}

#[test]
fn item_stack_counts_items_of_its_type() {
    let stone = Item { ItemID: ItemID::New(1) };
    let dirt = Item { ItemID: ItemID::New(2) };
    let mut stack = ItemStack::New(stone);
    assert_eq!(stack.Count, 1);
    assert!(stack.Push(&stone, 2));
    assert_eq!(stack.Count, 2);
    assert!(!stack.Push(&dirt, 64));
    assert!(stack.Push(&stone, 2));
    assert_eq!(stack.Count, 3);
    assert!(!stack.Push(&stone, 2));
    assert!(stack.Pop());
    assert!(stack.Pop());
    assert!(stack.Pop());
    assert!(!stack.Pop());
    assert_eq!(stack.Count, 0);
}

#[test]
fn item_stack_pop_undoes_push() {
    let stone = Item { ItemID: ItemID::New(1) };
    let mut stack = ItemStack::New(stone);
    assert!(stack.Push(&stone, 64));
    assert!(stack.Pop());
    assert_eq!(stack, ItemStack::New(stone));
}

#[test]
fn generic_error_keeps_its_message() {
    assert_eq!(GenericError::New("bad".to_string()).Message(), "bad");
    assert_eq!(GenericError::NewBoxed("worse".to_string()).Message(), "worse");
}

#[test]
fn scene_and_event_values() {
    let mut menu = MainMenu::New();
    menu.Load("save");
    menu.Save();
    menu.Destroy();
    assert_eq!(menu, MainMenu::New());
    assert_ne!(SceneState::MainMenu, SceneState::WorldScene);
    assert_eq!(WindowResizeEvent { Width: 3, Height: 4 }.Height, 4);
    assert_eq!(WindowCloseEvent {}, WindowCloseEvent {});
    assert_eq!(Block::Air().ID, 0);
}

#[test]
fn chunk_indices() {
    assert_eq!(To1D((1, 2, 3)), 1 + 15 * (3 + 2 * 15));
    assert_eq!(To1Di((-1, 0, 0)), -1);
    assert_eq!(To1DUsize((14, 59, 14)), 13499);
}

#[test]
fn chunk_of_height_and_block_edits() {
    let mut chunk = Chunk::<u32>::OfHeight(2, (5, -5));
    assert_eq!(chunk.Blocks.len(), 13500);
    assert_eq!(chunk.Blocks[0].ID, 2);
    assert_eq!(chunk.Blocks[449].ID, 2);
    assert_eq!(chunk.Blocks[450].ID, 0);
    assert_eq!(chunk.Position, (5, -5));
    assert_eq!(chunk.Biome, Biome::NoBiome);
    chunk.StaticState.insert(To1D((1, 0, 0)), 7);
    chunk.DestroyBlock((1, 0, 0));
    assert_eq!(chunk.Blocks[1].ID, 0);
    assert!(chunk.StaticState.is_empty());
    assert!(!chunk.EmplaceBlock((0, 0, 0), &Block { ID: 3 }));
    chunk.Clear();
    assert!(chunk.Blocks.is_empty());
}

#[test]
fn chunk_block_state_prefers_dynamic_state() {
    let mut chunk = Chunk::<u32>::New((0, 0));
    let key = 1 + 15 * (0 + 2 * 60);
    chunk.StaticState.insert(key, 10);
    assert_eq!(chunk.GetBlockStateAt((1, 2, 0)).copied(), Some(10));
    chunk.DynamicState.insert(key, 20);
    *chunk.GetBlockStateAt((1, 2, 0)).unwrap() += 1;
    assert_eq!(chunk.DynamicState[&key], 21);
    assert_eq!(chunk.StaticState[&key], 10);
    assert!(chunk.GetBlockStateAt((0, 0, 0)).is_none());
}

fn stone_registry() -> BlockTextureRegistry {
    let mut registry = BlockTextureRegistry::New();
    registry.Register(0, None);
    let names: [String; 6] = ["a".into(), "a".into(), "b".into(), "a".into(), "a".into(), "a".into()];
    registry.Register(2, Some(TextureData::SixSided(TextureSix { Textures: names, TextureID: 4, Offsets: [0, 0, 1, 0, 0, 0] })));
    registry
}

#[test]
fn chunk_meshes_a_slab() {
    let mut chunk = Chunk::<u32>::OfHeight(1, (0, 0));
    let registry = stone_registry();
    assert!(registry.TexturesFit());
    assert!(chunk.TryGreedyMesh(&[None, None, None, None], &registry));
    assert!(!chunk.Mesh.is_empty());
    let mesh = chunk.Mesh.clone();
    chunk.GreedyMesh(&[None, None, None, None], &registry);
    assert_eq!(chunk.Mesh, mesh);
}

#[test]
fn chunk_with_unregistered_blocks_is_not_meshed() {
    let mut chunk = Chunk::<u32>::OfHeight(1, (0, 0));
    let mut registry = BlockTextureRegistry::New();
    registry.Register(0, None);
    assert!(!chunk.TryGreedyMesh(&[None, None, None, None], &registry));
    assert!(chunk.Mesh.is_empty());
}

fn strings(names: &[&str]) -> Vec<String> {
    names.iter().map(|s| s.to_string()).collect()
}

#[test]
fn texture_offsets_rank_textures_by_first_appearance() {
    let (offsets, distinct) = TextureOffsets(&strings(&["top", "side", "side", "bottom", "side", "top"]));
    assert_eq!(offsets, [0, 1, 1, 2, 1, 0]);
    assert_eq!(distinct, 3);
    let (same, one) = TextureOffsets(&strings(&["x", "x", "x", "x", "x", "x"]));
    assert_eq!(same, [0; 6]);
    assert_eq!(one, 1);
}

fn block(id: u64, name: &str) -> BlockDescription {
    BlockDescription {
        ID: Some(id),
        Name: Some(name.to_string()),
        Enabled: Some(true),
        Decor: None,
        Texture: None,
        AttributesValid: true,
        Textures: None,
        DropItem: None,
        EffectiveTool: None,
    }
}

#[test]
fn block_reading_orders_by_id_and_counts_textures() {
    let mut grass = block(3, "Grass");
    grass.Textures = Some(Some(strings(&["g_top", "g_side", "g_side", "dirt", "g_side", "g_side"])));
    grass.DropItem = Some("Dirt".to_string());
    let mut flower = block(2, "Flower");
    flower.Decor = Some(true);
    flower.Texture = Some("flower.png".to_string());
    let stone = block(1, "Stone");
    let mut hidden = block(4, "Hidden");
    hidden.Enabled = Some(false);
    let table = BlockRegistry::ReadBlockAttributes(vec![grass, flower, stone, hidden]).ok().unwrap();
    let ids: Vec<u8> = table.Entries.iter().map(|e| e.ID).collect();
    assert_eq!(ids, vec![1, 2, 3]);
    let sources: Vec<usize> = table.Entries.iter().map(|e| e.Source).collect();
    assert_eq!(sources, vec![2, 1, 0]);
    assert_eq!(table.NumRegisteredBlocks, 3);
    assert_eq!(table.NumRegisteredTextures, 1 + 1 + 3);
    assert!(table.Entries[0].TextureData.is_none());
    match &table.Entries[1].TextureData {
        Some(TextureData::Decoration(t)) => assert_eq!(t.TextureID, 1),
        _ => panic!("flower should be a decoration"),
    }
    match &table.Entries[2].TextureData {
        Some(TextureData::SixSided(t)) => {
            assert_eq!(t.TextureID, 2);
            assert_eq!(t.Offsets, [0, 1, 1, 2, 1, 1]);
        },
        _ => panic!("grass should have six faces"),
    }
    assert_eq!(table.DropItems, vec![(3u8, "Dirt".to_string())]);
    assert!(table.EffectiveTools.is_empty());
}

#[test]
fn block_reading_refusals() {
    let mut missing = block(1, "A");
    missing.ID = None;
    assert_eq!(BlockRegistry::ReadBlockAttributes(vec![missing]).err(), Some(BlockReadError::MissingId));
    assert_eq!(BlockRegistry::ReadBlockAttributes(vec![block(0, "A")]).err(), Some(BlockReadError::ReservedId));
    assert_eq!(BlockRegistry::ReadBlockAttributes(vec![block(256, "A")]).err(), Some(BlockReadError::ReservedId));
    assert_eq!(BlockRegistry::ReadBlockAttributes(vec![block(1, "A"), block(1, "B")]).err(), Some(BlockReadError::DuplicateId(1)));
    let mut unnamed = block(1, "A");
    unnamed.Name = None;
    assert_eq!(BlockRegistry::ReadBlockAttributes(vec![unnamed]).err(), Some(BlockReadError::MissingName(1)));
    assert_eq!(BlockRegistry::ReadBlockAttributes(vec![block(5, "Air")]).err(), Some(BlockReadError::ReservedName(5)));
    let mut unflagged = block(2, "A");
    unflagged.Enabled = None;
    assert_eq!(BlockRegistry::ReadBlockAttributes(vec![unflagged]).err(), Some(BlockReadError::MissingEnabled(2)));
    let mut bareDecor = block(2, "A");
    bareDecor.Decor = Some(true);
    assert_eq!(BlockRegistry::ReadBlockAttributes(vec![bareDecor]).err(), Some(BlockReadError::MissingDecorTexture(2)));
    let mut badAttribute = block(2, "A");
    badAttribute.AttributesValid = false;
    assert_eq!(BlockRegistry::ReadBlockAttributes(vec![badAttribute]).err(), Some(BlockReadError::InvalidAttribute(2)));
    let mut notList = block(2, "A");
    notList.Textures = Some(None);
    assert_eq!(BlockRegistry::ReadBlockAttributes(vec![notList]).err(), Some(BlockReadError::TexturesNotList(2)));
}

fn item(id: u64, name: &str) -> ItemDescription {
    ItemDescription {
        ID: Some(id),
        Name: Some(name.to_string()),
        Enabled: Some(true),
        AttributesValid: true,
        AttributeCount: 0,
        PlaceableBlock: None,
        StackSize: None,
        CraftingRecipe: None,
        Texture: None,
    }
}

#[test]
fn item_reading_sets_stack_sizes_and_recipes() {
    let mut chest = item(5, "Chest");
    chest.AttributeCount = 1;
    chest.PlaceableBlock = Some("ChestBlock".to_string());
    chest.CraftingRecipe = Some(vec![1, 1, 1, 1, 0, 1, 1, 1, 1]);
    let mut stick = item(2, "Stick");
    stick.StackSize = Some(16);
    stick.Texture = Some("stick.png".to_string());
    let plank = item(1, "Plank");
    let mut crafting = CraftingRegistry::New();
    let table = ItemRegistry::ReadItemAttributes(vec![chest, stick, plank], &mut crafting).ok().unwrap();
    let ids: Vec<u8> = table.Entries.iter().map(|e| e.ID).collect();
    assert_eq!(ids, vec![1, 2, 5]);
    let sizes: Vec<u32> = table.Entries.iter().map(|e| e.StackSize).collect();
    assert_eq!(sizes, vec![64, 16, 1]);
    assert_eq!(table.Entries[1].Texture, Some("stick.png".to_string()));
    assert_eq!(table.NumRegisteredItems, 3);
    assert_eq!(table.NumRegisteredTextures, 3);
    assert_eq!(table.PlaceBlocks, vec![(5u8, "ChestBlock".to_string())]);
    assert!(crafting.DoesRecipeExistFor(&ItemID::New(5)));
    assert_eq!(crafting.MatchRecipe(&recipe(&[1, 1, 1, 1, 0, 1, 1, 1, 1], 3)), Some(ItemID::New(5)));
}

#[test]
fn item_reading_refusals() {
    let mut crafting = CraftingRegistry::New();
    let mut missing = item(1, "A");
    missing.ID = None;
    assert_eq!(ItemRegistry::ReadItemAttributes(vec![missing], &mut crafting).err(), Some(ItemReadError::MissingId));
    assert_eq!(ItemRegistry::ReadItemAttributes(vec![item(1, "A"), item(1, "B")], &mut crafting).err(), Some(ItemReadError::DuplicateId(1)));
    let mut unnamed = item(3, "A");
    unnamed.Name = None;
    assert_eq!(ItemRegistry::ReadItemAttributes(vec![unnamed], &mut crafting).err(), Some(ItemReadError::MissingName(3)));
    let mut unflagged = item(3, "A");
    unflagged.Enabled = None;
    assert_eq!(ItemRegistry::ReadItemAttributes(vec![unflagged], &mut crafting).err(), Some(ItemReadError::MissingEnabled(3)));
    let mut badAttribute = item(3, "A");
    badAttribute.AttributesValid = false;
    assert_eq!(ItemRegistry::ReadItemAttributes(vec![badAttribute], &mut crafting).err(), Some(ItemReadError::InvalidAttribute(3)));
    let mut stacked = item(3, "A");
    stacked.AttributeCount = 2;
    stacked.StackSize = Some(4);
    assert_eq!(ItemRegistry::ReadItemAttributes(vec![stacked], &mut crafting).err(), Some(ItemReadError::StackedAttributes(3)));
    let mut oblong = item(3, "A");
    oblong.CraftingRecipe = Some(vec![1, 2, 3]);
    assert_eq!(ItemRegistry::ReadItemAttributes(vec![oblong], &mut crafting).err(), Some(ItemReadError::RecipeNotSquare(3)));
    let mut empty = item(3, "A");
    empty.CraftingRecipe = Some(vec![]);
    assert_eq!(ItemRegistry::ReadItemAttributes(vec![empty], &mut crafting).err(), Some(ItemReadError::InvalidRecipe(3)));
    assert!(!crafting.DoesRecipeExistFor(&ItemID::New(3)));
}

#[test]
fn square_sides() {
    assert_eq!(SquareSide(0), Some(0));
    assert_eq!(SquareSide(1), Some(1));
    assert_eq!(SquareSide(9), Some(3));
    assert_eq!(SquareSide(10), None);
    assert_eq!(SquareSide(4_000_000), Some(2000));
    assert_eq!(SquareSide(4_000_001), None);
}

#[test]
fn linking_blocks_and_items() {
    let mut ore = block(2, "Ore");
    ore.DropItem = Some("Gem".to_string());
    ore.EffectiveTool = Some("Pick".to_string());
    let blocks = BlockRegistry::ReadBlockAttributes(vec![ore]).ok().unwrap();
    let mut gem = item(7, "Gem");
    gem.PlaceableBlock = Some("Ore".to_string());
    let mut pick = item(8, "Pick");
    pick.PlaceableBlock = Some("Air".to_string());
    let mut crafting = CraftingRegistry::New();
    let items = ItemRegistry::ReadItemAttributes(vec![gem, pick], &mut crafting).ok().unwrap();
    let links = LinkAttributes(&blocks, &items).ok().unwrap();
    assert_eq!(links.DropItems, vec![(2, 7)]);
    assert_eq!(links.EffectiveTools, vec![(2, 8)]);
    assert_eq!(links.PlaceBlocks, vec![(7, 2), (8, 0)]);

    let mut lonely = block(3, "Lonely");
    lonely.DropItem = Some("Nothing".to_string());
    let blocks2 = BlockRegistry::ReadBlockAttributes(vec![lonely]).ok().unwrap();
    assert_eq!(LinkAttributes(&blocks2, &items).err(), Some(LinkError::InvalidDropItem(3)));
    let mut wrongTool = block(3, "Wrong");
    wrongTool.EffectiveTool = Some("Axe".to_string());
    let blocks3 = BlockRegistry::ReadBlockAttributes(vec![wrongTool]).ok().unwrap();
    assert_eq!(LinkAttributes(&blocks3, &items).err(), Some(LinkError::InvalidEffectiveTool(3)));
    assert_eq!(LinkAttributes(&blocks3, &ItemRegistry::ReadItemAttributes(vec![], &mut crafting).ok().unwrap()).err(),
        Some(LinkError::InvalidEffectiveTool(3)));
    let noBlocks = BlockRegistry::ReadBlockAttributes(vec![]).ok().unwrap();
    assert_eq!(LinkAttributes(&noBlocks, &items).err(), Some(LinkError::InvalidPlaceableBlock(7)));
}

#[test]
fn fill_columns_builds_crust_mantle_and_core() {
    let mut blocks = vec![Block { ID: 9 }; 13500];
    let heights = [3u32; 225];
    let crust = [Block { ID: 1 }; 225];
    let mut mantle = [1u32; 225];
    mantle[0] = 0;
    FillColumns(&mut blocks, &heights, &crust, &mantle, Some(Block { ID: 2 }), Block { ID: 3 });
    let at = |x: u32, y: u32, z: u32| blocks[To1D((x, y, z)) as usize].ID;
    assert_eq!(at(1, 3, 0), 1);
    assert_eq!(at(1, 2, 0), 2);
    assert_eq!(at(1, 1, 0), 3);
    assert_eq!(at(1, 0, 0), 3);
    assert_eq!(at(1, 4, 0), 9);
    assert_eq!(at(0, 3, 0), 1);
    assert_eq!(at(0, 2, 0), 3);
    let mut noMantle = vec![Block { ID: 9 }; 13500];
    FillColumns(&mut noMantle, &heights, &crust, &[1u32; 225], None, Block { ID: 3 });
    assert_eq!(noMantle[To1D((4, 2, 4)) as usize].ID, 1);
}

#[test]
fn translating_chunks() {
    let moved = TranslateChunks((0, 0), (1, 0), 1);
    assert_eq!(moved.Create, vec![(2, -1), (2, 0), (2, 1)]);
    assert_eq!(moved.Remove, vec![(-1, -1), (-1, 0), (-1, 1)]);
    assert_eq!(moved.Remesh, vec![(0, -1), (1, 0), (0, 1)]);
    let still = TranslateChunks((4, 4), (4, 4), 2);
    assert!(still.Create.is_empty());
    assert!(still.Remove.is_empty());
    assert_eq!(still.Remesh, vec![(2, 2), (2, 3), (2, 4), (2, 5), (2, 6)]);
}

#[test]
fn render_list_covers_the_square_column_by_column() {
    assert_eq!(RenderListUpdate((5, 5), 0), vec![(5, 5)]);
    assert_eq!(
        RenderListUpdate((0, 0), 1),
        vec![(-1, -1), (-1, 0), (-1, 1), (0, -1), (0, 0), (0, 1), (1, -1), (1, 0), (1, 1)]
    );
}

#[test]
fn render_distance_updates() {
    assert_eq!(RenderDistanceUpdate(1, 10, (0, 0)), None);
    assert_eq!(RenderDistanceUpdate(1, 1, (0, 0)), None);
    assert_eq!(RenderDistanceUpdate(0, 1, (3, 4)), Some(vec![(3, 4)]));
    assert_eq!(RenderDistanceUpdate(1, 2, (0, 0)), Some(vec![]));
    assert_eq!(RenderDistanceUpdate(1, 2, (3, 3)), Some(vec![(2, 2), (2, 3), (2, 4), (3, 2), (3, 3), (3, 4), (4, 2), (4, 3), (4, 4)]));
}

#[test]
fn batch_neighbours_find_the_last_chunk_at_each_side() {
    let positions = vec![(0, 0), (1, 0), (0, 1), (1, 0), (5, 5)];
    let adj = BatchNeighbours(&positions);
    assert_eq!(adj[0], [None, Some(3), None, Some(2)]);
    assert_eq!(adj[1], [Some(0), None, None, None]);
    assert_eq!(adj[2], [None, None, Some(0), None]);
    assert_eq!(adj[4], [None, None, None, None]);
}

#[test]
fn moving_makes_the_new_square_and_drops_the_old_one() {
    let square = |c: (i32, i32), r: i32| -> Vec<(i32, i32)> {
        let mut v = Vec::new();
        for y in -r..=r {
            for x in -r..=r {
                v.push((c.0 + x, c.1 + y));
            }
        }
        v
    };
    let (old, new, r) = ((0, 0), (2, -1), 2);
    let moved = TranslateChunks(old, new, r);
    let oldSquare = square(old, r);
    let newSquare = square(new, r);
    let expectedCreate: Vec<(i32, i32)> = newSquare.iter().copied().filter(|p| !oldSquare.contains(p)).collect();
    let expectedRemove: Vec<(i32, i32)> = oldSquare.iter().copied().filter(|p| !newSquare.contains(p)).collect();
    assert_eq!(moved.Create, expectedCreate);
    assert_eq!(moved.Remove, expectedRemove);
    assert_eq!(moved.Create.len(), 25 - 12);
}

#[test]
fn a_flat_slab_is_meshed_as_one_quad() {
    let mut chunk = Chunk::<u32>::OfHeight(1, (0, 0));
    let registry = stone_registry();
    assert!(chunk.TryGreedyMesh(&[None, None, None, None], &registry));
    assert_eq!(chunk.Mesh.len(), 4);
    for vertex in &chunk.Mesh {
        assert_eq!(vertex.Dims, 15 | (15 << 16));
    }
}

#[test]
fn crafting_recipe_refusal_names_the_dimensions() {
    assert_eq!(
        CraftingRecipe::New(vec![1, 2], 1, 2).err(),
        Some("Error! Invalid crafting grid dimensions of 1 rows and 2 columns!".to_string())
    );
    assert_eq!(
        CraftingRecipe::New(vec![], 0, 0).err(),
        Some("Error! Invalid crafting grid dimensions of 0 rows and 0 columns!".to_string())
    );
    assert_eq!(
        CraftingRecipe::New(vec![], 10, 4205).err(),
        Some("Error! Invalid crafting grid dimensions of 10 rows and 4205 columns!".to_string())
    );
}
