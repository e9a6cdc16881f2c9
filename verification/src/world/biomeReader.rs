use vstd::prelude::*;
use super::attributes::{FindBlock, block_named};
use super::biomeGenerator::Biome;
use super::block::Block;
use super::blockRegistry::{BlockRegistry, EntryView};

verus! {

/// What a height modifier description says, as plain values (its heights
/// and speed themselves stay with the caller).
pub struct HeightModifierDescription {
    pub HasMinHeight: bool,
    pub HasMaxHeight: bool,
    pub Decay: Option<bool>,
    pub Constant: Option<bool>,
    pub HasSpeed: bool,
}

/// Whether a height modifier decays and whether it is constant.
#[derive(Debug, Clone, Copy, PartialEq, Eq, Structural)]
pub struct ModifierFlags {
    pub Decay: bool,
    pub Constant: bool,
}

/// One block of a block list: its name and its height modifier.
pub struct BlockListEntry {
    pub Name: Option<String>,
    pub Modifier: HeightModifierDescription,
}

/// What a biome description file says, as plain values; a field is `None`
/// where the file lacks it. The cave and ore entries carry whether they
/// give a noise cutoff.
pub struct BiomeDescription {
    pub Name: String,
    pub Cave: Option<(bool, HeightModifierDescription)>,
    pub HeightLevel: Option<u64>,
    pub SurfaceAmplitude: Option<u64>,
    pub SeaLevel: Option<u64>,
    pub Crust: Option<Vec<BlockListEntry>>,
    pub Mantle: Option<String>,
    pub MantleMinLength: Option<u64>,
    pub MantleMaxLength: Option<u64>,
    pub Core: Option<String>,
    pub Ores: Option<(bool, Option<Vec<BlockListEntry>>)>,
}

/// Why a biome description was refused.
#[derive(Debug, Clone, Copy, PartialEq, Eq, Structural)]
pub enum BiomeReadError {
    MissingMinHeight,
    MissingMaxHeight,
    ConstantAndDecaying,
    ConstantWithSpeed,
    MissingBlockName,
    MissingCave,
    MissingCaveCutoff,
    MissingHeightLevel,
    MissingSurfaceAmplitude,
    MissingSeaLevel,
    MissingCrust,
    MissingMantleMinLength,
    MissingMantleMaxLength,
    MissingCore,
    MissingOres,
    MissingOreCutoff,
    MissingOreBlocks,
    UnsupportedBiome,
}

/// The integer part of a biome's generation data.
pub struct GenerationPlan {
    pub Biome: Biome,
    pub CaveModifier: ModifierFlags,
    pub HeightLevel: u32,
    pub SurfaceAmplitude: u32,
    pub SeaLevel: u32,
    pub Crust: Vec<(Block, ModifierFlags)>,
    pub Mantle: Option<Block>,
    pub MantleRange: (u32, u32),
    pub Core: Block,
    pub Ores: Vec<(Block, ModifierFlags)>,
}

/// The flags of a height modifier, or why it is refused: it needs both
/// heights, and cannot be both constant and decaying, nor constant with a
/// speed.
pub open spec fn read_modifier(m: HeightModifierDescription) -> Result<ModifierFlags, BiomeReadError> {
    let decay = match m.Decay {
        Some(d) => d,
        None => false,
    };
    let constant = match m.Constant {
        Some(c) => c,
        None => false,
    };
    if !m.HasMinHeight {
        Err(BiomeReadError::MissingMinHeight)
    } else if !m.HasMaxHeight {
        Err(BiomeReadError::MissingMaxHeight)
    } else if decay && constant {
        Err(BiomeReadError::ConstantAndDecaying)
    } else if m.HasSpeed && constant {
        Err(BiomeReadError::ConstantWithSpeed)
    } else {
        Ok(ModifierFlags { Decay: decay, Constant: constant })
    }
}

/// Reads a block list: each entry's block id (by name among `blocks`) and
/// modifier flags, in order; the first refusal ends it. `None` where an
/// entry names no registered block (reading panics there).
pub open spec fn read_list(list: Seq<BlockListEntry>, blocks: Seq<EntryView>) -> Option<Result<Seq<(u8, ModifierFlags)>, BiomeReadError>>
    decreases list.len(),
{
    if list.len() == 0 {
        Some(Ok(Seq::empty()))
    } else {
        match read_list(list.drop_last(), blocks) {
            None => None,
            Some(Err(e)) => Some(Err(e)),
            Some(Ok(done)) => match list.last().Name {
                None => Some(Err(BiomeReadError::MissingBlockName)),
                Some(name) => match block_named(blocks, name@) {
                    None => None,
                    Some(id) => match read_modifier(list.last().Modifier) {
                        Err(e) => Some(Err(e)),
                        Ok(flags) => Some(Ok(done.push((id, flags)))),
                    },
                },
            },
        }
    }
}

/// The blocks of a list, by id, beside their flags.
pub open spec fn list_view(list: Seq<(Block, ModifierFlags)>) -> Seq<(u8, ModifierFlags)> {
    list.map_values(|e: (Block, ModifierFlags)| (e.0.ID, e.1))
}


/// The integer part of a biome's generation data, by block ids.
pub struct PlanView {
    pub Biome: Biome,
    pub CaveModifier: ModifierFlags,
    pub HeightLevel: u32,
    pub SurfaceAmplitude: u32,
    pub SeaLevel: u32,
    pub Crust: Seq<(u8, ModifierFlags)>,
    pub Mantle: Option<u8>,
    pub MantleRange: (u32, u32),
    pub Core: u8,
    pub Ores: Seq<(u8, ModifierFlags)>,
}

impl GenerationPlan {
    pub open spec fn view(&self) -> PlanView {
        PlanView {
            Biome: self.Biome,
            CaveModifier: self.CaveModifier,
            HeightLevel: self.HeightLevel,
            SurfaceAmplitude: self.SurfaceAmplitude,
            SeaLevel: self.SeaLevel,
            Crust: list_view(self.Crust@),
            Mantle: match self.Mantle {
                Some(b) => Some(b.ID),
                None => None,
            },
            MantleRange: self.MantleRange,
            Core: self.Core.ID,
            Ores: list_view(self.Ores@),
        }
    }
}

/// The name of the one biome that can be generated so far.
pub open spec fn forest_name() -> Seq<char> {
    seq!['F', 'o', 'r', 'e', 's', 't']
}

/// Reads the ore entry and the biome's name, after everything else.
pub open spec fn read_ores(
    d: BiomeDescription,
    blocks: Seq<EntryView>,
    partial: PlanView,
) -> Option<Result<PlanView, BiomeReadError>> {
    match d.Ores {
        None => Some(Err(BiomeReadError::MissingOres)),
        Some((hasCutoff, list)) => if !hasCutoff {
            Some(Err(BiomeReadError::MissingOreCutoff))
        } else {
            match list {
                None => Some(Err(BiomeReadError::MissingOreBlocks)),
                Some(ores) => match read_list(ores@, blocks) {
                    None => None,
                    Some(Err(e)) => Some(Err(e)),
                    Some(Ok(oreList)) => if d.Name@ == forest_name() {
                        Some(Ok(PlanView { Ores: oreList, ..partial }))
                    } else {
                        Some(Err(BiomeReadError::UnsupportedBiome))
                    },
                },
            }
        },
    }
}

/// Reads the mantle, its depth range and the core, then the ores.
pub open spec fn read_layers(
    d: BiomeDescription,
    blocks: Seq<EntryView>,
    partial: PlanView,
) -> Option<Result<PlanView, BiomeReadError>> {
    let mantle: Option<Option<u8>> = match d.Mantle {
        None => Some(None),
        Some(name) => match block_named(blocks, name@) {
            None => None,
            Some(id) => Some(Some(id)),
        },
    };
    match mantle {
        None => None,
        Some(mantle) => match d.MantleMinLength {
            None => Some(Err(BiomeReadError::MissingMantleMinLength)),
            Some(lo) => match d.MantleMaxLength {
                None => Some(Err(BiomeReadError::MissingMantleMaxLength)),
                Some(hi) => match d.Core {
                    None => Some(Err(BiomeReadError::MissingCore)),
                    Some(c) => match block_named(blocks, c@) {
                        None => None,
                        Some(core) => read_ores(
                            d,
                            blocks,
                            PlanView { Mantle: mantle, MantleRange: (lo as u32, hi as u32), Core: core, ..partial },
                        ),
                    },
                },
            },
        },
    }
}

/// Reads a biome description: its cave (with a noise cutoff and a height
/// modifier), its height level, surface amplitude and sea level, its crust
/// blocks, its mantle (optional), the mantle's depth range, its core and its
/// ores (with a noise cutoff and blocks), in that order; the first lack or
/// fault refuses it, and a biome other than the forest is refused last.
/// `None` where it names a block that is not registered (reading panics
/// there).
pub open spec fn read_biome(d: BiomeDescription, blocks: Seq<EntryView>) -> Option<Result<PlanView, BiomeReadError>> {
    match d.Cave {
        None => Some(Err(BiomeReadError::MissingCave)),
        Some((hasCutoff, caveModifier)) => if !hasCutoff {
            Some(Err(BiomeReadError::MissingCaveCutoff))
        } else {
            match read_modifier(caveModifier) {
                Err(e) => Some(Err(e)),
                Ok(cave) => match d.HeightLevel {
                    None => Some(Err(BiomeReadError::MissingHeightLevel)),
                    Some(h) => match d.SurfaceAmplitude {
                        None => Some(Err(BiomeReadError::MissingSurfaceAmplitude)),
                        Some(a) => match d.SeaLevel {
                            None => Some(Err(BiomeReadError::MissingSeaLevel)),
                            Some(s) => match d.Crust {
                                None => Some(Err(BiomeReadError::MissingCrust)),
                                Some(crust) => match read_list(crust@, blocks) {
                                    None => None,
                                    Some(Err(e)) => Some(Err(e)),
                                    Some(Ok(crustList)) => read_layers(
                                        d,
                                        blocks,
                                        PlanView {
                                            Biome: Biome::Forest,
                                            CaveModifier: cave,
                                            HeightLevel: h as u32,
                                            SurfaceAmplitude: a as u32,
                                            SeaLevel: s as u32,
                                            Crust: crustList,
                                            Mantle: None,
                                            MantleRange: (0, 0),
                                            Core: 0,
                                            Ores: Seq::empty(),
                                        },
                                    ),
                                },
                            },
                        },
                    },
                },
            }
        },
    }
}

/// The flags of height modifier `m`, or why it is refused (see `read_modifier`).
pub fn ReadHeightModifier(m: &HeightModifierDescription) -> (r: Result<ModifierFlags, BiomeReadError>)
    ensures
        r == read_modifier(*m),
{
    if !m.HasMinHeight {
        return Err(BiomeReadError::MissingMinHeight);
    }
    if !m.HasMaxHeight {
        return Err(BiomeReadError::MissingMaxHeight);
    }
    let decay = match m.Decay {
        Some(d) => d,
        None => false,
    };
    let mut constant = false;
    match m.Constant {
        Some(c) => {
            constant = c;
            if decay && constant {
                return Err(BiomeReadError::ConstantAndDecaying);
            }
        },
        None => {},
    }
    if m.HasSpeed && constant {
        return Err(BiomeReadError::ConstantWithSpeed);
    }
    Ok(ModifierFlags { Decay: decay, Constant: constant })
}

/// Reads block list `list` (see `read_list`).
pub fn ReadBlockList(list: &Vec<BlockListEntry>, blocks: &BlockRegistry) -> (r: Result<Vec<(Block, ModifierFlags)>, BiomeReadError>)
    requires
        read_list(list@, blocks.progress().entries) is Some,
    ensures
        match read_list(list@, blocks.progress().entries)->0 {
            Ok(done) => r matches Ok(v) && list_view(v@) == done,
            Err(e) => r == Err::<Vec<(Block, ModifierFlags)>, BiomeReadError>(e),
        },
{
    let ghost entries = blocks.progress().entries;
    let mut done: Vec<(Block, ModifierFlags)> = Vec::new();
    let mut k: usize = 0;
    assert(list@.take(0) =~= Seq::<BlockListEntry>::empty());
    assert(list_view(done@) =~= Seq::<(u8, ModifierFlags)>::empty());
    while k < list.len()
        invariant
            k <= list@.len(),
            entries == blocks.progress().entries,
            read_list(list@, entries) is Some,
            read_list(list@.take(k as int), entries) == Some(Ok::<Seq<(u8, ModifierFlags)>, BiomeReadError>(list_view(done@))),
        decreases list@.len() - k,
    {
        proof {
            lemma_read_list_prefix(list@, entries, k as int);
            assert(list@.take(k + 1).drop_last() =~= list@.take(k as int));
        }
        let entry = &list[k];
        let name = match &entry.Name {
            Some(n) => n,
            None => {
                proof {
                    lemma_read_list_refusal_stays(list@, entries, k + 1);
                }
                return Err(BiomeReadError::MissingBlockName);
            },
        };
        let id = match FindBlock(blocks, name) {
            Some(id) => id,
            None => {
                proof {
                    lemma_read_list_refusal_stays(list@, entries, k + 1);
                }
                assert(false);
                return Err(BiomeReadError::MissingBlockName);
            },
        };
        let flags = match ReadHeightModifier(&entry.Modifier) {
            Ok(f) => f,
            Err(e) => {
                proof {
                    lemma_read_list_refusal_stays(list@, entries, k + 1);
                }
                return Err(e);
            },
        };
        let ghost prev = list_view(done@);
        done.push((Block { ID: id }, flags));
        assert(list_view(done@) =~= prev.push((id, flags)));
        k += 1;
    }
    assert(list@.take(k as int) =~= list@);
    Ok(done)
}

/// A list whose reading does not fail has no prefix whose reading fails.
proof fn lemma_read_list_prefix(list: Seq<BlockListEntry>, blocks: Seq<EntryView>, j: int)
    requires
        0 <= j <= list.len(),
        read_list(list, blocks) is Some,
    ensures
        read_list(list.take(j), blocks) is Some,
    decreases list.len() - j,
{
    if j < list.len() {
        lemma_read_list_prefix(list, blocks, j + 1);
        assert(list.take(j + 1).drop_last() =~= list.take(j));
    } else {
        assert(list.take(j) =~= list);
    }
}

/// Once reading a prefix of a list is refused, or fails, reading all of it
/// ends the same way.
proof fn lemma_read_list_refusal_stays(list: Seq<BlockListEntry>, blocks: Seq<EntryView>, j: int)
    requires
        0 <= j <= list.len(),
        !(read_list(list.take(j), blocks) matches Some(Ok(_))),
    ensures
        read_list(list, blocks) == read_list(list.take(j), blocks),
    decreases list.len() - j,
{
    if j < list.len() {
        assert(list.take(j + 1).drop_last() =~= list.take(j));
        lemma_read_list_refusal_stays(list, blocks, j + 1);
    } else {
        assert(list.take(j) =~= list);
    }
}


/// Reads biome description `d` against the registered blocks (see
/// `read_biome`); the floating-point values of the description stay with
/// the caller.
pub fn ReadBiomeDescription(d: &BiomeDescription, blocks: &BlockRegistry) -> (r: Result<GenerationPlan, BiomeReadError>)
    requires
        read_biome(*d, blocks.progress().entries) is Some,
    ensures
        match read_biome(*d, blocks.progress().entries)->0 {
            Ok(p) => r matches Ok(plan) && plan@ == p,
            Err(e) => r == Err::<GenerationPlan, BiomeReadError>(e),
        },
{
    let caveModifier = match &d.Cave {
        None => {
            return Err(BiomeReadError::MissingCave);
        },
        Some((hasCutoff, m)) => {
            if !*hasCutoff {
                return Err(BiomeReadError::MissingCaveCutoff);
            }
            match ReadHeightModifier(m) {
                Ok(flags) => flags,
                Err(e) => {
                    return Err(e);
                },
            }
        },
    };
    let heightLevel = match d.HeightLevel {
        Some(v) => v as u32,
        None => {
            return Err(BiomeReadError::MissingHeightLevel);
        },
    };
    let surfaceAmplitude = match d.SurfaceAmplitude {
        Some(v) => v as u32,
        None => {
            return Err(BiomeReadError::MissingSurfaceAmplitude);
        },
    };
    let seaLevel = match d.SeaLevel {
        Some(v) => v as u32,
        None => {
            return Err(BiomeReadError::MissingSeaLevel);
        },
    };
    let crust = match &d.Crust {
        Some(list) => match ReadBlockList(list, blocks) {
            Ok(v) => v,
            Err(e) => {
                return Err(e);
            },
        },
        None => {
            return Err(BiomeReadError::MissingCrust);
        },
    };
    let mantle = match &d.Mantle {
        Some(name) => match FindBlock(blocks, name) {
            Some(id) => Some(Block { ID: id }),
            None => {
                assert(false);
                None
            },
        },
        None => None,
    };
    let mantleMin = match d.MantleMinLength {
        Some(v) => v as u32,
        None => {
            return Err(BiomeReadError::MissingMantleMinLength);
        },
    };
    let mantleMax = match d.MantleMaxLength {
        Some(v) => v as u32,
        None => {
            return Err(BiomeReadError::MissingMantleMaxLength);
        },
    };
    let core = match &d.Core {
        Some(name) => match FindBlock(blocks, name) {
            Some(id) => Block { ID: id },
            None => {
                assert(false);
                Block { ID: 0 }
            },
        },
        None => {
            return Err(BiomeReadError::MissingCore);
        },
    };
    let ores = match &d.Ores {
        None => {
            return Err(BiomeReadError::MissingOres);
        },
        Some((hasCutoff, list)) => {
            if !*hasCutoff {
                return Err(BiomeReadError::MissingOreCutoff);
            }
            match list {
                None => {
                    return Err(BiomeReadError::MissingOreBlocks);
                },
                Some(l) => match ReadBlockList(l, blocks) {
                    Ok(v) => v,
                    Err(e) => {
                        return Err(e);
                    },
                },
            }
        },
    };
    let forest = "Forest".to_owned();
    proof {
        reveal_strlit("Forest");
        assert(forest@ =~= forest_name());
    }
    if d.Name != forest {
        return Err(BiomeReadError::UnsupportedBiome);
    }
    Ok(GenerationPlan {
        Biome: Biome::Forest,
        CaveModifier: caveModifier,
        HeightLevel: heightLevel,
        SurfaceAmplitude: surfaceAmplitude,
        SeaLevel: seaLevel,
        Crust: crust,
        Mantle: mantle,
        MantleRange: (mantleMin, mantleMax),
        Core: core,
        Ores: ores,
    })
}

} // verus!
