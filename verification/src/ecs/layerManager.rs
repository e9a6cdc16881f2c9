use vstd::prelude::*;
use super::constants::{MAX_COMPONENT_TYPES, MAX_LAYERS};
use super::bits::{IdBitSet, bitset_contents, bitset_with_capacity, bitset_insert};

verus! {

/// The set of layer indices an entity belongs to.
pub struct LayerMask {
    bitSet: IdBitSet,
}

impl LayerMask {
    pub closed spec fn view(&self) -> Set<usize> {
        bitset_contents(self.bitSet)
    }

    /// The mask of no layer.
    pub(crate) fn New() -> (r: LayerMask)
        ensures
            r@ == Set::<usize>::empty(),
    {
        LayerMask { bitSet: bitset_with_capacity(MAX_LAYERS) }
    }
}

/// No name appears twice.
pub open spec fn distinct_names(names: Seq<Seq<char>>) -> bool {
    forall|i: int, j: int| 0 <= i < j < names.len() ==> names[i] != names[j]
}

/// Hands out dense indices to layer names, in the order they are added.
pub struct LayerManager {
    layerNameToIndex: Vec<String>,
}

impl LayerManager {
    /// The layer names; each one's index is its position.
    pub closed spec fn layers(&self) -> Seq<Seq<char>> {
        self.layerNameToIndex@.map_values(|s: String| s@)
    }

    pub closed spec fn wf(&self) -> bool {
        &&& distinct_names(self.layers())
        &&& self.layers().len() < MAX_COMPONENT_TYPES
    }

    pub fn New() -> (r: LayerManager)
        ensures
            r.wf(),
            r.layers() == Seq::<Seq<char>>::empty(),
    {
        let r = LayerManager { layerNameToIndex: Vec::new() };
        assert(r.layers() =~= Seq::<Seq<char>>::empty());
        r
    }

    /// The index of layer `layerName`, if there is one.
    fn FindLayer(&self, layerName: &str) -> (r: Option<usize>)
        requires
            self.wf(),
        ensures
            match r {
                Some(i) => i < self.layers().len() && self.layers()[i as int] == layerName@,
                None => !self.layers().contains(layerName@),
            },
    {
        let key = layerName.to_owned();
        let mut i: usize = 0;
        while i < self.layerNameToIndex.len()
            invariant
                i <= self.layers().len(),
                self.layers().len() == self.layerNameToIndex@.len(),
                key@ == layerName@,
                forall|k: int| 0 <= k < i ==> self.layers()[k] != layerName@,
            decreases self.layers().len() - i,
        {
            if self.layerNameToIndex[i] == key {
                return Some(i);
            }
            i += 1;
        }
        None
    }

    /// Whether there is a layer called `layerName`.
    pub fn HasLayer(&self, layerName: &str) -> (r: bool)
        requires
            self.wf(),
        ensures
            r == self.layers().contains(layerName@),
    {
        self.FindLayer(layerName).is_some()
    }

    /// Adds a layer; the name must be new and room must be left for it.
    pub fn AddLayer(&mut self, layerName: &str)
        requires
            old(self).wf(),
            !old(self).layers().contains(layerName@),
            old(self).layers().len() + 1 < MAX_COMPONENT_TYPES,
        ensures
            final(self).wf(),
            final(self).layers() == old(self).layers().push(layerName@),
    {
        self.layerNameToIndex.push(layerName.to_owned());
        assert(self.layers() =~= old(self).layers().push(layerName@));
    }

    /// The mask of the single layer `layerName`.
    pub fn GetLayerMaskFromLayer(&self, layerName: &str) -> (r: LayerMask)
        requires
            self.wf(),
            self.layers().contains(layerName@),
        ensures
            r@ == set![self.layers().index_of(layerName@) as usize],
    {
        let mut mask = LayerMask::New();
        let index = self.GetLayerIndexByName(layerName);
        bitset_insert(&mut mask.bitSet, index);
        assert(mask@ =~= set![self.layers().index_of(layerName@) as usize]);
        mask
    }

    /// The mask of the layers `layerNames`.
    pub fn GetLayerMaskFromLayers(&self, layerNames: Vec<&str>) -> (r: LayerMask)
        requires
            self.wf(),
            forall|i: int| 0 <= i < layerNames@.len() ==> self.layers().contains(#[trigger] layerNames@[i]@),
        ensures
            r@ == Set::new(
                |k: usize| exists|i: int| 0 <= i < layerNames@.len() && k == self.layers().index_of(#[trigger] layerNames@[i]@),
            ),
    {
        let mut mask = LayerMask::New();
        self.AddLayersToMask(layerNames, &mut mask);
        assert(mask@ =~= Set::new(
            |k: usize| exists|i: int| 0 <= i < layerNames@.len() && k == self.layers().index_of(#[trigger] layerNames@[i]@),
        ));
        mask
    }

    /// Adds layer `layerName` to `mask`.
    pub fn AddLayerToMask(&self, layerName: &str, mask: &mut LayerMask)
        requires
            self.wf(),
            self.layers().contains(layerName@),
        ensures
            final(mask)@ == old(mask)@.insert(self.layers().index_of(layerName@) as usize),
    {
        let index = self.GetLayerIndexByName(layerName);
        bitset_insert(&mut mask.bitSet, index);
    }

    /// Adds the layers `layerNames` to `mask`.
    pub fn AddLayersToMask(&self, layerNames: Vec<&str>, mask: &mut LayerMask)
        requires
            self.wf(),
            forall|i: int| 0 <= i < layerNames@.len() ==> self.layers().contains(#[trigger] layerNames@[i]@),
        ensures
            final(mask)@ == old(mask)@ + Set::new(
                |k: usize| exists|i: int| 0 <= i < layerNames@.len() && k == self.layers().index_of(#[trigger] layerNames@[i]@),
            ),
    {
        let ghost added = Set::new(
            |k: usize| exists|i: int| 0 <= i < layerNames@.len() && k == self.layers().index_of(#[trigger] layerNames@[i]@),
        );
        let mut n: usize = 0;
        while n < layerNames.len()
            invariant
                self.wf(),
                n <= layerNames@.len(),
                forall|i: int| 0 <= i < layerNames@.len() ==> self.layers().contains(#[trigger] layerNames@[i]@),
                mask@ == old(mask)@ + Set::new(
                    |k: usize| exists|i: int| 0 <= i < n && k == self.layers().index_of(#[trigger] layerNames@[i]@),
                ),
            decreases layerNames@.len() - n,
        {
            let name = layerNames[n];
            let index = self.GetLayerIndexByName(name);
            bitset_insert(&mut mask.bitSet, index);
            n += 1;
            assert(mask@ =~= old(mask)@ + Set::new(
                |k: usize| exists|i: int| 0 <= i < n && k == self.layers().index_of(#[trigger] layerNames@[i]@),
            )) by {
                assert(layerNames@[n - 1]@ == name@);
            }
        }
        assert(mask@ =~= old(mask)@ + added);
    }

    /// How many layers there are.
    pub fn GetLayerCount(&self) -> (r: usize)
        ensures
            r == self.layers().len(),
    {
        self.layerNameToIndex.len()
    }

    fn GetLayerIndexByName(&self, layerName: &str) -> (r: usize)
        requires
            self.wf(),
            self.layers().contains(layerName@),
        ensures
            r == self.layers().index_of(layerName@),
            r < self.layers().len(),
            r < usize::MAX,
    {
        match self.FindLayer(layerName) {
            Some(i) => {
                proof {
                    let names = self.layers();
                    assert(names[names.index_of(layerName@)] == layerName@);
                    let c = names.index_of(layerName@);
                    if c < i {
                        assert(names[c] != names[i as int]);
                    } else if c > i {
                        assert(names[i as int] != names[c]);
                    }
                }
                i
            },
            None => {
                assert(false);
                0
            },
        }
    }
}

/// A layer manager never holds two layers of one name.
pub proof fn law_layer_names_are_distinct(layers: LayerManager)
    requires
        layers.wf(),
    ensures
        distinct_names(layers.layers()),
{
}

} // verus!
