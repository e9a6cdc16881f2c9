use vstd::prelude::*;
use std::collections::HashMap;
use super::item::ItemID;
use super::{decimal, append_decimal};

verus! {

broadcast use vstd::std_specs::hash::group_hash_axioms;

/// How well one crafting grid matches another.
#[derive(Debug, PartialEq, Eq, Structural)]
pub enum MatchType {
    TotalMatch,
    PartialMatch(u32),
    ZeroMatch,
}

/// A square crafting grid of item ids, stored row by row.
#[derive(Clone)]
pub struct CraftingRecipe {
    Grid: Vec<ItemID>,
    Rows: u32,
    Cols: u32,
}

/// The item ids of a grid, as plain bytes.
pub open spec fn ids_of(grid: Seq<ItemID>) -> Seq<u8> {
    grid.map_values(|x: ItemID| x.ID)
}

/// The state of the matching scan after some prefix of the two grids:
/// the unmatched item counts seen in each grid, the running score, and
/// whether every cell so far held the same item in both grids.
pub struct MatchScan {
    pub selfPending: Seq<int>,
    pub otherPending: Seq<int>,
    pub score: int,
    pub same: bool,
}

pub open spec fn scan_start() -> MatchScan {
    MatchScan {
        selfPending: Seq::new(256, |i: int| 0int),
        otherPending: Seq::new(256, |i: int| 0int),
        score: 0,
        same: true,
    }
}

/// One cell of the scan: `a` is this grid's item, `b` the other grid's item.
/// A cell scores one point when both grids hold the same item there, and one
/// more when an item of one grid can be paired with an unpaired item of the
/// other grid seen so far.
pub open spec fn scan_step(st: MatchScan, a: u8, b: u8) -> MatchScan {
    let s1 = st.selfPending.update(a as int, st.selfPending[a as int] + 1);
    let o1 = st.otherPending.update(b as int, st.otherPending[b as int] + 1);
    let score1 = if a == b { st.score + 1 } else { st.score };
    let same1 = st.same && a == b;
    if s1[b as int] > 0 {
        MatchScan {
            selfPending: s1.update(b as int, s1[b as int] - 1),
            otherPending: o1.update(b as int, o1[b as int] - 1),
            score: score1 + 1,
            same: same1,
        }
    } else if o1[a as int] > 0 {
        MatchScan {
            selfPending: s1.update(a as int, s1[a as int] - 1),
            otherPending: o1.update(a as int, o1[a as int] - 1),
            score: score1 + 1,
            same: same1,
        }
    } else {
        MatchScan { selfPending: s1, otherPending: o1, score: score1, same: same1 }
    }
}

/// The scan over the first `k` cells of grids `a` and `b`.
pub open spec fn scan(a: Seq<u8>, b: Seq<u8>, k: nat) -> MatchScan
    decreases k,
{
    if k == 0 {
        scan_start()
    } else {
        scan_step(scan(a, b, (k - 1) as nat), a[k - 1], b[k - 1])
    }
}

/// What `MatchType` answers for two recipes.
pub open spec fn match_result(a: CraftingRecipe, b: CraftingRecipe) -> MatchType {
    if a.rows() != b.rows() || a.cols() != b.cols() {
        MatchType::ZeroMatch
    } else {
        let st = scan(ids_of(a.grid()), ids_of(b.grid()), (a.rows() * a.cols()) as nat);
        if st.same {
            MatchType::TotalMatch
        } else {
            MatchType::PartialMatch(st.score as u32)
        }
    }
}

/// Two recipes are equal when their dimensions agree and their grids agree
/// on every cell that both hold.
pub open spec fn recipes_equal(a: CraftingRecipe, b: CraftingRecipe) -> bool {
    &&& a.rows() == b.rows()
    &&& a.cols() == b.cols()
    &&& forall|i: int|
        0 <= i < a.grid().len() && i < b.grid().len() ==> #[trigger] a.grid()[i] == b.grid()[i]
}

/// The message for a grid of `rows` by `cols` that is not a non-empty square.
pub open spec fn grid_dimension_error_text(rows: u32, cols: u32) -> Seq<char> {
    "Error! Invalid crafting grid dimensions of "@ + decimal(rows as nat) + " rows and "@ + decimal(cols as nat)
        + " columns!"@
}

/// The message for a grid of `rows` by `cols` that is not a non-empty
/// square, each count written in decimal.
fn grid_dimension_error(rows: u32, cols: u32) -> (r: String)
    ensures
        r@ == grid_dimension_error_text(rows, cols),
{
    let mut msg = String::from_str("Error! Invalid crafting grid dimensions of ");
    append_decimal(&mut msg, rows);
    msg.append(" rows and ");
    append_decimal(&mut msg, cols);
    msg.append(" columns!");
    assert(msg@ =~= grid_dimension_error_text(rows, cols));
    msg
}

proof fn lemma_scan_bounds(a: Seq<u8>, b: Seq<u8>, k: nat)
    requires
        k <= a.len(),
        k <= b.len(),
    ensures
        scan(a, b, k).selfPending.len() == 256,
        scan(a, b, k).otherPending.len() == 256,
        forall|x: int| 0 <= x < 256 ==> 0 <= #[trigger] scan(a, b, k).selfPending[x] <= k,
        forall|x: int| 0 <= x < 256 ==> 0 <= #[trigger] scan(a, b, k).otherPending[x] <= k,
        0 <= scan(a, b, k).score <= 2 * k,
        scan(a, b, k).same <==> (forall|i: int| 0 <= i < k ==> a[i] == b[i]),
    decreases k,
{
    if k > 0 {
        lemma_scan_bounds(a, b, (k - 1) as nat);
        let prev = scan(a, b, (k - 1) as nat);
        assert forall|x: int| 0 <= x < 256 implies 0 <= #[trigger] scan(a, b, k).selfPending[x] <= k by {
        }
        assert forall|x: int| 0 <= x < 256 implies 0 <= #[trigger] scan(a, b, k).otherPending[x] <= k by {
        }
        if scan(a, b, k).same {
            assert forall|i: int| 0 <= i < k implies a[i] == b[i] by {
                if i < k - 1 {
                }
            }
        }
    }
}

impl CraftingRecipe {
    pub closed spec fn grid(self) -> Seq<ItemID> {
        self.Grid@
    }

    pub closed spec fn rows(self) -> u32 {
        self.Rows
    }

    pub closed spec fn cols(self) -> u32 {
        self.Cols
    }

    /// Builds a recipe from item ids; the grid must be square and not empty.
    pub fn New(grid: Vec<u8>, rows: u32, cols: u32) -> (r: Result<Self, String>)
        ensures
            match r {
                Ok(recipe) => {
                    &&& rows == cols
                    &&& rows > 0
                    &&& recipe.rows() == rows
                    &&& recipe.cols() == cols
                    &&& ids_of(recipe.grid()) == grid@
                },
                Err(msg) => (rows != cols || rows == 0) && msg@ == grid_dimension_error_text(rows, cols),
            },
    {
        if rows != cols || rows == 0 || cols == 0 {
            return Err(grid_dimension_error(rows, cols));
        }
        let mut itemGrid: Vec<ItemID> = Vec::new();
        let mut i: usize = 0;
        while i < grid.len()
            invariant
                i <= grid.len(),
                itemGrid@.len() == i,
                forall|j: int| 0 <= j < i ==> (#[trigger] itemGrid@[j]).ID == grid@[j],
            decreases grid.len() - i,
        {
            itemGrid.push(ItemID::New(grid[i]));
            i += 1;
        }
        assert(ids_of(itemGrid@) =~= grid@);
        Ok(Self { Grid: itemGrid, Rows: rows, Cols: cols })
    }

    /// Scores how well `other` matches this recipe.
    pub fn MatchType(&self, other: &CraftingRecipe) -> (r: MatchType)
        requires
            self.rows() == other.rows() && self.cols() == other.cols() ==> {
                &&& self.rows() * self.cols() <= self.grid().len()
                &&& self.rows() * self.cols() <= other.grid().len()
                &&& 2 * self.rows() * self.cols() <= u32::MAX
            },
        ensures
            r == match_result(*self, *other),
            r matches MatchType::PartialMatch(score) ==> {
                &&& 2 * agreeing_cells(ids_of(self.grid()), ids_of(other.grid()), (self.rows() * self.cols()) as nat)
                    <= score
                &&& score <= agreeing_cells(ids_of(self.grid()), ids_of(other.grid()), (self.rows() * self.cols()) as nat)
                    + self.rows() * self.cols()
            },
            r == MatchType::TotalMatch <==> {
                &&& self.rows() == other.rows()
                &&& self.cols() == other.cols()
                &&& forall|i: int|
                    0 <= i < self.rows() * self.cols() ==> #[trigger] self.grid()[i] == other.grid()[i]
            },
    {
        if self.Rows != other.Rows || self.Cols != other.Cols {
            return MatchType::ZeroMatch;
        }
        let ghost a = ids_of(self.Grid@);
        let ghost b = ids_of(other.Grid@);
        proof {
            let r = self.Rows as int;
            let c = self.Cols as int;
            assert(2 * r * c == 2 * (r * c)) by (nonlinear_arith);
            assert(r * c >= 0) by (nonlinear_arith)
                requires
                    r >= 0,
                    c >= 0,
            ;
        }
        let n: usize = (self.Rows * self.Cols) as usize;
        let mut selfSet: Vec<u32> = Vec::new();
        let mut otherSet: Vec<u32> = Vec::new();
        let mut k: usize = 0;
        while k < 256
            invariant
                k <= 256,
                selfSet@.len() == k,
                otherSet@.len() == k,
                forall|x: int| 0 <= x < k ==> selfSet@[x] == 0 && otherSet@[x] == 0,
            decreases 256 - k,
        {
            selfSet.push(0);
            otherSet.push(0);
            k += 1;
        }
        let mut matches = true;
        let mut matchCount: u32 = 0;
        let mut idx: usize = 0;
        proof {
            lemma_scan_bounds(a, b, 0);
            assert(selfSet@.map_values(|v: u32| v as int) =~= scan(a, b, 0).selfPending);
            assert(otherSet@.map_values(|v: u32| v as int) =~= scan(a, b, 0).otherPending);
        }
        while idx < n
            invariant
                n == self.rows() * self.cols(),
                n <= a.len(),
                n <= b.len(),
                2 * n <= u32::MAX,
                a == ids_of(self.Grid@),
                b == ids_of(other.Grid@),
                idx <= n,
                selfSet@.len() == 256,
                otherSet@.len() == 256,
                selfSet@.map_values(|v: u32| v as int) == scan(a, b, idx as nat).selfPending,
                otherSet@.map_values(|v: u32| v as int) == scan(a, b, idx as nat).otherPending,
                matchCount as int == scan(a, b, idx as nat).score,
                matches == scan(a, b, idx as nat).same,
            decreases n - idx,
        {
            proof {
                lemma_scan_bounds(a, b, idx as nat);
                lemma_scan_bounds(a, b, (idx + 1) as nat);
            }
            let item1 = self.Grid[idx].ID;
            let item2 = other.Grid[idx].ID;
            let ghost st = scan(a, b, idx as nat);
            assert(item1 == a[idx as int]);
            assert(item2 == b[idx as int]);
            assert(selfSet@[item1 as int] as int == st.selfPending[item1 as int]);
            assert(otherSet@[item2 as int] as int == st.otherPending[item2 as int]);
            let v1 = selfSet[item1 as usize];
            selfSet.set(item1 as usize, v1 + 1);
            let v2 = otherSet[item2 as usize];
            otherSet.set(item2 as usize, v2 + 1);
            if item1 != item2 {
                matches = false;
            } else {
                matchCount += 1;
            }
            if selfSet[item2 as usize] > 0 {
                matchCount += 1;
                let s = selfSet[item2 as usize];
                selfSet.set(item2 as usize, s - 1);
                let o = otherSet[item2 as usize];
                otherSet.set(item2 as usize, o - 1);
            } else if otherSet[item1 as usize] > 0 {
                matchCount += 1;
                let s = selfSet[item1 as usize];
                selfSet.set(item1 as usize, s - 1);
                let o = otherSet[item1 as usize];
                otherSet.set(item1 as usize, o - 1);
            }
            idx += 1;
            proof {
                assert(selfSet@.map_values(|v: u32| v as int) =~= scan(a, b, idx as nat).selfPending);
                assert(otherSet@.map_values(|v: u32| v as int) =~= scan(a, b, idx as nat).otherPending);
            }
        }
        proof {
            lemma_scan_bounds(a, b, n as nat);
            if matches {
                assert forall|i: int| 0 <= i < self.rows() * self.cols() implies #[trigger] self.grid()[i] == other.grid()[i] by {
                    assert(a[i] == b[i]);
                    assert(self.grid()[i].ID == other.grid()[i].ID);
                }
            } else {
                let w = choose|i: int| 0 <= i < n && a[i] != b[i];
                assert(self.grid()[w] != other.grid()[w]);
            }
        }
        if matches {
            return MatchType::TotalMatch;
        }
        proof {
            law_partial_score_counts_agreeing_cells(*self, *other, matchCount);
        }
        MatchType::PartialMatch(matchCount)
    }
}

impl PartialEq for CraftingRecipe {
    fn eq(&self, other: &Self) -> (r: bool) {
        if self.Rows != other.Rows || self.Cols != other.Cols {
            return false;
        }
        let mut i: usize = 0;
        while i < self.Grid.len() && i < other.Grid.len()
            invariant
                i <= self.Grid@.len(),
                i <= other.Grid@.len(),
                forall|j: int| 0 <= j < i ==> self.Grid@[j] == other.Grid@[j],
            decreases self.Grid@.len() - i,
        {
            if self.Grid[i] != other.Grid[i] {
                assert(self.grid()[i as int] != other.grid()[i as int]);
                return false;
            }
            i += 1;
        }
        true
    }
}

impl vstd::std_specs::cmp::PartialEqSpecImpl for CraftingRecipe {
    open spec fn obeys_eq_spec() -> bool {
        true
    }

    open spec fn eq_spec(&self, other: &Self) -> bool {
        recipes_equal(*self, *other)
    }
}

impl Eq for CraftingRecipe {
}

/// The recipes known to the game, keyed by the id of the item they craft.
pub struct CraftingRegistry {
    Recipes: HashMap<u8, CraftingRecipe>,
}

impl CraftingRegistry {
    /// The registry holds finitely many recipes.
    pub closed spec fn wf(self) -> bool {
        self.Recipes@.dom().finite()
    }

    /// The recipe of each item id that has one.
    pub closed spec fn recipes(self) -> Map<u8, CraftingRecipe> {
        self.Recipes@
    }

    pub fn New() -> (r: Self)
        ensures
            r.wf(),
            r.recipes() == Map::<u8, CraftingRecipe>::empty(),
    {
        let r = Self { Recipes: HashMap::new() };
        r
    }

    /// Registers (or replaces) the recipe that crafts `itemID`.
    pub fn AddRecipe(&mut self, itemID: u8, recipe: CraftingRecipe)
        requires
            old(self).wf(),
        ensures
            final(self).wf(),
            final(self).recipes() == old(self).recipes().insert(itemID, recipe),
    {
        self.Recipes.insert(itemID, recipe);
    }

    pub fn DoesRecipeExistFor(&self, item: &ItemID) -> (r: bool)
        requires
            self.wf(),
        ensures
            r == self.recipes().contains_key(item.ID),
    {
        self.Recipes.contains_key(&item.ID)
    }

    pub fn GetRecipeFor(&self, item: &ItemID) -> (r: Option<&CraftingRecipe>)
        requires
            self.wf(),
        ensures
            match r {
                Some(recipe) => self.recipes().contains_key(item.ID) && *recipe
                    == self.recipes()[item.ID],
                None => !self.recipes().contains_key(item.ID),
            },
    {
        self.Recipes.get(&item.ID)
    }

    /// Finds the item whose recipe equals `recipe`; of several, the one with the smallest id.
    pub fn MatchRecipe(&self, recipe: &CraftingRecipe) -> (r: Option<ItemID>)
        requires
            self.wf(),
        ensures
            match r {
                Some(id) => {
                    &&& self.recipes().contains_key(id.ID)
                    &&& recipes_equal(self.recipes()[id.ID], *recipe)
                    &&& self.recipes()[id.ID].rows() == recipe.rows()
                    &&& self.recipes()[id.ID].cols() == recipe.cols()
                    &&& forall|i: int|
                        0 <= i < recipe.grid().len() && i < self.recipes()[id.ID].grid().len()
                            ==> #[trigger] self.recipes()[id.ID].grid()[i] == recipe.grid()[i]
                    &&& forall|k: u8|
                        k < id.ID && #[trigger] self.recipes().contains_key(k) ==> !recipes_equal(
                            self.recipes()[k],
                            *recipe,
                        )
                },
                None => forall|k: u8| #[trigger]
                    self.recipes().contains_key(k) ==> !recipes_equal(self.recipes()[k], *recipe),
            },
    {
        let mut i: u32 = 0;
        while i < 256
            invariant
                i <= 256,
                forall|k: u8|
                    k < i && #[trigger] self.recipes().contains_key(k) ==> !recipes_equal(
                        self.recipes()[k],
                        *recipe,
                    ),
            decreases 256 - i,
        {
            let key = i as u8;
            assert(key == i);
            match self.Recipes.get(&key) {
                Some(candidate) => {
                    if candidate.eq(recipe) {
                        return Some(ItemID::New(key));
                    }
                },
                None => {},
            }
            i += 1;
        }
        None
    }
}


/// Whether two recipes match totally does not depend on which one asks.
pub proof fn law_total_match_is_symmetric(a: CraftingRecipe, b: CraftingRecipe)
    requires
        a.rows() * a.cols() <= a.grid().len(),
        b.rows() * b.cols() <= b.grid().len(),
    ensures
        (match_result(a, b) == MatchType::TotalMatch) == (match_result(b, a) == MatchType::TotalMatch),
{
    if a.rows() == b.rows() && a.cols() == b.cols() {
        let n = (a.rows() * a.cols()) as nat;
        assert(ids_of(a.grid()).len() == a.grid().len());
        assert(ids_of(b.grid()).len() == b.grid().len());
        lemma_scan_bounds(ids_of(a.grid()), ids_of(b.grid()), n);
        lemma_scan_bounds(ids_of(b.grid()), ids_of(a.grid()), n);
    }
}

/// How many of the first `k` cells hold the same item in both grids.
pub open spec fn agreeing_cells(a: Seq<u8>, b: Seq<u8>, k: nat) -> nat
    decreases k,
{
    if k == 0 {
        0
    } else {
        agreeing_cells(a, b, (k - 1) as nat) + if a[k - 1] == b[k - 1] {
            1nat
        } else {
            0nat
        }
    }
}

/// Two recipes are equal only when they have the same dimensions and every
/// cell of the grid, row after row up to `rows * cols`, holds the same item
/// in both; and two recipes of the same dimensions whose grids hold the same
/// items are equal.
pub proof fn law_equal_recipes_agree_cell_for_cell(a: CraftingRecipe, b: CraftingRecipe)
    requires
        a.rows() * a.cols() <= a.grid().len(),
        b.rows() * b.cols() <= b.grid().len(),
    ensures
        recipes_equal(a, b) ==> {
            &&& a.rows() == b.rows()
            &&& a.cols() == b.cols()
            &&& forall|i: int| 0 <= i < a.rows() * a.cols() ==> #[trigger] a.grid()[i] == b.grid()[i]
        },
        a.rows() == b.rows() && a.cols() == b.cols() && a.grid() == b.grid() ==> recipes_equal(a, b),
{
    if recipes_equal(a, b) {
        assert forall|i: int| 0 <= i < a.rows() * a.cols() implies #[trigger] a.grid()[i] == b.grid()[i] by {
            assert(i < a.grid().len() && i < b.grid().len());
        }
    }
}

/// Scoring one cell: a cell that holds the same item in both grids adds two
/// points (one for the place, one for the pair it makes); any other cell adds
/// at most one (for pairing an item seen earlier in the other grid).
pub proof fn law_matching_cell_scores_two(a: Seq<u8>, b: Seq<u8>, k: nat)
    requires
        k < a.len(),
        k < b.len(),
    ensures
        a[k as int] == b[k as int] ==> scan(a, b, k + 1).score == scan(a, b, k).score + 2,
        a[k as int] != b[k as int] ==> scan(a, b, k).score <= scan(a, b, k + 1).score <= scan(a, b, k).score + 1,
{
    lemma_scan_bounds(a, b, k);
    assert(scan(a, b, k + 1) == scan_step(scan(a, b, k), a[k as int], b[k as int]));
}

/// The score after `k` cells lies between twice the number of cells that
/// agree and that number plus `k`.
proof fn lemma_score_bounds(a: Seq<u8>, b: Seq<u8>, k: nat)
    requires
        k <= a.len(),
        k <= b.len(),
    ensures
        2 * agreeing_cells(a, b, k) <= scan(a, b, k).score <= agreeing_cells(a, b, k) + k,
    decreases k,
{
    if k > 0 {
        lemma_score_bounds(a, b, (k - 1) as nat);
        law_matching_cell_scores_two(a, b, (k - 1) as nat);
    }
}

/// A partial match of two recipes of the same dimensions scores at least two
/// points for each cell that holds the same item in both grids, and at most
/// one more point for each cell of the grid.
pub proof fn law_partial_score_counts_agreeing_cells(x: CraftingRecipe, y: CraftingRecipe, s: u32)
    requires
        x.rows() == y.rows(),
        x.cols() == y.cols(),
        x.rows() * x.cols() <= x.grid().len(),
        y.rows() * y.cols() <= y.grid().len(),
        2 * x.rows() * x.cols() <= u32::MAX,
        match_result(x, y) == MatchType::PartialMatch(s),
    ensures
        2 * agreeing_cells(ids_of(x.grid()), ids_of(y.grid()), (x.rows() * x.cols()) as nat) <= s,
        s <= agreeing_cells(ids_of(x.grid()), ids_of(y.grid()), (x.rows() * x.cols()) as nat) + x.rows() * x.cols(),
{
    let n = (x.rows() * x.cols()) as nat;
    let a = ids_of(x.grid());
    let b = ids_of(y.grid());
    assert(2 * x.rows() * x.cols() == 2 * (x.rows() * x.cols())) by (nonlinear_arith);
    assert(x.rows() * x.cols() >= 0) by (nonlinear_arith)
        requires
            x.rows() >= 0,
            x.cols() >= 0,
    ;
    lemma_scan_bounds(a, b, n);
    lemma_score_bounds(a, b, n);
}

} // verus!
