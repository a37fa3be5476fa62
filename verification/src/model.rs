//! The grid data model: gas mixtures, tiles, Z-levels and the records the
//! engine emits.

use crate::constants::{
    AXIS_X, AXIS_Y, GAS_AGENT_B, GAS_CARBON_DIOXIDE, GAS_COUNT, GAS_NITROGEN, GAS_OXYGEN,
    GAS_SLEEPING_AGENT, GAS_TOXINS, MAP_SIZE, OPEN_HEAT_TRANSFER_COEFFICIENT, R_IDEAL_GAS,
    SPECIFIC_HEAT_AGENT_B, SPECIFIC_HEAT_CARBON_DIOXIDE, SPECIFIC_HEAT_NITROGEN,
    SPECIFIC_HEAT_OXYGEN, SPECIFIC_HEAT_SLEEPING_AGENT, SPECIFIC_HEAT_TOXINS, TILE_VOLUME,
};
use crate::fixnum::{fix, spec_add, spec_div, spec_mul, Fix};
use vstd::prelude::*;

verus! {

/// Ghost image of a [`GasMixture`].
#[verifier::ext_equal]
pub ghost struct GasV {
    pub values: Seq<Fix>,
    pub dirty: bool,
}

/// An ordered vector of `GAS_COUNT` mole counts, plus a mark telling the
/// host that the mixture changed since it last rendered it.
pub struct GasMixture {
    pub values: Vec<Fix>,
    pub dirty: bool,
}

impl View for GasMixture {
    type V = GasV;

    open spec fn view(&self) -> GasV {
        GasV { values: self.values@, dirty: self.dirty }
    }
}

/// Shape invariant: a mixture tracks exactly the recognized gases.
pub open spec fn gm_wf(g: GasV) -> bool {
    g.values.len() == GAS_COUNT
}

/// Specific heat of one gas.
pub open spec fn spec_specific_heat(i: int) -> Fix {
    if i == GAS_OXYGEN {
        fix(SPECIFIC_HEAT_OXYGEN)
    } else if i == GAS_CARBON_DIOXIDE {
        fix(SPECIFIC_HEAT_CARBON_DIOXIDE)
    } else if i == GAS_NITROGEN {
        fix(SPECIFIC_HEAT_NITROGEN)
    } else if i == GAS_TOXINS {
        fix(SPECIFIC_HEAT_TOXINS)
    } else if i == GAS_SLEEPING_AGENT {
        fix(SPECIFIC_HEAT_SLEEPING_AGENT)
    } else if i == GAS_AGENT_B {
        fix(SPECIFIC_HEAT_AGENT_B)
    } else {
        fix(0)
    }
}

/// Total moles: the left-to-right sum of the mole counts.
pub open spec fn spec_moles_seq(s: Seq<Fix>) -> Fix
    decreases s.len(),
{
    if s.len() == 0 {
        fix(0)
    } else {
        spec_add(spec_moles_seq(s.drop_last()), s.last())
    }
}

/// Heat capacity: the mole-weighted sum of specific heats.
pub open spec fn spec_heat_capacity_seq(s: Seq<Fix>) -> Fix
    decreases s.len(),
{
    if s.len() == 0 {
        fix(0)
    } else {
        spec_add(
            spec_heat_capacity_seq(s.drop_last()),
            spec_mul(s.last(), spec_specific_heat(s.len() - 1)),
        )
    }
}

pub open spec fn spec_moles(g: GasV) -> Fix {
    spec_moles_seq(g.values)
}

pub open spec fn spec_heat_capacity(g: GasV) -> Fix {
    spec_heat_capacity_seq(g.values)
}

pub fn specific_heat(i: usize) -> (r: Fix)
    ensures
        r == spec_specific_heat(i as int),
{
    if i == GAS_OXYGEN {
        Fix::of(SPECIFIC_HEAT_OXYGEN)
    } else if i == GAS_CARBON_DIOXIDE {
        Fix::of(SPECIFIC_HEAT_CARBON_DIOXIDE)
    } else if i == GAS_NITROGEN {
        Fix::of(SPECIFIC_HEAT_NITROGEN)
    } else if i == GAS_TOXINS {
        Fix::of(SPECIFIC_HEAT_TOXINS)
    } else if i == GAS_SLEEPING_AGENT {
        Fix::of(SPECIFIC_HEAT_SLEEPING_AGENT)
    } else if i == GAS_AGENT_B {
        Fix::of(SPECIFIC_HEAT_AGENT_B)
    } else {
        Fix::zero()
    }
}

impl GasMixture {
    /// An empty mixture: every gas at zero, not marked dirty.
    pub fn new() -> (r: GasMixture)
        ensures
            gm_wf(r@),
            forall|i: int| 0 <= i < GAS_COUNT ==> r@.values[i] == fix(0),
            !r@.dirty,
    {
        let mut values: Vec<Fix> = Vec::new();
        let mut i: usize = 0;
        while i < GAS_COUNT
            invariant
                i <= GAS_COUNT,
                values@.len() == i,
                forall|j: int| 0 <= j < i ==> values@[j] == fix(0),
            decreases GAS_COUNT - i,
        {
            values.push(Fix::zero());
            i = i + 1;
        }
        GasMixture { values, dirty: false }
    }

    pub fn moles(&self) -> (r: Fix)
        ensures
            r == spec_moles(self@),
    {
        let mut acc = Fix::zero();
        let mut i: usize = 0;
        while i < self.values.len()
            invariant
                i <= self.values.len(),
                acc == spec_moles_seq(self.values@.take(i as int)),
            decreases self.values.len() - i,
        {
            proof {
                assert(self.values@.take(i + 1 as int).drop_last() =~= self.values@.take(
                    i as int,
                ));
            }
            acc = acc.add(self.values[i]);
            i = i + 1;
        }
        proof {
            assert(self.values@.take(self.values@.len() as int) =~= self.values@);
        }
        acc
    }

    pub fn heat_capacity(&self) -> (r: Fix)
        ensures
            r == spec_heat_capacity(self@),
    {
        let mut acc = Fix::zero();
        let mut i: usize = 0;
        while i < self.values.len()
            invariant
                i <= self.values.len(),
                acc == spec_heat_capacity_seq(self.values@.take(i as int)),
            decreases self.values.len() - i,
        {
            proof {
                assert(self.values@.take(i + 1 as int).drop_last() =~= self.values@.take(
                    i as int,
                ));
            }
            acc = acc.add(self.values[i].mul(specific_heat(i)));
            i = i + 1;
        }
        proof {
            assert(self.values@.take(self.values@.len() as int) =~= self.values@);
        }
        acc
    }

    pub fn set_dirty(&mut self)
        ensures
            final(self)@ == (GasV { dirty: true, ..old(self)@ }),
    {
        self.dirty = true;
    }

    /// Copies another mixture's mole counts and marks this one dirty.
    pub fn copy_from(&mut self, other: &GasMixture)
        ensures
            final(self)@.values == other@.values,
            final(self)@.dirty,
    {
        let mut values: Vec<Fix> = Vec::new();
        let mut i: usize = 0;
        while i < other.values.len()
            invariant
                i <= other.values.len(),
                values@ =~= other.values@.take(i as int),
            decreases other.values.len() - i,
        {
            values.push(other.values[i]);
            i = i + 1;
        }
        proof {
            assert(other.values@.take(other.values@.len() as int) =~= other.values@);
        }
        self.values = values;
        self.dirty = true;
    }

    pub fn oxygen(&self) -> (r: Fix)
        requires
            gm_wf(self@),
        ensures
            r == self@.values[GAS_OXYGEN as int],
    {
        self.values[GAS_OXYGEN]
    }

    pub fn carbon_dioxide(&self) -> (r: Fix)
        requires
            gm_wf(self@),
        ensures
            r == self@.values[GAS_CARBON_DIOXIDE as int],
    {
        self.values[GAS_CARBON_DIOXIDE]
    }

    pub fn nitrogen(&self) -> (r: Fix)
        requires
            gm_wf(self@),
        ensures
            r == self@.values[GAS_NITROGEN as int],
    {
        self.values[GAS_NITROGEN]
    }

    pub fn toxins(&self) -> (r: Fix)
        requires
            gm_wf(self@),
        ensures
            r == self@.values[GAS_TOXINS as int],
    {
        self.values[GAS_TOXINS]
    }

    pub fn sleeping_agent(&self) -> (r: Fix)
        requires
            gm_wf(self@),
        ensures
            r == self@.values[GAS_SLEEPING_AGENT as int],
    {
        self.values[GAS_SLEEPING_AGENT]
    }

    pub fn agent_b(&self) -> (r: Fix)
        requires
            gm_wf(self@),
        ensures
            r == self@.values[GAS_AGENT_B as int],
    {
        self.values[GAS_AGENT_B]
    }

    /// Sets one gas and marks the mixture dirty.
    pub fn set_gas(&mut self, gas: usize, v: Fix)
        requires
            gas < old(self)@.values.len(),
        ensures
            final(self)@.values == old(self)@.values.update(gas as int, v),
            final(self)@.dirty,
    {
        self.values[gas] = v;
        self.dirty = true;
    }

    pub fn set_oxygen(&mut self, v: Fix)
        requires
            gm_wf(old(self)@),
        ensures
            final(self)@.values == old(self)@.values.update(GAS_OXYGEN as int, v),
            final(self)@.dirty,
    {
        self.set_gas(GAS_OXYGEN, v);
    }

    pub fn set_carbon_dioxide(&mut self, v: Fix)
        requires
            gm_wf(old(self)@),
        ensures
            final(self)@.values == old(self)@.values.update(GAS_CARBON_DIOXIDE as int, v),
            final(self)@.dirty,
    {
        self.set_gas(GAS_CARBON_DIOXIDE, v);
    }

    pub fn set_nitrogen(&mut self, v: Fix)
        requires
            gm_wf(old(self)@),
        ensures
            final(self)@.values == old(self)@.values.update(GAS_NITROGEN as int, v),
            final(self)@.dirty,
    {
        self.set_gas(GAS_NITROGEN, v);
    }

    pub fn set_toxins(&mut self, v: Fix)
        requires
            gm_wf(old(self)@),
        ensures
            final(self)@.values == old(self)@.values.update(GAS_TOXINS as int, v),
            final(self)@.dirty,
    {
        self.set_gas(GAS_TOXINS, v);
    }

    pub fn set_sleeping_agent(&mut self, v: Fix)
        requires
            gm_wf(old(self)@),
        ensures
            final(self)@.values == old(self)@.values.update(GAS_SLEEPING_AGENT as int, v),
            final(self)@.dirty,
    {
        self.set_gas(GAS_SLEEPING_AGENT, v);
    }

    pub fn set_agent_b(&mut self, v: Fix)
        requires
            gm_wf(old(self)@),
        ensures
            final(self)@.values == old(self)@.values.update(GAS_AGENT_B as int, v),
            final(self)@.dirty,
    {
        self.set_gas(GAS_AGENT_B, v);
    }
}

/// How a tile exchanges gas with the world outside the grid.
#[derive(Clone, Copy, Debug, PartialEq, Eq, Structural)]
pub enum AtmosMode {
    /// Hard vacuum: the tile sheds all gas and heat every tick.
    Space,
    /// The tile resets each tick to a prototype from the environment table.
    ExposedTo { environment_id: u32 },
    /// An ordinary interior tile.
    Sealed,
}

/// Which of a tile's four edges are airtight, as a bitset over
/// `AIRTIGHT_NORTH` .. `AIRTIGHT_WEST`.
#[derive(Clone, Copy, Debug, PartialEq, Eq, Structural)]
pub struct AirtightDirections {
    pub bits: u8,
}

impl AirtightDirections {
    pub fn empty() -> (r: AirtightDirections)
        ensures
            r.bits == 0,
    {
        AirtightDirections { bits: 0 }
    }

    pub fn contains(self, dir: u8) -> (r: bool)
        ensures
            r == (self.bits & dir != 0),
    {
        self.bits & dir != 0
    }
}

/// Per-edge heat transfer coefficients.
#[derive(Clone, Copy, Debug, PartialEq, Eq, Structural)]
pub struct Superconductivity {
    pub north: Fix,
    pub east: Fix,
    pub south: Fix,
    pub west: Fix,
}

/// Ghost image of a [`Tile`].
#[verifier::ext_equal]
pub ghost struct TileV {
    pub gases: GasV,
    pub thermal_energy: Fix,
    pub momentum_x: Fix,
    pub momentum_y: Fix,
    pub mode: AtmosMode,
    pub airtight_directions: AirtightDirections,
    pub superconductivity: Superconductivity,
    pub wall_x: bool,
    pub wall_y: bool,
    pub hotspot_volume: Fix,
    pub hotspot_temperature: Fix,
}

/// One cell of the grid.
pub struct Tile {
    pub gases: GasMixture,
    pub thermal_energy: Fix,
    pub momentum_x: Fix,
    pub momentum_y: Fix,
    pub mode: AtmosMode,
    pub airtight_directions: AirtightDirections,
    pub superconductivity: Superconductivity,
    pub wall_x: bool,
    pub wall_y: bool,
    pub hotspot_volume: Fix,
    pub hotspot_temperature: Fix,
}

impl View for Tile {
    type V = TileV;

    open spec fn view(&self) -> TileV {
        TileV {
            gases: self.gases@,
            thermal_energy: self.thermal_energy,
            momentum_x: self.momentum_x,
            momentum_y: self.momentum_y,
            mode: self.mode,
            airtight_directions: self.airtight_directions,
            superconductivity: self.superconductivity,
            wall_x: self.wall_x,
            wall_y: self.wall_y,
            hotspot_volume: self.hotspot_volume,
            hotspot_temperature: self.hotspot_temperature,
        }
    }
}

pub open spec fn tile_wf(t: TileV) -> bool {
    gm_wf(t.gases)
}

/// The tile a fresh grid is filled with.
pub open spec fn spec_tile_new() -> TileV {
    TileV {
        gases: GasV { values: Seq::new(GAS_COUNT as nat, |i: int| fix(0)), dirty: false },
        thermal_energy: fix(0),
        momentum_x: fix(0),
        momentum_y: fix(0),
        mode: AtmosMode::Space,
        airtight_directions: AirtightDirections { bits: 0 },
        superconductivity: Superconductivity {
            north: fix(OPEN_HEAT_TRANSFER_COEFFICIENT),
            east: fix(OPEN_HEAT_TRANSFER_COEFFICIENT),
            south: fix(OPEN_HEAT_TRANSFER_COEFFICIENT),
            west: fix(OPEN_HEAT_TRANSFER_COEFFICIENT),
        },
        wall_x: false,
        wall_y: false,
        hotspot_volume: fix(0),
        hotspot_temperature: fix(0),
    }
}

pub open spec fn spec_temperature(t: TileV) -> Fix {
    spec_div(t.thermal_energy, spec_heat_capacity(t.gases))
}

/// Pressure of a tile; an empty or degenerate tile has pressure zero.
pub open spec fn spec_pressure(t: TileV) -> Fix {
    if spec_temperature(t).finite {
        spec_div(
            spec_mul(spec_mul(spec_moles(t.gases), fix(R_IDEAL_GAS)), spec_temperature(t)),
            fix(TILE_VOLUME),
        )
    } else {
        fix(0)
    }
}

impl Tile {
    pub fn new() -> (r: Tile)
        ensures
            r@ =~= spec_tile_new(),
    {
        let gases = GasMixture::new();
        let t = Tile {
            gases,
            thermal_energy: Fix::zero(),
            momentum_x: Fix::zero(),
            momentum_y: Fix::zero(),
            mode: AtmosMode::Space,
            airtight_directions: AirtightDirections::empty(),
            superconductivity: Superconductivity {
                north: Fix::of(OPEN_HEAT_TRANSFER_COEFFICIENT),
                east: Fix::of(OPEN_HEAT_TRANSFER_COEFFICIENT),
                south: Fix::of(OPEN_HEAT_TRANSFER_COEFFICIENT),
                west: Fix::of(OPEN_HEAT_TRANSFER_COEFFICIENT),
            },
            wall_x: false,
            wall_y: false,
            hotspot_volume: Fix::zero(),
            hotspot_temperature: Fix::zero(),
        };
        proof {
            assert(t@.gases.values =~= spec_tile_new().gases.values);
        }
        t
    }

    /// A deep copy whose ghost image equals this tile's.
    pub fn snapshot(&self) -> (r: Tile)
        ensures
            r@ =~= self@,
    {
        let mut gases = GasMixture::new();
        gases.copy_from(&self.gases);
        gases.dirty = self.gases.dirty;
        Tile {
            gases,
            thermal_energy: self.thermal_energy,
            momentum_x: self.momentum_x,
            momentum_y: self.momentum_y,
            mode: self.mode,
            airtight_directions: self.airtight_directions,
            superconductivity: self.superconductivity,
            wall_x: self.wall_x,
            wall_y: self.wall_y,
            hotspot_volume: self.hotspot_volume,
            hotspot_temperature: self.hotspot_temperature,
        }
    }

    pub fn heat_capacity(&self) -> (r: Fix)
        ensures
            r == spec_heat_capacity(self@.gases),
    {
        self.gases.heat_capacity()
    }

    pub fn temperature(&self) -> (r: Fix)
        ensures
            r == spec_temperature(self@),
    {
        self.thermal_energy.div(self.gases.heat_capacity())
    }

    pub fn pressure(&self) -> (r: Fix)
        ensures
            r == spec_pressure(self@),
    {
        let temp = self.temperature();
        if temp.is_finite() {
            self.gases.moles().mul(Fix::of(R_IDEAL_GAS)).mul(temp).div(Fix::of(TILE_VOLUME))
        } else {
            Fix::zero()
        }
    }

    pub fn momentum(&self, axis: usize) -> (r: Fix)
        requires
            axis == AXIS_X || axis == AXIS_Y,
        ensures
            r == spec_momentum(self@, axis as int),
    {
        if axis == AXIS_X {
            self.momentum_x
        } else {
            self.momentum_y
        }
    }

    pub fn set_momentum(&mut self, axis: usize, v: Fix)
        requires
            axis == AXIS_X || axis == AXIS_Y,
        ensures
            final(self)@ == spec_with_momentum(old(self)@, axis as int, v),
    {
        if axis == AXIS_X {
            self.momentum_x = v;
        } else {
            self.momentum_y = v;
        }
    }

    pub fn wall(&self, axis: usize) -> (r: bool)
        requires
            axis == AXIS_X || axis == AXIS_Y,
        ensures
            r == spec_wall_flag(self@, axis as int),
    {
        if axis == AXIS_X {
            self.wall_x
        } else {
            self.wall_y
        }
    }

    pub fn set_wall(&mut self, axis: usize, v: bool)
        requires
            axis == AXIS_X || axis == AXIS_Y,
        ensures
            final(self)@ == spec_with_wall(old(self)@, axis as int, v),
    {
        if axis == AXIS_X {
            self.wall_x = v;
        } else {
            self.wall_y = v;
        }
    }
}

pub open spec fn spec_momentum(t: TileV, axis: int) -> Fix {
    if axis == AXIS_X {
        t.momentum_x
    } else {
        t.momentum_y
    }
}

pub open spec fn spec_with_momentum(t: TileV, axis: int, v: Fix) -> TileV {
    if axis == AXIS_X {
        TileV { momentum_x: v, ..t }
    } else {
        TileV { momentum_y: v, ..t }
    }
}

pub open spec fn spec_wall_flag(t: TileV, axis: int) -> bool {
    if axis == AXIS_X {
        t.wall_x
    } else {
        t.wall_y
    }
}

pub open spec fn spec_with_wall(t: TileV, axis: int, v: bool) -> TileV {
    if axis == AXIS_X {
        TileV { wall_x: v, ..t }
    } else {
        TileV { wall_y: v, ..t }
    }
}

/// A dense square grid of tiles; index `x * MAP_SIZE + y`.
pub struct ZLevel {
    pub tiles: Vec<Tile>,
}

impl View for ZLevel {
    type V = Seq<TileV>;

    open spec fn view(&self) -> Seq<TileV> {
        self.tiles@.map_values(|t: Tile| t@)
    }
}

/// Shape invariant of a grid.
pub open spec fn zl_wf(z: Seq<TileV>) -> bool {
    &&& z.len() == MAP_SIZE * MAP_SIZE
    &&& forall|i: int| 0 <= i < z.len() ==> tile_wf(#[trigger] z[i])
}

impl ZLevel {
    /// A grid of fresh (space, empty) tiles.
    pub fn new() -> (r: ZLevel)
        ensures
            zl_wf(r@),
            forall|i: int| 0 <= i < r@.len() ==> #[trigger] r@[i] =~= spec_tile_new(),
    {
        let mut tiles: Vec<Tile> = Vec::new();
        let n = MAP_SIZE * MAP_SIZE;
        let mut i: usize = 0;
        while i < n
            invariant
                i <= n,
                tiles@.len() == i,
                forall|j: int| 0 <= j < i ==> #[trigger] tiles@[j]@ =~= spec_tile_new(),
            decreases n - i,
        {
            tiles.push(Tile::new());
            i = i + 1;
        }
        ZLevel { tiles }
    }

    pub fn get_tile(&self, index: usize) -> (r: &Tile)
        requires
            index < self@.len(),
        ensures
            r@ == self@[index as int],
    {
        &self.tiles[index]
    }

    /// Replaces one tile.
    pub fn set_tile(&mut self, index: usize, t: Tile)
        requires
            index < old(self)@.len(),
        ensures
            final(self)@ == old(self)@.update(index as int, t@),
    {
        self.tiles[index] = t;
        proof {
            assert(final(self)@ =~= old(self)@.update(index as int, t@));
        }
    }

    /// The flat index of in-bounds coordinates.
    pub fn maybe_get_index(x: i32, y: i32) -> (r: Option<usize>)
        ensures
            r == spec_maybe_index(x as int, y as int),
    {
        if x >= 0 && (x as usize) < MAP_SIZE && y >= 0 && (y as usize) < MAP_SIZE {
            Some((x as usize) * MAP_SIZE + y as usize)
        } else {
            None
        }
    }
}

pub open spec fn spec_maybe_index(x: int, y: int) -> Option<usize> {
    if 0 <= x < MAP_SIZE && 0 <= y < MAP_SIZE {
        Some((x * MAP_SIZE + y) as usize)
    } else {
        None
    }
}

/// Host-convention 1-indexed coordinates of an emitted tile.
#[derive(Clone, Copy, Debug, PartialEq, Eq, Structural)]
pub struct Coords {
    pub x: i16,
    pub y: i16,
    pub z: i16,
}

/// Why a tile was emitted, as a bitset over `REASON_DISPLAY`,
/// `REASON_HOT` and `REASON_WIND`.
#[derive(Clone, Copy, Debug, PartialEq, Eq, Structural)]
pub struct ReasonFlags {
    pub bits: u8,
}

impl ReasonFlags {
    pub fn empty() -> (r: ReasonFlags)
        ensures
            r.bits == 0,
    {
        ReasonFlags { bits: 0 }
    }

    pub fn is_empty(self) -> (r: bool)
        ensures
            r == (self.bits == 0),
    {
        self.bits == 0
    }

    pub fn contains(self, flag: u8) -> (r: bool)
        ensures
            r == (self.bits & flag != 0),
    {
        self.bits & flag != 0
    }

    pub fn insert(self, flag: u8) -> (r: ReasonFlags)
        ensures
            r.bits == (self.bits | flag),
    {
        ReasonFlags { bits: self.bits | flag }
    }
}

/// Ghost image of an [`InterestingTile`].
#[verifier::ext_equal]
pub ghost struct InterestingTileV {
    pub tile: TileV,
    pub coords: Coords,
    pub reasons: ReasonFlags,
    pub wind_x: Fix,
    pub wind_y: Fix,
}

/// A tile whose change this tick warrants the host's attention.
pub struct InterestingTile {
    pub tile: Tile,
    pub coords: Coords,
    pub reasons: ReasonFlags,
    pub wind_x: Fix,
    pub wind_y: Fix,
}

impl View for InterestingTile {
    type V = InterestingTileV;

    open spec fn view(&self) -> InterestingTileV {
        InterestingTileV {
            tile: self.tile@,
            coords: self.coords,
            reasons: self.reasons,
            wind_x: self.wind_x,
            wind_y: self.wind_y,
        }
    }
}

/// Every gas count is a finite, nonnegative quantity.
pub open spec fn gases_sane(s: Seq<Fix>) -> bool {
    forall|i: int| 0 <= i < s.len() ==> (#[trigger] s[i]).finite && s[i].raw >= 0
}

/// The numeric invariant a tile satisfies at tick boundaries: finite,
/// nonnegative gases and thermal energy.
pub open spec fn tile_sane(t: TileV) -> bool {
    &&& gases_sane(t.gases.values)
    &&& t.thermal_energy.finite
    &&& t.thermal_energy.raw >= 0
}

pub open spec fn tile_momentum_finite(t: TileV) -> bool {
    t.momentum_x.finite && t.momentum_y.finite
}

/// The numeric invariant of a whole grid at a tick boundary. Space tiles
/// are exempt from the momentum clause: the post-process pass skips them
/// before the sanitizer runs.
pub open spec fn zl_sane(z: Seq<TileV>) -> bool {
    forall|i: int|
        0 <= i < z.len() ==> tile_sane(#[trigger] z[i]) && (z[i].mode != AtmosMode::Space
            ==> tile_momentum_finite(z[i]))
}

/// The one error the engine surfaces to the host.
#[derive(Clone, Copy, Debug, PartialEq, Eq, Structural)]
pub enum MillaError {
    /// An `ExposedTo` tile names an environment the table does not hold.
    InvalidEnvironment { environment_id: u32 },
}

} // verus!
