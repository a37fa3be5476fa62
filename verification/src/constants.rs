//! Tuning constants of the engine.
//!
//! Scalar quantities are given as raw fixed-point values: multiples of
//! 1/10000 of a unit, ready for [`crate::fixnum::Fix::of`]. The host may
//! rebuild with different values; the contracts in this crate are stated
//! over these names, not over the numbers.

use vstd::prelude::*;

verus! {

/// Side length of a Z-level; the grid holds `MAP_SIZE * MAP_SIZE` tiles.
pub const MAP_SIZE: usize = 255;

/// Number of distinct gases tracked per tile.
pub const GAS_COUNT: usize = 6;

/// Gas indices into `GasMixture::values`.
pub const GAS_OXYGEN: usize = 0;
pub const GAS_CARBON_DIOXIDE: usize = 1;
pub const GAS_NITROGEN: usize = 2;
pub const GAS_TOXINS: usize = 3;
pub const GAS_SLEEPING_AGENT: usize = 4;
pub const GAS_AGENT_B: usize = 5;

/// Axis indices into per-tile momentum and wall data.
pub const AXIS_X: usize = 0;
pub const AXIS_Y: usize = 1;

/// Per-gas specific heat, raw fixed point (joules per mole-kelvin).
pub const SPECIFIC_HEAT_OXYGEN: i64 = 200_000;
pub const SPECIFIC_HEAT_CARBON_DIOXIDE: i64 = 300_000;
pub const SPECIFIC_HEAT_NITROGEN: i64 = 200_000;
pub const SPECIFIC_HEAT_TOXINS: i64 = 2_000_000;
pub const SPECIFIC_HEAT_SLEEPING_AGENT: i64 = 400_000;
pub const SPECIFIC_HEAT_AGENT_B: i64 = 3_000_000;

/// Ideal gas constant, raw fixed point.
pub const R_IDEAL_GAS: i64 = 83_100;

/// Volume of one tile in liters, raw fixed point.
pub const TILE_VOLUME: i64 = 25_000_000;

/// Tiles with fewer total moles than this are treated as empty; it is also
/// the floor put under spring constants handed to the solver.
pub const MINIMUM_NONZERO_MOLES: i64 = 1;

/// Fraction of border momentum kept from one tick to the next.
pub const MOMENTUM_DECAY: i64 = 9_000;

/// Conversion factor from border momentum to solver force.
pub const MOMENTUM_MULTIPLIER: i64 = 10_000;

/// Conversion factor from border momentum to visible wind.
pub const WIND_MULTIPLIER: i64 = 10_000;

/// Temperature of the cosmic microwave background, kelvin.
pub const TCMB: i64 = 27_000;

/// 20 degrees Celsius, kelvin.
pub const T20C: i64 = 2_931_500;

/// Thermal energy bled off a hot sealed tile each tick.
pub const SPACE_COOLING_CAPACITY: i64 = 1_000_000;

/// Heat transfer coefficient of a fully open tile edge.
pub const OPEN_HEAT_TRANSFER_COEFFICIENT: i64 = 4_000;

/// Agent B converts carbon dioxide to oxygen above this temperature.
pub const AGENT_B_CONVERSION_TEMP: i64 = 9_000_000;

/// Thermal energy released per mole of carbon dioxide converted by agent B.
pub const AGENT_B_CONVERSION_ENERGY: i64 = 200_000_000;

/// Sleeping agent breaks down into nitrogen and oxygen above this temperature.
pub const SLEEPING_GAS_BREAKDOWN_TEMP: i64 = 14_000_000;

/// Thermal energy released per mole of sleeping agent broken down.
pub const NITROUS_BREAKDOWN_ENERGY: i64 = 2_000_000_000;

/// Plasma ignites above this temperature.
pub const PLASMA_BURN_MIN_TEMP: i64 = 3_731_500;

/// Plasma burns at full efficiency at or above this temperature.
pub const PLASMA_BURN_OPTIMAL_TEMP: i64 = 16_431_500;

/// Thermal energy released per mole of plasma burnt.
pub const PLASMA_BURN_ENERGY: i64 = 30_000_000_000;

/// Oxygen consumed per mole of plasma burnt at worst efficiency.
pub const PLASMA_BURN_WORST_OXYGEN_PER_PLASMA: i64 = 14_000;

/// Oxygen consumed per mole of plasma burnt at best efficiency.
pub const PLASMA_BURN_BEST_OXYGEN_PER_PLASMA: i64 = 4_000;

/// Multiple of the oxygen actually consumed that must be present for
/// plasma to burn.
pub const PLASMA_BURN_REQUIRED_OXYGEN_AVAILABILITY: i64 = 100_000;

/// Largest fraction of the available plasma that can burn in one tick.
pub const PLASMA_BURN_MAX_RATIO: i64 = 2_500;

/// Gases below this absolute amount never react.
pub const REACTION_SIGNIFICANCE_MOLES: i64 = 1_000;

/// Gases below this share of the mixture never react (agent B excepted).
pub const REACTION_SIGNIFICANCE_RATIO: i64 = 100;

/// Visibility and fire thresholds used by interestingness classification.
pub const TOXINS_MIN_FIRE_AND_VISIBILITY_MOLES: i64 = 5_000;
pub const SLEEPING_GAS_VISIBILITY_MOLES: i64 = 10_000;
pub const OXYGEN_MIN_FIRE_MOLES: i64 = 5_000;

/// Reason flags carried by an emitted interesting tile.
pub const REASON_DISPLAY: u8 = 1;
pub const REASON_HOT: u8 = 2;
pub const REASON_WIND: u8 = 4;

/// Airtight direction bits.
pub const AIRTIGHT_NORTH: u8 = 1;
pub const AIRTIGHT_EAST: u8 = 2;
pub const AIRTIGHT_SOUTH: u8 = 4;
pub const AIRTIGHT_WEST: u8 = 8;

} // verus!
