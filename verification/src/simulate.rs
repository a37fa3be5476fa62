//! The tick pipeline: wall detection, pressure flow along chains, and the
//! per-tile post-processing pass (tile modes, superconduction, reactions,
//! sanitization, interestingness).

use crate::constants::{
    AGENT_B_CONVERSION_ENERGY, AGENT_B_CONVERSION_TEMP, AIRTIGHT_EAST, AIRTIGHT_NORTH,
    AIRTIGHT_SOUTH, AIRTIGHT_WEST, AXIS_X, AXIS_Y, GAS_AGENT_B, GAS_CARBON_DIOXIDE, GAS_COUNT,
    GAS_NITROGEN, GAS_OXYGEN, GAS_SLEEPING_AGENT, GAS_TOXINS, MAP_SIZE, MINIMUM_NONZERO_MOLES,
    MOMENTUM_DECAY, MOMENTUM_MULTIPLIER, NITROUS_BREAKDOWN_ENERGY, OPEN_HEAT_TRANSFER_COEFFICIENT,
    OXYGEN_MIN_FIRE_MOLES, PLASMA_BURN_BEST_OXYGEN_PER_PLASMA, PLASMA_BURN_ENERGY,
    PLASMA_BURN_MAX_RATIO, PLASMA_BURN_MIN_TEMP, PLASMA_BURN_OPTIMAL_TEMP,
    PLASMA_BURN_REQUIRED_OXYGEN_AVAILABILITY, PLASMA_BURN_WORST_OXYGEN_PER_PLASMA,
    REACTION_SIGNIFICANCE_MOLES, REACTION_SIGNIFICANCE_RATIO, REASON_DISPLAY, REASON_HOT,
    REASON_WIND, SLEEPING_GAS_BREAKDOWN_TEMP, SLEEPING_GAS_VISIBILITY_MOLES,
    SPACE_COOLING_CAPACITY, T20C, TCMB, TOXINS_MIN_FIRE_AND_VISIBILITY_MOLES, WIND_MULTIPLIER,
};
use crate::fixnum::{
    fix, spec_add, spec_div, spec_floor0, spec_ge, spec_gt, spec_le, spec_lt, spec_max, spec_min,
    spec_mul, spec_neg, spec_sub, Fix, FIX_SCALE,
};
use crate::model::{
    gases_sane, gm_wf, spec_heat_capacity, spec_moles, spec_moles_seq, spec_temperature,
    spec_maybe_index, spec_momentum, spec_wall_flag, spec_with_momentum, tile_momentum_finite,
    tile_sane, tile_wf, zl_sane, zl_wf, AtmosMode,
    Coords, GasMixture, GasV, InterestingTile, InterestingTileV, MillaError, ReasonFlags, Tile,
    TileV, ZLevel,
};
use crate::outside::{sink_contents, InterestingSink};
use vstd::multiset::Multiset;
use vstd::arithmetic::div_mod::lemma_div_is_ordered;
use vstd::prelude::*;

verus! {

/// Is the amount of one gas large enough, absolutely and as a share of the
/// mixture, for it to take part in reactions? Agent B is exempt from the
/// share test.
pub open spec fn spec_is_significant(t: TileV, gas: int) -> bool {
    &&& !spec_lt(t.gases.values[gas], fix(REACTION_SIGNIFICANCE_MOLES))
    &&& (gas == GAS_AGENT_B || !spec_lt(
        spec_div(t.gases.values[gas], spec_moles(t.gases)),
        fix(REACTION_SIGNIFICANCE_RATIO),
    ))
}

/// Is the amount of gas present significant?
pub fn is_significant(tile: &Tile, gas: usize) -> (r: bool)
    requires
        tile_wf(tile@),
        gas < GAS_COUNT,
    ensures
        r == spec_is_significant(tile@, gas as int),
{
    if tile.gases.values[gas].lt(Fix::of(REACTION_SIGNIFICANCE_MOLES)) {
        return false;
    }
    if gas != GAS_AGENT_B && tile.gases.values[gas].div(tile.gases.moles()).lt(
        Fix::of(REACTION_SIGNIFICANCE_RATIO),
    ) {
        return false;
    }
    true
}

/// The change `share_air` reports for the first tile's share of one scalar:
/// what flows in from the neighbor minus what flows out.
pub open spec fn spec_share_delta(mine: Fix, theirs: Fix, my_n: Fix, their_n: Fix) -> Fix {
    spec_sub(spec_div(theirs, their_n), spec_div(mine, my_n))
}

/// Computes the gas and thermal-energy change of `my_tile` when each tile
/// splits its contents evenly among itself and its connected directions and
/// the two tiles trade one share.
pub fn share_air(
    my_tile: &Tile,
    their_tile: &Tile,
    my_connected_dirs: u32,
    their_connected_dirs: u32,
) -> (r: (GasMixture, Fix))
    requires
        tile_wf(my_tile@),
        tile_wf(their_tile@),
    ensures
        gm_wf(r.0@),
        forall|g: int|
            0 <= g < GAS_COUNT ==> r.0@.values[g] == spec_share_delta(
                my_tile@.gases.values[g],
                their_tile@.gases.values[g],
                fix(((my_connected_dirs + 1) * FIX_SCALE) as i64),
                fix(((their_connected_dirs + 1) * FIX_SCALE) as i64),
            ),
        r.1 == spec_share_delta(
            my_tile@.thermal_energy,
            their_tile@.thermal_energy,
            fix(((my_connected_dirs + 1) * FIX_SCALE) as i64),
            fix(((their_connected_dirs + 1) * FIX_SCALE) as i64),
        ),
{
    let my_n = Fix::of((my_connected_dirs as i64 + 1) * FIX_SCALE);
    let their_n = Fix::of((their_connected_dirs as i64 + 1) * FIX_SCALE);
    let mut gas_change = GasMixture::new();
    let mut g: usize = 0;
    while g < GAS_COUNT
        invariant
            gm_wf(gas_change@),
            tile_wf(my_tile@),
            tile_wf(their_tile@),
            g <= GAS_COUNT,
            my_n == fix(((my_connected_dirs + 1) * FIX_SCALE) as i64),
            their_n == fix(((their_connected_dirs + 1) * FIX_SCALE) as i64),
            forall|j: int|
                0 <= j < g ==> gas_change@.values[j] == spec_share_delta(
                    my_tile@.gases.values[j],
                    their_tile@.gases.values[j],
                    my_n,
                    their_n,
                ),
        decreases GAS_COUNT - g,
    {
        let delta = their_tile.gases.values[g].div(their_n).sub(
            my_tile.gases.values[g].div(my_n),
        );
        gas_change.set_gas(g, delta);
        g = g + 1;
    }
    let thermal_change = their_tile.thermal_energy.div(their_n).sub(
        my_tile.thermal_energy.div(my_n),
    );
    (gas_change, thermal_change)
}

/// One sanitized gas slot: a non-finite count rolls back to the prior
/// tick's value and a negative count clamps to zero.
pub open spec fn spec_san_gas(n: Fix, p: Fix) -> Fix {
    if !n.finite {
        p
    } else if n.raw < 0 {
        fix(0)
    } else {
        n
    }
}

/// Does this slot count as a sanitation event?
pub open spec fn spec_gas_sanitized(n: Fix) -> bool {
    !n.finite || n.raw < 0
}

pub open spec fn spec_any_gas_sanitized(s: Seq<Fix>) -> bool {
    exists|j: int| 0 <= j < s.len() && spec_gas_sanitized(#[trigger] s[j])
}

/// The sanitized tile and whether any true sanitation occurred. Rolling a
/// nearly empty tile down to hard zero is expected and not counted.
pub open spec fn spec_sanitize(t: TileV, p: TileV) -> (TileV, bool) {
    let vals = Seq::new(
        t.gases.values.len(),
        |i: int| spec_san_gas(t.gases.values[i], p.gases.values[i]),
    );
    let gd = t.gases.dirty || spec_any_gas_sanitized(t.gases.values);
    let te = if !t.thermal_energy.finite {
        p.thermal_energy
    } else if t.thermal_energy.raw < 0 {
        fix(0)
    } else {
        t.thermal_energy
    };
    let mx = if !t.momentum_x.finite {
        p.momentum_x
    } else {
        t.momentum_x
    };
    let my = if !t.momentum_y.finite {
        p.momentum_y
    } else {
        t.momentum_y
    };
    let sanitized = spec_any_gas_sanitized(t.gases.values) || !t.thermal_energy.finite
        || t.thermal_energy.raw < 0 || !t.momentum_x.finite || !t.momentum_y.finite;
    let t1 = TileV {
        gases: GasV { values: vals, dirty: gd },
        thermal_energy: te,
        momentum_x: mx,
        momentum_y: my,
        ..t
    };
    if spec_lt(spec_moles_seq(vals), fix(MINIMUM_NONZERO_MOLES)) {
        (
            TileV {
                gases: GasV { values: Seq::new(vals.len(), |i: int| fix(0)), dirty: gd },
                thermal_energy: fix(0),
                ..t1
            },
            sanitized,
        )
    } else {
        (t1, sanitized)
    }
}

/// Repairs numeric anomalies on a tile: non-finite values roll back to the
/// prior tick, negative quantities clamp to zero, and a tile with less than
/// `MINIMUM_NONZERO_MOLES` total gas is emptied outright.
pub fn sanitize(my_next_tile: &mut Tile, my_tile: &Tile) -> (sanitized: bool)
    requires
        tile_wf(old(my_next_tile)@),
        my_tile@.gases.values.len() == old(my_next_tile)@.gases.values.len(),
    ensures
        final(my_next_tile)@ == spec_sanitize(old(my_next_tile)@, my_tile@).0,
        sanitized == spec_sanitize(old(my_next_tile)@, my_tile@).1,
        tile_wf(final(my_next_tile)@),
{
    let ghost t0 = my_next_tile@;
    let mut sanitized = false;
    let mut i: usize = 0;
    while i < GAS_COUNT
        invariant
            tile_wf(t0),
            my_tile@.gases.values.len() == t0.gases.values.len(),
            i <= GAS_COUNT,
            my_next_tile@ == (TileV {
                gases: GasV { values: my_next_tile@.gases.values, dirty: my_next_tile@.gases.dirty },
                ..t0
            }),
            my_next_tile@.gases.values.len() == GAS_COUNT,
            forall|j: int|
                0 <= j < i ==> my_next_tile@.gases.values[j] == spec_san_gas(
                    t0.gases.values[j],
                    my_tile@.gases.values[j],
                ),
            forall|j: int|
                i <= j < GAS_COUNT ==> my_next_tile@.gases.values[j] == t0.gases.values[j],
            sanitized == exists|j: int|
                0 <= j < i && spec_gas_sanitized(#[trigger] t0.gases.values[j]),
            my_next_tile@.gases.dirty == (t0.gases.dirty || exists|j: int|
                0 <= j < i && spec_gas_sanitized(#[trigger] t0.gases.values[j])),
        decreases GAS_COUNT - i,
    {
        let v = my_next_tile.gases.values[i];
        if !v.is_finite() {
            let pv = my_tile.gases.values[i];
            my_next_tile.gases.values[i] = pv;
            my_next_tile.gases.set_dirty();
            sanitized = true;
            proof {
                assert(spec_gas_sanitized(t0.gases.values[i as int]));
            }
        } else if v.lt(Fix::zero()) {
            my_next_tile.gases.values[i] = Fix::zero();
            my_next_tile.gases.set_dirty();
            sanitized = true;
            proof {
                assert(spec_gas_sanitized(t0.gases.values[i as int]));
            }
        }
        i = i + 1;
    }
    proof {
        assert(my_next_tile@.gases.values =~= Seq::new(
            t0.gases.values.len(),
            |j: int| spec_san_gas(t0.gases.values[j], my_tile@.gases.values[j]),
        ));
        assert(sanitized == spec_any_gas_sanitized(t0.gases.values));
    }
    if !my_next_tile.thermal_energy.is_finite() {
        my_next_tile.thermal_energy = my_tile.thermal_energy;
        sanitized = true;
    } else if my_next_tile.thermal_energy.lt(Fix::zero()) {
        my_next_tile.thermal_energy = Fix::zero();
        sanitized = true;
    }
    if !my_next_tile.momentum_x.is_finite() {
        my_next_tile.momentum_x = my_tile.momentum_x;
        sanitized = true;
    }
    if !my_next_tile.momentum_y.is_finite() {
        my_next_tile.momentum_y = my_tile.momentum_y;
        sanitized = true;
    }
    if my_next_tile.gases.moles().lt(Fix::of(MINIMUM_NONZERO_MOLES)) {
        let ghost vals1 = my_next_tile@.gases.values;
        let ghost t1 = my_next_tile@;
        let mut i: usize = 0;
        while i < GAS_COUNT
            invariant
                i <= GAS_COUNT,
                my_next_tile@ == (TileV {
                    gases: GasV { values: my_next_tile@.gases.values, dirty: t1.gases.dirty },
                    ..t1
                }),
                my_next_tile@.gases.values.len() == GAS_COUNT,
                vals1.len() == GAS_COUNT,
                forall|j: int| 0 <= j < i ==> my_next_tile@.gases.values[j] == fix(0),
                forall|j: int|
                    i <= j < GAS_COUNT ==> my_next_tile@.gases.values[j] == vals1[j],
            decreases GAS_COUNT - i,
        {
            my_next_tile.gases.values[i] = Fix::zero();
            i = i + 1;
        }
        my_next_tile.thermal_energy = Fix::zero();
        proof {
            assert(my_next_tile@.gases.values =~= Seq::new(vals1.len(), |j: int| fix(0)));
        }
    }
    sanitized
}

/// The sanitizer leaves a sane tile: finite nonnegative gases and thermal
/// energy, and finite momentum, provided the prior tick's tile was sane.
pub proof fn lemma_sanitize_sane(t: TileV, p: TileV)
    requires
        t.gases.values.len() == p.gases.values.len(),
        tile_sane(p),
        tile_momentum_finite(p),
    ensures
        tile_sane(spec_sanitize(t, p).0),
        tile_momentum_finite(spec_sanitize(t, p).0),
{
}

/// Law: sanitizing is idempotent. Running the sanitizer a second time (with
/// the same sane prior-tick tile) leaves the tile exactly as one run left
/// it.
pub proof fn lemma_sanitize_idempotent(t: TileV, p: TileV)
    requires
        t.gases.values.len() == p.gases.values.len(),
        tile_sane(p),
        tile_momentum_finite(p),
    ensures
        spec_sanitize(spec_sanitize(t, p).0, p).0 == spec_sanitize(t, p).0,
{
    let t1 = spec_sanitize(t, p).0;
    let t2 = spec_sanitize(t1, p).0;
    lemma_sanitize_sane(t, p);
    let vals = Seq::new(
        t.gases.values.len(),
        |i: int| spec_san_gas(t.gases.values[i], p.gases.values[i]),
    );
    if spec_lt(spec_moles_seq(vals), fix(MINIMUM_NONZERO_MOLES)) {
        lemma_zero_seq_moles(vals.len());
        assert(t1.gases.values =~= Seq::new(t1.gases.values.len(), |i: int| fix(0)));
        let vals2 = Seq::new(
            t1.gases.values.len(),
            |i: int| spec_san_gas(t1.gases.values[i], p.gases.values[i]),
        );
        assert(vals2 =~= t1.gases.values);
        assert(t2.gases.values =~= t1.gases.values);
        assert(t2 == (TileV { gases: GasV { values: t2.gases.values, ..t2.gases }, ..t2 }));
        assert(t2 =~= t1);
    } else {
        let vals2 = Seq::new(
            t1.gases.values.len(),
            |i: int| spec_san_gas(t1.gases.values[i], p.gases.values[i]),
        );
        assert(vals2 =~= t1.gases.values);
        assert(t2 =~= t1);
    }
}

/// The total of an all-zero mixture is zero.
proof fn lemma_zero_seq_moles(n: nat)
    ensures
        spec_moles_seq(Seq::new(n, |i: int| fix(0))) == fix(0),
    decreases n,
{
    let s = Seq::new(n, |i: int| fix(0));
    if n > 0 {
        lemma_zero_seq_moles((n - 1) as nat);
        assert(s.drop_last() =~= Seq::new((n - 1) as nat, |i: int| fix(0)));
    }
}

/// Does the environment table cover this tile's mode?
pub open spec fn spec_env_ok(t: TileV, envs: Seq<TileV>) -> bool {
    match t.mode {
        AtmosMode::ExposedTo { environment_id } => (environment_id as int) < envs.len(),
        _ => true,
    }
}

/// The tile after its atmos mode is applied: Space empties it, ExposedTo
/// resets it to its environment prototype, and a hot Sealed tile bleeds
/// heat, clamped at the cosmic microwave background.
pub open spec fn spec_apply_tile_mode(t: TileV, envs: Seq<TileV>) -> TileV {
    match t.mode {
        AtmosMode::Space => TileV {
            gases: GasV {
                values: Seq::new(t.gases.values.len(), |i: int| fix(0)),
                dirty: true,
            },
            thermal_energy: fix(0),
            ..t
        },
        AtmosMode::ExposedTo { environment_id } => TileV {
            gases: GasV { values: envs[environment_id as int].gases.values, dirty: true },
            thermal_energy: envs[environment_id as int].thermal_energy,
            ..t
        },
        AtmosMode::Sealed => {
            if spec_gt(spec_temperature(t), fix(PLASMA_BURN_MIN_TEMP)) {
                let t2 = TileV {
                    thermal_energy: spec_sub(t.thermal_energy, fix(SPACE_COOLING_CAPACITY)),
                    ..t
                };
                if spec_lt(spec_temperature(t2), fix(TCMB)) {
                    TileV {
                        thermal_energy: spec_mul(fix(TCMB), spec_heat_capacity(t2.gases)),
                        ..t2
                    }
                } else {
                    t2
                }
            } else {
                t
            }
        },
    }
}

/// Apply effects caused by the tile's atmos mode. Fails, leaving the tile
/// untouched, exactly when an `ExposedTo` names an environment at or past
/// the end of the table.
pub fn apply_tile_mode(my_next_tile: &mut Tile, environments: &Vec<Tile>) -> (r: Result<
    (),
    MillaError,
>)
    requires
        tile_wf(old(my_next_tile)@),
    ensures
        r is Ok <==> spec_env_ok(old(my_next_tile)@, environments@.map_values(|e: Tile| e@)),
        r is Ok ==> final(my_next_tile)@ == spec_apply_tile_mode(
            old(my_next_tile)@,
            environments@.map_values(|e: Tile| e@),
        ),
        r is Err ==> final(my_next_tile)@ == old(my_next_tile)@ && (match old(
            my_next_tile,
        )@.mode {
            AtmosMode::ExposedTo { environment_id } => r == Result::<
                (),
                MillaError,
            >::Err(MillaError::InvalidEnvironment { environment_id }),
            _ => false,
        }),
{
    let ghost t0 = my_next_tile@;
    let ghost envs = environments@.map_values(|e: Tile| e@);
    match my_next_tile.mode {
        AtmosMode::Space => {
            let mut i: usize = 0;
            while i < GAS_COUNT
                invariant
                    tile_wf(t0),
                    i <= GAS_COUNT,
                    my_next_tile@ == (TileV {
                        gases: GasV {
                            values: my_next_tile@.gases.values,
                            dirty: my_next_tile@.gases.dirty,
                        },
                        ..t0
                    }),
                    my_next_tile@.gases.values.len() == GAS_COUNT,
                    forall|j: int| 0 <= j < i ==> my_next_tile@.gases.values[j] == fix(0),
                    forall|j: int|
                        i <= j < GAS_COUNT ==> my_next_tile@.gases.values[j]
                            == t0.gases.values[j],
                decreases GAS_COUNT - i,
            {
                my_next_tile.gases.values[i] = Fix::zero();
                i = i + 1;
            }
            my_next_tile.gases.set_dirty();
            my_next_tile.thermal_energy = Fix::zero();
            proof {
                assert(my_next_tile@.gases.values =~= Seq::new(
                    t0.gases.values.len(),
                    |j: int| fix(0),
                ));
            }
            Ok(())
        },
        AtmosMode::ExposedTo { environment_id } => {
            if environment_id as usize >= environments.len() {
                return Err(MillaError::InvalidEnvironment { environment_id });
            }
            let environment = &environments[environment_id as usize];
            my_next_tile.gases.copy_from(&environment.gases);
            my_next_tile.thermal_energy = environment.thermal_energy;
            Ok(())
        },
        AtmosMode::Sealed => {
            if my_next_tile.temperature().gt(Fix::of(PLASMA_BURN_MIN_TEMP)) {
                my_next_tile.thermal_energy = my_next_tile.thermal_energy.sub(
                    Fix::of(SPACE_COOLING_CAPACITY),
                );
                if my_next_tile.temperature().lt(Fix::of(TCMB)) {
                    my_next_tile.thermal_energy = Fix::of(TCMB).mul(
                        my_next_tile.gases.heat_capacity(),
                    );
                }
            }
            Ok(())
        },
    }
}

/// The tile after its hotspot absorbs a thermal-energy delta. Negative
/// deltas shrink the hotspot's volume; positive deltas heat it toward the
/// optimal burn temperature, then grow it, and on filling the whole tile
/// dump the excess into bulk thermal energy and dissolve the hotspot.
pub open spec fn spec_adjust_hotspot(t: TileV, delta: Fix) -> TileV {
    let c = spec_heat_capacity(t.gases);
    if spec_lt(delta, fix(0)) {
        let total_heat_needed = spec_mul(c, t.hotspot_temperature);
        let heat_available = spec_add(
            spec_mul(spec_mul(c, t.hotspot_temperature), t.hotspot_volume),
            delta,
        );
        TileV { hotspot_volume: spec_div(heat_available, total_heat_needed), ..t }
    } else {
        let temperature_delta = spec_sub(
            fix(PLASMA_BURN_OPTIMAL_TEMP),
            spec_min(t.hotspot_temperature, fix(PLASMA_BURN_OPTIMAL_TEMP)),
        );
        let heating_needed = spec_mul(c, temperature_delta);
        if spec_le(heating_needed, delta) {
            let t1 = TileV { hotspot_temperature: fix(PLASMA_BURN_OPTIMAL_TEMP), ..t };
            let remaining = spec_sub(delta, heating_needed);
            let total_heat_needed = spec_mul(c, fix(PLASMA_BURN_OPTIMAL_TEMP));
            let tile_temperature = spec_div(t1.thermal_energy, c);
            let hotspot_thermal_energy = spec_mul(
                spec_mul(c, t1.hotspot_volume),
                spec_sub(t1.hotspot_temperature, tile_temperature),
            );
            let heat_available = spec_add(
                spec_add(t1.thermal_energy, hotspot_thermal_energy),
                remaining,
            );
            if spec_le(total_heat_needed, heat_available) {
                TileV {
                    thermal_energy: spec_add(
                        spec_mul(c, fix(PLASMA_BURN_OPTIMAL_TEMP)),
                        spec_sub(heat_available, total_heat_needed),
                    ),
                    hotspot_temperature: fix(0),
                    hotspot_volume: fix(0),
                    ..t1
                }
            } else {
                TileV { hotspot_volume: spec_div(heat_available, total_heat_needed), ..t1 }
            }
        } else {
            TileV {
                hotspot_temperature: spec_add(
                    t.hotspot_temperature,
                    spec_div(delta, spec_mul(t.hotspot_volume, c)),
                ),
                ..t
            }
        }
    }
}

/// Adjusts the hotspot based on the given thermal energy delta.
pub fn adjust_hotspot(tile: &mut Tile, thermal_energy_delta: Fix)
    ensures
        final(tile)@ == spec_adjust_hotspot(old(tile)@, thermal_energy_delta),
{
    let cached_heat_capacity = tile.gases.heat_capacity();
    if thermal_energy_delta.lt(Fix::zero()) {
        let total_heat_needed = cached_heat_capacity.mul(tile.hotspot_temperature);
        let heat_available = cached_heat_capacity.mul(tile.hotspot_temperature).mul(
            tile.hotspot_volume,
        ).add(thermal_energy_delta);
        tile.hotspot_volume = heat_available.div(total_heat_needed);
        return ;
    }
    let temperature_delta = Fix::of(PLASMA_BURN_OPTIMAL_TEMP).sub(
        tile.hotspot_temperature.min(Fix::of(PLASMA_BURN_OPTIMAL_TEMP)),
    );
    let heating_needed = cached_heat_capacity.mul(temperature_delta);
    if heating_needed.le(thermal_energy_delta) {
        tile.hotspot_temperature = Fix::of(PLASMA_BURN_OPTIMAL_TEMP);
        let remaining_thermal_energy = thermal_energy_delta.sub(heating_needed);
        let total_heat_needed = cached_heat_capacity.mul(Fix::of(PLASMA_BURN_OPTIMAL_TEMP));
        let tile_temperature = tile.thermal_energy.div(cached_heat_capacity);
        let hotspot_thermal_energy = cached_heat_capacity.mul(tile.hotspot_volume).mul(
            tile.hotspot_temperature.sub(tile_temperature),
        );
        let heat_available = tile.thermal_energy.add(hotspot_thermal_energy).add(
            remaining_thermal_energy,
        );
        if total_heat_needed.le(heat_available) {
            tile.thermal_energy = cached_heat_capacity.mul(
                Fix::of(PLASMA_BURN_OPTIMAL_TEMP),
            ).add(heat_available.sub(total_heat_needed));
            tile.hotspot_temperature = Fix::zero();
            tile.hotspot_volume = Fix::zero();
        } else {
            tile.hotspot_volume = heat_available.div(total_heat_needed);
        }
    } else {
        tile.hotspot_temperature = tile.hotspot_temperature.add(
            thermal_energy_delta.div(tile.hotspot_volume.mul(cached_heat_capacity)),
        );
    }
}

/// Should airflow along `axis` be blocked from tile `i` toward its
/// positive neighbor? True at the map edge, between two space tiles, and
/// where either tile's facing edge is airtight.
pub open spec fn spec_wall(g: Seq<TileV>, i: int, axis: int) -> bool {
    let x = i / (MAP_SIZE as int);
    let y = i % (MAP_SIZE as int);
    let nx = if axis == AXIS_X {
        x + 1
    } else {
        x
    };
    let ny = if axis == AXIS_X {
        y
    } else {
        y + 1
    };
    match spec_maybe_index(nx, ny) {
        Option::None => true,
        Option::Some(j) => {
            if g[i].mode is Space && g[j as int].mode is Space {
                true
            } else if axis == AXIS_X {
                g[i].airtight_directions.bits & AIRTIGHT_EAST != 0
                    || g[j as int].airtight_directions.bits & AIRTIGHT_WEST != 0
            } else {
                g[i].airtight_directions.bits & AIRTIGHT_NORTH != 0
                    || g[j as int].airtight_directions.bits & AIRTIGHT_SOUTH != 0
            }
        },
    }
}

/// Tiles equal in everything except the fields pressure flow may change:
/// gases, thermal energy and momentum.
pub open spec fn spec_statics_eq(a: TileV, b: TileV) -> bool {
    a == (TileV {
        gases: a.gases,
        thermal_energy: a.thermal_energy,
        momentum_x: a.momentum_x,
        momentum_y: a.momentum_y,
        ..b
    })
}

proof fn lemma_linear_index(x: int, y: int)
    requires
        0 <= x < MAP_SIZE,
        0 <= y < MAP_SIZE,
    ensures
        (x * MAP_SIZE + y) / (MAP_SIZE as int) == x,
        (x * MAP_SIZE + y) % (MAP_SIZE as int) == y,
        0 <= x * MAP_SIZE + y < MAP_SIZE * MAP_SIZE,
{
    assert(x * MAP_SIZE + y == x * (MAP_SIZE as int) + y);
    assert(0 <= x * MAP_SIZE + y && x * MAP_SIZE + y < MAP_SIZE * MAP_SIZE) by (nonlinear_arith)
        requires
            0 <= x < MAP_SIZE,
            0 <= y < MAP_SIZE,
    ;
    vstd::arithmetic::div_mod::lemma_fundamental_div_mod_converse(
        x * (MAP_SIZE as int) + y,
        MAP_SIZE as int,
        x,
        y,
    );
}

/// The whole grid with every wall flag recomputed from the static fields.
pub open spec fn spec_find_walls(g: Seq<TileV>) -> Seq<TileV> {
    Seq::new(
        g.len(),
        |i: int|
            TileV {
                wall_x: spec_wall(g, i, AXIS_X as int),
                wall_y: spec_wall(g, i, AXIS_Y as int),
                ..g[i]
            },
    )
}

/// Finds all the ways that air should not pass, writing every tile's wall
/// flags from the grid's static fields.
pub fn find_walls(next: &mut ZLevel)
    requires
        zl_wf(old(next)@),
    ensures
        final(next)@.len() == old(next)@.len(),
        zl_wf(final(next)@),
        final(next)@ == spec_find_walls(old(next)@),
        forall|i: int|
            0 <= i < old(next)@.len() ==> #[trigger] final(next)@[i] == (TileV {
                wall_x: spec_wall(old(next)@, i, AXIS_X as int),
                wall_y: spec_wall(old(next)@, i, AXIS_Y as int),
                ..old(next)@[i]
            }),
{
    let ghost g0 = next@;
    let mut my_index: usize = 0;
    while my_index < MAP_SIZE * MAP_SIZE
        invariant
            zl_wf(g0),
            next@.len() == g0.len(),
            my_index <= MAP_SIZE * MAP_SIZE,
            forall|i: int|
                0 <= i < my_index ==> #[trigger] next@[i] == (TileV {
                    wall_x: spec_wall(g0, i, AXIS_X as int),
                    wall_y: spec_wall(g0, i, AXIS_Y as int),
                    ..g0[i]
                }),
            forall|i: int| my_index <= i < g0.len() ==> #[trigger] next@[i] == g0[i],
        decreases MAP_SIZE * MAP_SIZE - my_index,
    {
        let x = (my_index / MAP_SIZE) as i32;
        let y = (my_index % MAP_SIZE) as i32;
        proof {
            lemma_linear_index(x as int, y as int);
            assert(x * MAP_SIZE + y == my_index) by {
                vstd::arithmetic::div_mod::lemma_fundamental_div_mod(
                    my_index as int,
                    MAP_SIZE as int,
                );
            }
        }

        let wx: bool;
        match ZLevel::maybe_get_index(x + 1, y) {
            Option::None => {
                wx = true;
            },
            Option::Some(their_index) => {
                proof {
                    lemma_linear_index(x as int + 1, y as int);
                    assert(next@[my_index as int] == g0[my_index as int]);
                    assert(next@[their_index as int] == g0[their_index as int]);
                }
                let my_mode = next.tiles[my_index].mode;
                let their_mode = next.tiles[their_index].mode;
                let my_air = next.tiles[my_index].airtight_directions;
                let their_air = next.tiles[their_index].airtight_directions;
                if my_mode == AtmosMode::Space && their_mode == AtmosMode::Space {
                    wx = true;
                } else {
                    wx = my_air.contains(AIRTIGHT_EAST) || their_air.contains(AIRTIGHT_WEST);
                }
            },
        }

        let wy: bool;
        match ZLevel::maybe_get_index(x, y + 1) {
            Option::None => {
                wy = true;
            },
            Option::Some(their_index) => {
                proof {
                    lemma_linear_index(x as int, y as int + 1);
                    assert(next@[my_index as int] == g0[my_index as int]);
                    assert(next@[their_index as int] == g0[their_index as int]);
                }
                let my_mode = next.tiles[my_index].mode;
                let their_mode = next.tiles[their_index].mode;
                let my_air = next.tiles[my_index].airtight_directions;
                let their_air = next.tiles[their_index].airtight_directions;
                if my_mode == AtmosMode::Space && their_mode == AtmosMode::Space {
                    wy = true;
                } else {
                    wy = my_air.contains(AIRTIGHT_NORTH) || their_air.contains(AIRTIGHT_SOUTH);
                }
            },
        }

        let ghost pre = next@;
        let my_tile = &mut next.tiles[my_index];
        my_tile.wall_x = wx;
        my_tile.wall_y = wy;
        proof {
            assert(next@ =~= pre.update(
                my_index as int,
                (TileV { wall_x: wx, wall_y: wy, ..pre[my_index as int] }),
            ));
            assert(my_index as int / (MAP_SIZE as int) == x as int);
            assert(my_index as int % (MAP_SIZE as int) == y as int);
            assert(wx == spec_wall(g0, my_index as int, AXIS_X as int));
            assert(wy == spec_wall(g0, my_index as int, AXIS_Y as int));
            assert(next@[my_index as int] == (TileV {
                wall_x: spec_wall(g0, my_index as int, AXIS_X as int),
                wall_y: spec_wall(g0, my_index as int, AXIS_Y as int),
                ..g0[my_index as int]
            }));
        }
        my_index = my_index + 1;
    }
    proof {
        assert(next@ =~= spec_find_walls(g0));
    }
}

/// A tile with one gas replaced and the mixture marked dirty.
pub open spec fn spec_with_gas(t: TileV, gas: int, v: Fix) -> TileV {
    TileV { gases: GasV { values: t.gases.values.update(gas, v), dirty: true }, ..t }
}

/// The running state of the reaction chain: the tile, plus the cached heat
/// capacity, temperature and thermal energy of the reacting fraction, and
/// the fuel burnt so far.
#[verifier::ext_equal]
pub ghost struct ReactT {
    pub t: TileV,
    pub heat_cap: Fix,
    pub temp: Fix,
    pub energy: Fix,
    pub fuel: Fix,
}

/// The amount of carbon dioxide agent B converts.
pub open spec fn spec_agent_b_converted(s: ReactT, fraction: Fix) -> Fix {
    let co2 = s.t.gases.values[GAS_CARBON_DIOXIDE as int];
    let tox = s.t.gases.values[GAS_TOXINS as int];
    let agb = s.t.gases.values[GAS_AGENT_B as int];
    spec_mul(
        fraction,
        spec_min(
            spec_min(spec_mul(co2, fix(7500)), spec_mul(tox, fix(2500))),
            spec_mul(agb, fix(500)),
        ),
    )
}

/// Agent B converts carbon dioxide to oxygen, consuming a little of itself,
/// above its activation temperature.
pub open spec fn spec_react_agent_b(s: ReactT, fraction: Fix) -> ReactT {
    if spec_gt(s.temp, fix(AGENT_B_CONVERSION_TEMP)) && spec_is_significant(s.t, GAS_AGENT_B as int)
        && spec_is_significant(s.t, GAS_CARBON_DIOXIDE as int) && spec_is_significant(
        s.t,
        GAS_TOXINS as int,
    ) {
        let co2 = s.t.gases.values[GAS_CARBON_DIOXIDE as int];
        let co2_converted = spec_agent_b_converted(s, fraction);
        let t1 = spec_with_gas(s.t, GAS_CARBON_DIOXIDE as int, spec_sub(co2, co2_converted));
        let t2 = spec_with_gas(
            t1,
            GAS_OXYGEN as int,
            spec_add(t1.gases.values[GAS_OXYGEN as int], co2_converted),
        );
        let t3 = spec_with_gas(
            t2,
            GAS_AGENT_B as int,
            spec_sub(t2.gases.values[GAS_AGENT_B as int], spec_mul(co2_converted, fix(500))),
        );
        let heat_cap = spec_mul(fraction, spec_heat_capacity(t3.gases));
        let energy = spec_add(
            spec_mul(s.temp, heat_cap),
            spec_mul(fix(AGENT_B_CONVERSION_ENERGY), co2_converted),
        );
        ReactT {
            t: t3,
            heat_cap,
            temp: spec_div(energy, heat_cap),
            energy,
            fuel: spec_add(s.fuel, co2_converted),
        }
    } else {
        s
    }
}

/// The fraction of the sleeping agent that breaks down, rising with
/// temperature: `(T - T*T/100000) * 2 / 100000`, clamped to `[0, 1]`.
pub open spec fn spec_nitrous_ratio(temp: Fix) -> Fix {
    spec_min(
        spec_max(
            spec_div(
                spec_mul(
                    spec_sub(temp, spec_div(spec_mul(temp, temp), fix(1_000_000_000))),
                    fix((2 * FIX_SCALE) as i64),
                ),
                fix(1_000_000_000),
            ),
            fix(0),
        ),
        fix(FIX_SCALE),
    )
}

/// The amount of sleeping agent that breaks down.
pub open spec fn spec_nitrous_decomposed(s: ReactT, fraction: Fix) -> Fix {
    spec_mul(
        spec_mul(spec_nitrous_ratio(s.temp), fraction),
        s.t.gases.values[GAS_SLEEPING_AGENT as int],
    )
}

/// Sleeping agent breaks down into nitrogen and oxygen above its breakdown
/// temperature, at a temperature-dependent rate.
pub open spec fn spec_react_nitrous(s: ReactT, fraction: Fix) -> ReactT {
    if spec_gt(s.temp, fix(SLEEPING_GAS_BREAKDOWN_TEMP)) && spec_is_significant(
        s.t,
        GAS_SLEEPING_AGENT as int,
    ) {
        let sleeping = s.t.gases.values[GAS_SLEEPING_AGENT as int];
        let decomposed = spec_nitrous_decomposed(s, fraction);
        let t1 = spec_with_gas(s.t, GAS_SLEEPING_AGENT as int, spec_sub(sleeping, decomposed));
        let t2 = spec_with_gas(
            t1,
            GAS_NITROGEN as int,
            spec_add(t1.gases.values[GAS_NITROGEN as int], decomposed),
        );
        let t3 = spec_with_gas(
            t2,
            GAS_OXYGEN as int,
            spec_add(
                t2.gases.values[GAS_OXYGEN as int],
                spec_div(decomposed, fix((2 * FIX_SCALE) as i64)),
            ),
        );
        let heat_cap = spec_mul(fraction, spec_heat_capacity(t3.gases));
        let energy = spec_add(
            spec_mul(s.temp, heat_cap),
            spec_mul(fix(NITROUS_BREAKDOWN_ENERGY), decomposed),
        );
        ReactT {
            t: t3,
            heat_cap,
            temp: spec_div(energy, heat_cap),
            energy,
            fuel: spec_add(s.fuel, decomposed),
        }
    } else {
        s
    }
}

/// How efficiently plasma burns: zero at the minimum burn temperature,
/// scaling linearly to one at the optimal temperature.
pub open spec fn spec_plasma_efficiency(temp: Fix) -> Fix {
    spec_min(
        spec_max(
            spec_div(
                spec_sub(temp, fix(PLASMA_BURN_MIN_TEMP)),
                spec_sub(fix(PLASMA_BURN_OPTIMAL_TEMP), fix(PLASMA_BURN_MIN_TEMP)),
            ),
            fix(0),
        ),
        fix(FIX_SCALE),
    )
}

/// The amount of plasma the fire consumes.
pub open spec fn spec_plasma_burnt(s: ReactT, fraction: Fix) -> Fix {
    let tox = s.t.gases.values[GAS_TOXINS as int];
    let oxy = s.t.gases.values[GAS_OXYGEN as int];
    let burnable = spec_mul(
        fraction,
        spec_min(tox, spec_div(oxy, fix(PLASMA_BURN_REQUIRED_OXYGEN_AVAILABILITY))),
    );
    spec_mul(spec_mul(spec_plasma_efficiency(s.temp), fix(PLASMA_BURN_MAX_RATIO)), burnable)
}

/// Plasma burns with oxygen into carbon dioxide above its minimum burn
/// temperature.
pub open spec fn spec_react_plasma(s: ReactT, fraction: Fix) -> ReactT {
    if spec_gt(s.temp, fix(PLASMA_BURN_MIN_TEMP)) && spec_is_significant(s.t, GAS_TOXINS as int)
        && spec_is_significant(s.t, GAS_OXYGEN as int) {
        let efficiency = spec_plasma_efficiency(s.temp);
        let oxygen_per_plasma = spec_add(
            fix(PLASMA_BURN_WORST_OXYGEN_PER_PLASMA),
            spec_mul(
                spec_sub(
                    fix(PLASMA_BURN_BEST_OXYGEN_PER_PLASMA),
                    fix(PLASMA_BURN_WORST_OXYGEN_PER_PLASMA),
                ),
                efficiency,
            ),
        );
        let burnt = spec_plasma_burnt(s, fraction);
        let tox = s.t.gases.values[GAS_TOXINS as int];
        let t1 = spec_with_gas(s.t, GAS_TOXINS as int, spec_sub(tox, burnt));
        let t2 = spec_with_gas(
            t1,
            GAS_CARBON_DIOXIDE as int,
            spec_add(t1.gases.values[GAS_CARBON_DIOXIDE as int], burnt),
        );
        let t3 = spec_with_gas(
            t2,
            GAS_OXYGEN as int,
            spec_sub(t2.gases.values[GAS_OXYGEN as int], spec_mul(burnt, oxygen_per_plasma)),
        );
        let heat_cap = spec_mul(fraction, spec_heat_capacity(t3.gases));
        let energy = spec_add(
            spec_mul(s.temp, heat_cap),
            spec_mul(fix(PLASMA_BURN_ENERGY), burnt),
        );
        ReactT { t: t3, heat_cap, temp: s.temp, energy, fuel: spec_add(s.fuel, burnt) }
    } else {
        s
    }
}

/// The reacting fraction of the tile on this pass.
pub open spec fn spec_react_fraction(t: TileV, hotspot_step: bool) -> Fix {
    if hotspot_step {
        t.hotspot_volume
    } else {
        spec_sub(fix(FIX_SCALE), t.hotspot_volume)
    }
}

/// Does the hotspot pass bail out and clear a spent hotspot?
pub open spec fn spec_react_hotspot_gone(t: TileV) -> bool {
    spec_le(t.hotspot_volume, fix(0)) || spec_le(t.hotspot_temperature, spec_temperature(t))
}

/// The tile after one reaction pass and the fuel burnt by it.
pub open spec fn spec_react(t: TileV, hotspot_step: bool) -> (TileV, Fix) {
    if hotspot_step && spec_react_hotspot_gone(t) {
        (TileV { hotspot_temperature: fix(0), hotspot_volume: fix(0), ..t }, fix(0))
    } else {
        let fraction = spec_react_fraction(t, hotspot_step);
        let heat_cap = spec_mul(fraction, spec_heat_capacity(t.gases));
        let temp = if hotspot_step {
            t.hotspot_temperature
        } else {
            spec_div(t.thermal_energy, heat_cap)
        };
        let energy = if hotspot_step {
            spec_mul(temp, heat_cap)
        } else {
            t.thermal_energy
        };
        let s0 = ReactT { t, heat_cap, temp, energy, fuel: fix(0) };
        let s3 = spec_react_plasma(
            spec_react_nitrous(spec_react_agent_b(s0, fraction), fraction),
            fraction,
        );
        if hotspot_step {
            if s3.fuel == fix(0) {
                (
                    TileV {
                        thermal_energy: spec_add(
                            s3.t.thermal_energy,
                            spec_sub(
                                s3.energy,
                                spec_mul(
                                    spec_sub(
                                        s3.t.hotspot_temperature,
                                        spec_temperature(s3.t),
                                    ),
                                    s3.heat_cap,
                                ),
                            ),
                        ),
                        hotspot_temperature: fix(0),
                        hotspot_volume: fix(0),
                        ..s3.t
                    },
                    fix(0),
                )
            } else {
                (
                    spec_adjust_hotspot(
                        s3.t,
                        spec_sub(s3.energy, spec_mul(s3.t.hotspot_temperature, s3.heat_cap)),
                    ),
                    s3.fuel,
                )
            }
        } else {
            (
                TileV {
                    thermal_energy: spec_add(s3.t.thermal_energy, spec_sub(s3.energy, energy)),
                    ..s3.t
                },
                s3.fuel,
            )
        }
    }
}

/// Agent B's conversion step of the reaction chain.
fn reaction_agent_b(
    tile: &mut Tile,
    fraction: Fix,
    heat_cap: &mut Fix,
    temp: &mut Fix,
    energy: &mut Fix,
    fuel: &mut Fix,
)
    requires
        tile_wf(old(tile)@),
    ensures
        ({
            let s1 = spec_react_agent_b(
                ReactT {
                    t: old(tile)@,
                    heat_cap: *old(heat_cap),
                    temp: *old(temp),
                    energy: *old(energy),
                    fuel: *old(fuel),
                },
                fraction,
            );
            final(tile)@ == s1.t && *final(heat_cap) == s1.heat_cap && *final(temp) == s1.temp
                && *final(energy) == s1.energy && *final(fuel) == s1.fuel
        }),
        tile_wf(final(tile)@),
{
    if temp.gt(Fix::of(AGENT_B_CONVERSION_TEMP)) && is_significant(tile, GAS_AGENT_B)
        && is_significant(tile, GAS_CARBON_DIOXIDE) && is_significant(tile, GAS_TOXINS) {
        let co2_converted = fraction.mul(
            tile.gases.carbon_dioxide().mul(Fix::of(7500)).min(
                tile.gases.toxins().mul(Fix::of(2500)),
            ).min(tile.gases.agent_b().mul(Fix::of(500))),
        );
        let new_co2 = tile.gases.carbon_dioxide().sub(co2_converted);
        tile.gases.set_carbon_dioxide(new_co2);
        let new_o2 = tile.gases.oxygen().add(co2_converted);
        tile.gases.set_oxygen(new_o2);
        let new_agb = tile.gases.agent_b().sub(co2_converted.mul(Fix::of(500)));
        tile.gases.set_agent_b(new_agb);
        *heat_cap = fraction.mul(tile.gases.heat_capacity());
        *energy = temp.mul(*heat_cap).add(Fix::of(AGENT_B_CONVERSION_ENERGY).mul(co2_converted));
        *temp = energy.div(*heat_cap);
        *fuel = fuel.add(co2_converted);
    }
}

/// The sleeping agent breakdown step of the reaction chain.
fn reaction_nitrous(
    tile: &mut Tile,
    fraction: Fix,
    heat_cap: &mut Fix,
    temp: &mut Fix,
    energy: &mut Fix,
    fuel: &mut Fix,
)
    requires
        tile_wf(old(tile)@),
    ensures
        ({
            let s1 = spec_react_nitrous(
                ReactT {
                    t: old(tile)@,
                    heat_cap: *old(heat_cap),
                    temp: *old(temp),
                    energy: *old(energy),
                    fuel: *old(fuel),
                },
                fraction,
            );
            final(tile)@ == s1.t && *final(heat_cap) == s1.heat_cap && *final(temp) == s1.temp
                && *final(energy) == s1.energy && *final(fuel) == s1.fuel
        }),
        tile_wf(final(tile)@),
{
    if temp.gt(Fix::of(SLEEPING_GAS_BREAKDOWN_TEMP)) && is_significant(tile, GAS_SLEEPING_AGENT) {
        let reaction_percent = temp.sub(temp.mul(*temp).div(Fix::of(1_000_000_000))).mul(
            Fix::of(2 * FIX_SCALE),
        ).div(Fix::of(1_000_000_000)).max(Fix::zero()).min(Fix::of(FIX_SCALE));
        let nitrous_decomposed = reaction_percent.mul(fraction).mul(tile.gases.sleeping_agent());
        let new_sleeping = tile.gases.sleeping_agent().sub(nitrous_decomposed);
        tile.gases.set_sleeping_agent(new_sleeping);
        let new_n2 = tile.gases.nitrogen().add(nitrous_decomposed);
        tile.gases.set_nitrogen(new_n2);
        let new_o2 = tile.gases.oxygen().add(nitrous_decomposed.div(Fix::of(2 * FIX_SCALE)));
        tile.gases.set_oxygen(new_o2);
        *heat_cap = fraction.mul(tile.gases.heat_capacity());
        *energy = temp.mul(*heat_cap).add(
            Fix::of(NITROUS_BREAKDOWN_ENERGY).mul(nitrous_decomposed),
        );
        *temp = energy.div(*heat_cap);
        *fuel = fuel.add(nitrous_decomposed);
    }
}

/// The plasma fire step of the reaction chain.
fn reaction_plasma(
    tile: &mut Tile,
    fraction: Fix,
    heat_cap: &mut Fix,
    temp: &mut Fix,
    energy: &mut Fix,
    fuel: &mut Fix,
)
    requires
        tile_wf(old(tile)@),
    ensures
        ({
            let s1 = spec_react_plasma(
                ReactT {
                    t: old(tile)@,
                    heat_cap: *old(heat_cap),
                    temp: *old(temp),
                    energy: *old(energy),
                    fuel: *old(fuel),
                },
                fraction,
            );
            final(tile)@ == s1.t && *final(heat_cap) == s1.heat_cap && *final(temp) == s1.temp
                && *final(energy) == s1.energy && *final(fuel) == s1.fuel
        }),
        tile_wf(final(tile)@),
{
    if temp.gt(Fix::of(PLASMA_BURN_MIN_TEMP)) && is_significant(tile, GAS_TOXINS)
        && is_significant(tile, GAS_OXYGEN) {
        let efficiency = temp.sub(Fix::of(PLASMA_BURN_MIN_TEMP)).div(
            Fix::of(PLASMA_BURN_OPTIMAL_TEMP).sub(Fix::of(PLASMA_BURN_MIN_TEMP)),
        ).max(Fix::zero()).min(Fix::of(FIX_SCALE));
        let oxygen_per_plasma = Fix::of(PLASMA_BURN_WORST_OXYGEN_PER_PLASMA).add(
            Fix::of(PLASMA_BURN_BEST_OXYGEN_PER_PLASMA).sub(
                Fix::of(PLASMA_BURN_WORST_OXYGEN_PER_PLASMA),
            ).mul(efficiency),
        );
        let burnable_plasma = fraction.mul(
            tile.gases.toxins().min(
                tile.gases.oxygen().div(Fix::of(PLASMA_BURN_REQUIRED_OXYGEN_AVAILABILITY)),
            ),
        );
        let plasma_burnt = efficiency.mul(Fix::of(PLASMA_BURN_MAX_RATIO)).mul(burnable_plasma);
        let new_tox = tile.gases.toxins().sub(plasma_burnt);
        tile.gases.set_toxins(new_tox);
        let new_co2 = tile.gases.carbon_dioxide().add(plasma_burnt);
        tile.gases.set_carbon_dioxide(new_co2);
        let new_o2 = tile.gases.oxygen().sub(plasma_burnt.mul(oxygen_per_plasma));
        tile.gases.set_oxygen(new_o2);
        *heat_cap = fraction.mul(tile.gases.heat_capacity());
        *energy = temp.mul(*heat_cap).add(Fix::of(PLASMA_BURN_ENERGY).mul(plasma_burnt));
        *fuel = fuel.add(plasma_burnt);
    }
}

/// Performs chemical reactions on one fraction of the tile: the hotspot
/// pass reacts the sub-tile fire region at its own temperature, the bulk
/// pass reacts the rest. Returns the fuel burnt.
pub fn react(my_next_tile: &mut Tile, hotspot_step: bool) -> (fuel_burnt: Fix)
    requires
        tile_wf(old(my_next_tile)@),
    ensures
        final(my_next_tile)@ == spec_react(old(my_next_tile)@, hotspot_step).0,
        fuel_burnt == spec_react(old(my_next_tile)@, hotspot_step).1,
        tile_wf(final(my_next_tile)@),
{
    let ghost t_in = my_next_tile@;
    let fraction: Fix;
    let mut cached_heat_capacity: Fix;
    let mut cached_temperature: Fix;
    let mut thermal_energy: Fix;
    if hotspot_step {
        if my_next_tile.hotspot_volume.le(Fix::zero()) || my_next_tile.hotspot_temperature.le(
            my_next_tile.temperature(),
        ) {
            my_next_tile.hotspot_temperature = Fix::zero();
            my_next_tile.hotspot_volume = Fix::zero();
            return Fix::zero();
        }
        fraction = my_next_tile.hotspot_volume;
        cached_heat_capacity = fraction.mul(my_next_tile.gases.heat_capacity());
        cached_temperature = my_next_tile.hotspot_temperature;
        thermal_energy = cached_temperature.mul(cached_heat_capacity);
    } else {
        fraction = Fix::of(FIX_SCALE).sub(my_next_tile.hotspot_volume);
        cached_heat_capacity = fraction.mul(my_next_tile.gases.heat_capacity());
        thermal_energy = my_next_tile.thermal_energy;
        cached_temperature = thermal_energy.div(cached_heat_capacity);
    }
    let initial_thermal_energy = thermal_energy;
    let mut fuel_burnt = Fix::zero();

    reaction_agent_b(
        my_next_tile,
        fraction,
        &mut cached_heat_capacity,
        &mut cached_temperature,
        &mut thermal_energy,
        &mut fuel_burnt,
    );
    reaction_nitrous(
        my_next_tile,
        fraction,
        &mut cached_heat_capacity,
        &mut cached_temperature,
        &mut thermal_energy,
        &mut fuel_burnt,
    );
    reaction_plasma(
        my_next_tile,
        fraction,
        &mut cached_heat_capacity,
        &mut cached_temperature,
        &mut thermal_energy,
        &mut fuel_burnt,
    );

    if hotspot_step {
        if fuel_burnt.finite && fuel_burnt.raw == 0 {
            my_next_tile.thermal_energy = my_next_tile.thermal_energy.add(
                thermal_energy.sub(
                    my_next_tile.hotspot_temperature.sub(my_next_tile.temperature()).mul(
                        cached_heat_capacity,
                    ),
                ),
            );
            my_next_tile.hotspot_temperature = Fix::zero();
            my_next_tile.hotspot_volume = Fix::zero();
            return Fix::zero();
        }
        adjust_hotspot(
            my_next_tile,
            thermal_energy.sub(my_next_tile.hotspot_temperature.mul(cached_heat_capacity)),
        );
    } else {
        my_next_tile.thermal_energy = my_next_tile.thermal_energy.add(
            thermal_energy.sub(initial_thermal_energy),
        );
    }

    fuel_burnt
}

/// Law: no reaction runs at or below its activation temperature; each
/// leaves the whole reaction state untouched.
pub proof fn lemma_reaction_activation(s: ReactT, fraction: Fix)
    ensures
        !spec_gt(s.temp, fix(AGENT_B_CONVERSION_TEMP)) ==> spec_react_agent_b(s, fraction) == s,
        !spec_gt(s.temp, fix(SLEEPING_GAS_BREAKDOWN_TEMP)) ==> spec_react_nitrous(s, fraction)
            == s,
        !spec_gt(s.temp, fix(PLASMA_BURN_MIN_TEMP)) ==> spec_react_plasma(s, fraction) == s,
{
}

/// Law: a bulk reaction pass on a tile cooler than every activation
/// temperature changes nothing and burns no fuel.
pub proof fn lemma_react_inert_when_cold(t: TileV)
    requires
        t.thermal_energy.finite,
        !spec_gt(
            spec_div(t.thermal_energy, spec_mul(spec_react_fraction(t, false), spec_heat_capacity(t.gases))),
            fix(PLASMA_BURN_MIN_TEMP),
        ),
        !spec_gt(
            spec_div(t.thermal_energy, spec_mul(spec_react_fraction(t, false), spec_heat_capacity(t.gases))),
            fix(AGENT_B_CONVERSION_TEMP),
        ),
        !spec_gt(
            spec_div(t.thermal_energy, spec_mul(spec_react_fraction(t, false), spec_heat_capacity(t.gases))),
            fix(SLEEPING_GAS_BREAKDOWN_TEMP),
        ),
    ensures
        spec_react(t, false).0 == t,
        spec_react(t, false).1 == fix(0),
{
    let fraction = spec_react_fraction(t, false);
    let heat_cap = spec_mul(fraction, spec_heat_capacity(t.gases));
    let temp = spec_div(t.thermal_energy, heat_cap);
    let s0 = ReactT { t, heat_cap, temp, energy: t.thermal_energy, fuel: fix(0) };
    lemma_reaction_activation(s0, fraction);
    assert(spec_react_plasma(spec_react_nitrous(spec_react_agent_b(s0, fraction), fraction), fraction) == s0);
}

/// Law: when a plasma fire burns a positive amount, toxins strictly fall,
/// carbon dioxide strictly rises, oxygen does not rise, and the burnt fuel
/// is added to the tally. The magnitude bounds keep the updates free of
/// overflow.
pub proof fn lemma_plasma_fire_directional(s: ReactT, fraction: Fix)
    requires
        s.t.gases.values.len() == GAS_COUNT,
        gases_sane(s.t.gases.values),
        spec_gt(s.temp, fix(PLASMA_BURN_MIN_TEMP)),
        spec_is_significant(s.t, GAS_TOXINS as int),
        spec_is_significant(s.t, GAS_OXYGEN as int),
        spec_gt(spec_plasma_burnt(s, fraction), fix(0)),
        spec_plasma_burnt(s, fraction).raw <= 1_000_000_000_000,
        s.t.gases.values[GAS_CARBON_DIOXIDE as int].raw <= 9_000_000_000_000_000_000,
        s.fuel == fix(0),
    ensures
        spec_react_plasma(s, fraction).t.gases.values[GAS_TOXINS as int].raw
            < s.t.gases.values[GAS_TOXINS as int].raw,
        spec_react_plasma(s, fraction).t.gases.values[GAS_CARBON_DIOXIDE as int].raw
            > s.t.gases.values[GAS_CARBON_DIOXIDE as int].raw,
        spec_le(
            spec_react_plasma(s, fraction).t.gases.values[GAS_OXYGEN as int],
            s.t.gases.values[GAS_OXYGEN as int],
        ),
        spec_react_plasma(s, fraction).fuel == spec_plasma_burnt(s, fraction),
{
    let burnt = spec_plasma_burnt(s, fraction);
    let efficiency = spec_plasma_efficiency(s.temp);
    assert(efficiency.finite && 0 <= efficiency.raw <= FIX_SCALE);
    let diff = spec_sub(
        fix(PLASMA_BURN_BEST_OXYGEN_PER_PLASMA),
        fix(PLASMA_BURN_WORST_OXYGEN_PER_PLASMA),
    );
    assert(diff == fix(-10000i64));
    let scaled = spec_mul(diff, efficiency);
    assert((-10000) * efficiency.raw == 10000 * (-efficiency.raw));
    vstd::arithmetic::div_mod::lemma_div_multiples_vanish(-efficiency.raw, 10000);
    assert(scaled == fix((-(efficiency.raw as int)) as i64));
    let opp = spec_add(fix(PLASMA_BURN_WORST_OXYGEN_PER_PLASMA), scaled);
    assert(opp.finite && 4000 <= opp.raw <= 14000);
    let used = spec_mul(burnt, opp);
    assert(burnt.raw * opp.raw >= 0) by (nonlinear_arith)
        requires
            burnt.raw >= 0,
            opp.raw >= 0,
    ;
    assert(burnt.raw * opp.raw <= 1_400_000_000_000_000_0) by (nonlinear_arith)
        requires
            0 <= burnt.raw <= 1_000_000_000_000,
            0 <= opp.raw <= 14000,
    ;
    lemma_div_is_ordered(0, burnt.raw * opp.raw, 10000);
    lemma_div_is_ordered(burnt.raw * opp.raw, 1_400_000_000_000_000_0, 10000);
    assert(used.finite && used.raw >= 0);
    let tox = s.t.gases.values[GAS_TOXINS as int];
    let oxy = s.t.gases.values[GAS_OXYGEN as int];
    let co2 = s.t.gases.values[GAS_CARBON_DIOXIDE as int];
    assert(tox.finite && tox.raw >= 0);
    assert(oxy.finite && oxy.raw >= 0);
    assert(co2.finite && co2.raw >= 0);
}

/// The distance between consecutive chain tiles: one row of tiles for the
/// X axis, one tile for the Y axis.
pub open spec fn spec_axis_step(axis: int) -> int {
    if axis == AXIS_X {
        MAP_SIZE as int
    } else {
        1
    }
}

/// Is tile `i` a member of the chain?
pub open spec fn spec_on_chain(chain_start: int, chain_end: int, step: int, i: int) -> bool {
    chain_start <= i <= chain_end && (i - chain_start) % step == 0
}

/// Total pressure of the first `n` chain tiles.
pub open spec fn spec_chain_pressure(g: Seq<TileV>, start: int, step: int, n: int) -> Fix
    decreases n,
{
    if n <= 0 {
        fix(0)
    } else {
        spec_add(
            spec_chain_pressure(g, start, step, n - 1),
            crate::model::spec_pressure(g[start + (n - 1) * step]),
        )
    }
}

proof fn lemma_chain_index(chain_start: int, chain_end: int, step: int, t: int)
    requires
        step > 0,
        chain_start <= chain_end,
        (chain_end - chain_start) % step == 0,
        0 <= t <= (chain_end - chain_start) / step,
    ensures
        chain_start <= chain_start + t * step <= chain_end,
        spec_on_chain(chain_start, chain_end, step, chain_start + t * step),
        t == (chain_end - chain_start) / step ==> chain_start + t * step == chain_end,
        t < (chain_end - chain_start) / step ==> chain_start + t * step + step <= chain_end,
{
    let d = (chain_end - chain_start) / step;
    vstd::arithmetic::div_mod::lemma_fundamental_div_mod(chain_end - chain_start, step);
    assert(chain_end - chain_start == step * d);
    assert(t * step >= 0) by (nonlinear_arith)
        requires
            t >= 0,
            step > 0,
    ;
    vstd::arithmetic::mul::lemma_mul_inequality(t, d, step);
    assert(t * step <= d * step);
    assert(d * step == step * d) by (nonlinear_arith);
    vstd::arithmetic::div_mod::lemma_mod_multiples_basic(t, step);
    assert((t * step) % step == 0);
    assert((chain_start + t * step - chain_start) % step == 0);
    if t < d {
        vstd::arithmetic::mul::lemma_mul_inequality(t + 1, d, step);
        assert((t + 1) * step == t * step + step) by (nonlinear_arith);
    }
}

/// `(n * FIX_SCALE - 1) / FIX_SCALE == n - 1`: a value strictly below a
/// whole number floors below it.
proof fn lemma_floor_just_below(n: int)
    ensures
        crate::fixnum::floor_div(n * FIX_SCALE - 1, FIX_SCALE as int) == n - 1,
{
    assert(n * FIX_SCALE - 1 == (n - 1) * (FIX_SCALE as int) + (FIX_SCALE - 1)) by (nonlinear_arith);
    vstd::arithmetic::div_mod::lemma_fundamental_div_mod_converse(
        n * FIX_SCALE - 1,
        FIX_SCALE as int,
        n - 1,
        FIX_SCALE - 1,
    );
}

/// One chain tile after extraction: half of the prior tile's gases and
/// thermal energy removed, the mixture marked dirty.
pub open spec fn spec_extract_tile(t: TileV, p: TileV) -> TileV {
    TileV {
        gases: GasV {
            values: Seq::new(
                t.gases.values.len(),
                |i: int|
                    spec_sub(
                        t.gases.values[i],
                        spec_div(p.gases.values[i], fix((2 * FIX_SCALE) as i64)),
                    ),
            ),
            dirty: true,
        },
        thermal_energy: spec_sub(
            t.thermal_energy,
            spec_div(p.thermal_energy, fix((2 * FIX_SCALE) as i64)),
        ),
        ..t
    }
}

/// One recipient tile after a deposit: `0.5 * value * offset_size / size`
/// of each of the prior tile's gases and of its thermal energy is added, or
/// the entire half when `whole` is set.
pub open spec fn spec_deposit_tile(t: TileV, p: TileV, offset_size: Fix, size: Fix, whole: bool) -> TileV {
    TileV {
        gases: GasV {
            values: Seq::new(
                t.gases.values.len(),
                |i: int|
                    if whole {
                        spec_add(
                            t.gases.values[i],
                            spec_div(p.gases.values[i], fix((2 * FIX_SCALE) as i64)),
                        )
                    } else {
                        spec_add(
                            t.gases.values[i],
                            spec_div(
                                spec_mul(
                                    spec_mul(fix((FIX_SCALE / 2) as i64), p.gases.values[i]),
                                    offset_size,
                                ),
                                size,
                            ),
                        )
                    },
            ),
            dirty: t.gases.dirty,
        },
        thermal_energy: if whole {
            spec_add(t.thermal_energy, spec_div(p.thermal_energy, fix((2 * FIX_SCALE) as i64)))
        } else {
            spec_add(
                t.thermal_energy,
                spec_div(
                    spec_mul(spec_mul(fix((FIX_SCALE / 2) as i64), p.thermal_energy), offset_size),
                    size,
                ),
            )
        },
        ..t
    }
}

/// One border tile after its momentum update: the old momentum decayed,
/// minus the stress.
pub open spec fn spec_chain_momentum_tile(t: TileV, axis: int, stress: Fix) -> TileV {
    spec_with_momentum(
        t,
        axis,
        spec_sub(spec_mul(spec_momentum(t, axis), fix(MOMENTUM_DECAY)), stress),
    )
}

/// Subtracts half of the prior tile's gases and thermal energy, marking the
/// mixture dirty: the half that the chain is about to redistribute.
#[verifier::loop_isolation(false)]
fn chain_extract_half(next: &mut ZLevel, index: usize, prev_tile: &Tile)
    requires
        zl_wf(old(next)@),
        index < old(next)@.len(),
        tile_wf(prev_tile@),
    ensures
        final(next)@.len() == old(next)@.len(),
        zl_wf(final(next)@),
        final(next)@ == old(next)@.update(
            index as int,
            spec_extract_tile(old(next)@[index as int], prev_tile@),
        ),
        forall|j: int|
            0 <= j < old(next)@.len() && j != index ==> final(next)@[j] == old(next)@[j],
        spec_statics_eq(final(next)@[index as int], old(next)@[index as int]),
{
    let ghost pre = next@;
    proof {
        assert(next@[index as int] == pre[index as int]);
        assert(tile_wf(pre[index as int]));
    }
    let two = Fix::of(2 * FIX_SCALE);
    let tile = &mut next.tiles[index];
    proof {
        assert(tile@ == pre[index as int]);
    }
    let ghost t0 = tile@;
    let mut gas: usize = 0;
    while gas < GAS_COUNT
        invariant
            gas <= GAS_COUNT,
            tile_wf(t0),
            tile@.gases.values.len() == GAS_COUNT,
            prev_tile@.gases.values.len() == GAS_COUNT,
            spec_statics_eq(tile@, t0),
            tile@.thermal_energy == t0.thermal_energy,
            tile@.momentum_x == t0.momentum_x,
            tile@.momentum_y == t0.momentum_y,
            tile@.gases.dirty == t0.gases.dirty,
            forall|j: int|
                0 <= j < gas ==> tile@.gases.values[j] == spec_sub(
                    t0.gases.values[j],
                    spec_div(prev_tile@.gases.values[j], fix((2 * FIX_SCALE) as i64)),
                ),
            forall|j: int| gas <= j < GAS_COUNT ==> tile@.gases.values[j] == t0.gases.values[j],
        decreases GAS_COUNT - gas,
    {
        let nv = tile.gases.values[gas].sub(prev_tile.gases.values[gas].div(two));
        tile.gases.values[gas] = nv;
        gas = gas + 1;
    }
    tile.gases.set_dirty();
    tile.thermal_energy = tile.thermal_energy.sub(prev_tile.thermal_energy.div(two));
    proof {
        assert(tile@.gases.values =~= spec_extract_tile(t0, prev_tile@).gases.values);
        assert(tile@ =~= spec_extract_tile(t0, prev_tile@));
        assert(next@ =~= pre.update(index as int, spec_extract_tile(t0, prev_tile@)));
        assert forall|j: int| 0 <= j < next@.len() implies tile_wf(#[trigger] next@[j]) by {
            if j != index {
                assert(next@[j] == pre[j]);
            }
        }
    }
}

/// Adds a share of the prior tile's held-back half into a recipient tile.
#[verifier::loop_isolation(false)]
fn chain_deposit(next: &mut ZLevel, index: usize, prev_tile: &Tile, offset_size: Fix, size: Fix, whole: bool)
    requires
        zl_wf(old(next)@),
        index < old(next)@.len(),
        tile_wf(prev_tile@),
    ensures
        final(next)@.len() == old(next)@.len(),
        zl_wf(final(next)@),
        final(next)@ == old(next)@.update(
            index as int,
            spec_deposit_tile(old(next)@[index as int], prev_tile@, offset_size, size, whole),
        ),
        forall|j: int|
            0 <= j < old(next)@.len() && j != index ==> final(next)@[j] == old(next)@[j],
        spec_statics_eq(final(next)@[index as int], old(next)@[index as int]),
{
    let ghost pre = next@;
    proof {
        assert(next@[index as int] == pre[index as int]);
        assert(tile_wf(pre[index as int]));
    }
    let two = Fix::of(2 * FIX_SCALE);
    let half = Fix::of(FIX_SCALE / 2);
    let tile = &mut next.tiles[index];
    proof {
        assert(tile@ == pre[index as int]);
    }
    let ghost t0 = tile@;
    let mut gas: usize = 0;
    while gas < GAS_COUNT
        invariant
            gas <= GAS_COUNT,
            tile_wf(t0),
            tile@.gases.values.len() == GAS_COUNT,
            prev_tile@.gases.values.len() == GAS_COUNT,
            spec_statics_eq(tile@, t0),
            tile@.thermal_energy == t0.thermal_energy,
            tile@.momentum_x == t0.momentum_x,
            tile@.momentum_y == t0.momentum_y,
            tile@.gases.dirty == t0.gases.dirty,
            forall|j: int|
                0 <= j < gas ==> tile@.gases.values[j] == spec_deposit_tile(
                    t0,
                    prev_tile@,
                    offset_size,
                    size,
                    whole,
                ).gases.values[j],
            forall|j: int| gas <= j < GAS_COUNT ==> tile@.gases.values[j] == t0.gases.values[j],
        decreases GAS_COUNT - gas,
    {
        let nv: Fix;
        if whole {
            nv = tile.gases.values[gas].add(prev_tile.gases.values[gas].div(two));
        } else {
            nv = tile.gases.values[gas].add(
                half.mul(prev_tile.gases.values[gas]).mul(offset_size).div(size),
            );
        }
        tile.gases.values[gas] = nv;
        gas = gas + 1;
    }
    if whole {
        tile.thermal_energy = tile.thermal_energy.add(prev_tile.thermal_energy.div(two));
    } else {
        tile.thermal_energy = tile.thermal_energy.add(
            half.mul(prev_tile.thermal_energy).mul(offset_size).div(size),
        );
    }
    proof {
        assert(tile@.gases.values =~= spec_deposit_tile(
            t0,
            prev_tile@,
            offset_size,
            size,
            whole,
        ).gases.values);
        assert(tile@ =~= spec_deposit_tile(t0, prev_tile@, offset_size, size, whole));
        assert(next@ =~= pre.update(
            index as int,
            spec_deposit_tile(t0, prev_tile@, offset_size, size, whole),
        ));
        assert forall|j: int| 0 <= j < next@.len() implies tile_wf(#[trigger] next@[j]) by {
            if j != index {
                assert(next@[j] == pre[j]);
            }
        }
    }
}

/// Decays a border tile's momentum and subtracts the computed stress.
#[verifier::loop_isolation(false)]
fn chain_update_momentum(next: &mut ZLevel, index: usize, axis: usize, stress: Fix)
    requires
        zl_wf(old(next)@),
        index < old(next)@.len(),
        axis == AXIS_X || axis == AXIS_Y,
    ensures
        final(next)@.len() == old(next)@.len(),
        zl_wf(final(next)@),
        final(next)@ == old(next)@.update(
            index as int,
            spec_chain_momentum_tile(old(next)@[index as int], axis as int, stress),
        ),
        forall|j: int|
            0 <= j < old(next)@.len() && j != index ==> final(next)@[j] == old(next)@[j],
        spec_statics_eq(final(next)@[index as int], old(next)@[index as int]),
{
    let ghost pre = next@;
    proof {
        assert(next@[index as int] == pre[index as int]);
        assert(tile_wf(pre[index as int]));
    }
    let tile = &mut next.tiles[index];
    proof {
        assert(tile@ == pre[index as int]);
    }
    let m = if axis == AXIS_X {
        tile.momentum_x
    } else {
        tile.momentum_y
    };
    let updated = m.mul(Fix::of(MOMENTUM_DECAY)).sub(stress);
    if axis == AXIS_X {
        tile.momentum_x = updated;
    } else {
        tile.momentum_y = updated;
    }
    proof {
        assert(tile@ =~= spec_chain_momentum_tile(pre[index as int], axis as int, stress));
        assert(next@ =~= pre.update(
            index as int,
            spec_chain_momentum_tile(pre[index as int], axis as int, stress),
        ));
        assert forall|j: int| 0 <= j < next@.len() implies tile_wf(#[trigger] next@[j]) by {
            if j != index {
                assert(next@[j] == pre[j]);
            }
        }
    }
}

/// Number of tiles in the chain.
pub open spec fn spec_chain_tiles(chain_start: int, chain_end: int, step: int) -> int {
    (chain_end - chain_start) / step + 1
}

/// Total pressure over the whole chain.
pub open spec fn spec_chain_total(prev: Seq<TileV>, chain_start: int, chain_end: int, step: int) -> Fix {
    spec_chain_pressure(prev, chain_start, step, spec_chain_tiles(chain_start, chain_end, step))
}

/// Where the border between chain tiles `j` and `j + 1` would sit if the
/// pressure equalized: the chain length times the pressure left of the
/// border, divided by the total pressure.
pub open spec fn spec_eq_position(
    prev: Seq<TileV>,
    chain_start: int,
    chain_end: int,
    step: int,
    j: int,
) -> Fix {
    let tiles = spec_chain_tiles(chain_start, chain_end, step);
    spec_div(
        spec_mul(
            fix((tiles * FIX_SCALE) as i64),
            spec_chain_pressure(prev, chain_start, step, j + 1),
        ),
        spec_chain_total(prev, chain_start, chain_end, step),
    )
}

/// The stress on border `offset`: toward the equilibrium positions, or
/// outward/inward when an end of the chain is space.
pub open spec fn spec_stress(
    prev: Seq<TileV>,
    chain_start: int,
    chain_end: int,
    axis: int,
    offset: int,
) -> Fix {
    let step = spec_axis_step(axis);
    let tiles = spec_chain_tiles(chain_start, chain_end, step);
    let index = chain_start + offset * step;
    let left_position = if offset > 0 {
        spec_eq_position(prev, chain_start, chain_end, step, offset - 1)
    } else {
        fix(0)
    };
    let position = spec_eq_position(prev, chain_start, chain_end, step, offset);
    let right_position = if offset + 1 < tiles - 1 {
        spec_eq_position(prev, chain_start, chain_end, step, offset + 1)
    } else {
        fix((tiles * FIX_SCALE) as i64)
    };
    let left_moles = spec_max(spec_moles(prev[index].gases), fix(MINIMUM_NONZERO_MOLES));
    let right_moles = spec_max(spec_moles(prev[index + step].gases), fix(MINIMUM_NONZERO_MOLES));
    let start_is_space = prev[chain_start].mode is Space;
    let end_is_space = prev[chain_end].mode is Space;
    if start_is_space && end_is_space {
        if index < (chain_start + chain_end) / 2 {
            spec_add(left_moles, right_moles)
        } else {
            spec_neg(spec_add(left_moles, right_moles))
        }
    } else if start_is_space {
        spec_add(left_moles, right_moles)
    } else if end_is_space {
        spec_neg(spec_add(left_moles, right_moles))
    } else {
        spec_add(
            spec_mul(
                spec_neg(spec_sub(spec_sub(position, left_position), fix(FIX_SCALE))),
                left_moles,
            ),
            spec_mul(spec_sub(spec_sub(right_position, position), fix(FIX_SCALE)), right_moles),
        )
    }
}

/// The grid after the first `n` border momentum updates.
pub open spec fn spec_momentum_pass(
    prev: Seq<TileV>,
    g: Seq<TileV>,
    chain_start: int,
    chain_end: int,
    axis: int,
    n: int,
) -> Seq<TileV>
    decreases n,
{
    if n <= 0 {
        g
    } else {
        let g2 = spec_momentum_pass(prev, g, chain_start, chain_end, axis, n - 1);
        let index = chain_start + (n - 1) * spec_axis_step(axis);
        g2.update(
            index,
            spec_chain_momentum_tile(
                g2[index],
                axis,
                spec_stress(prev, chain_start, chain_end, axis, n - 1),
            ),
        )
    }
}

/// The grid after the first `n` chain tiles have given up their halves.
pub open spec fn spec_extract_pass(
    prev: Seq<TileV>,
    g: Seq<TileV>,
    chain_start: int,
    step: int,
    n: int,
) -> Seq<TileV>
    decreases n,
{
    if n <= 0 {
        g
    } else {
        let g2 = spec_extract_pass(prev, g, chain_start, step, n - 1);
        let index = chain_start + (n - 1) * step;
        g2.update(index, spec_extract_tile(g2[index], prev[index]))
    }
}

/// Extraction never touches a tile at or past the pass's frontier.
proof fn lemma_extract_pass_above(
    prev: Seq<TileV>,
    g: Seq<TileV>,
    chain_start: int,
    step: int,
    n: int,
    i: int,
)
    requires
        step > 0,
        0 <= chain_start,
        chain_start + n * step <= i < g.len(),
    ensures
        spec_extract_pass(prev, g, chain_start, step, n).len() == g.len(),
        spec_extract_pass(prev, g, chain_start, step, n)[i] == g[i],
    decreases n,
{
    if n > 0 {
        assert(0 <= (n - 1) * step < n * step) by (nonlinear_arith)
            requires
                step > 0,
                n > 0,
        ;
        lemma_extract_pass_above(prev, g, chain_start, step, n - 1, i);
        let g2 = spec_extract_pass(prev, g, chain_start, step, n - 1);
        let index = chain_start + (n - 1) * step;
        assert(index < i);
        assert(g2.update(index, spec_extract_tile(g2[index], prev[index]))[i] == g2[i]);
    }
}

/// The forces handed to the solver: each border tile's updated momentum
/// times the momentum multiplier.
pub open spec fn spec_chain_forces(g: Seq<TileV>, chain_start: int, step: int, axis: int, m: int) -> Seq<Fix> {
    Seq::new(
        m as nat,
        |j: int| spec_mul(spec_momentum(g[chain_start + j * step], axis), fix(MOMENTUM_MULTIPLIER)),
    )
}

/// The spring constants handed to the solver: each chain tile's prior mole
/// count, floored at the minimum.
pub open spec fn spec_chain_mole_counts(prev: Seq<TileV>, chain_start: int, step: int, n: int) -> Seq<Fix> {
    Seq::new(
        n as nat,
        |j: int|
            spec_max(spec_moles(prev[chain_start + j * step].gases), fix(MINIMUM_NONZERO_MOLES)),
    )
}

/// The grid after the first `n` recipients of one tile's half have
/// received their shares, the recipients being offsets
/// `start_off ..= end_off`.
pub open spec fn spec_deposit_span(
    g: Seq<TileV>,
    p: TileV,
    chain_start: int,
    step: int,
    start_off: int,
    end_off: int,
    left: Fix,
    right: Fix,
    n: int,
) -> Seq<TileV>
    decreases n,
{
    if n <= 0 {
        g
    } else {
        let g2 = spec_deposit_span(g, p, chain_start, step, start_off, end_off, left, right, n - 1);
        let off = start_off + n - 1;
        let offset_size = if off == start_off {
            spec_sub(fix(((start_off + 1) * FIX_SCALE) as i64), left)
        } else if off == end_off {
            spec_sub(right, fix((end_off * FIX_SCALE) as i64))
        } else {
            fix(FIX_SCALE)
        };
        let index = chain_start + off * step;
        g2.update(
            index,
            spec_deposit_tile(g2[index], p, offset_size, spec_sub(right, left), false),
        )
    }
}

/// The grid and the running left edge after the first `n` chain tiles'
/// halves have been redistributed according to the displacements `x`.
pub open spec fn spec_redistribute(
    prev: Seq<TileV>,
    g: Seq<TileV>,
    x: Seq<Fix>,
    chain_start: int,
    step: int,
    tiles: int,
    n: int,
) -> (Seq<TileV>, Fix)
    decreases n,
{
    if n <= 0 {
        (g, fix(0))
    } else {
        let (g2, left) = spec_redistribute(prev, g, x, chain_start, step, tiles, n - 1);
        let i = n - 1;
        let right = spec_min(
            spec_add(fix(((i + 1) * FIX_SCALE) as i64), x[i]),
            fix((tiles * FIX_SCALE) as i64),
        );
        let p = prev[chain_start + i * step];
        let start_off = spec_floor0(spec_add(left, fix(1)));
        let end_off = spec_floor0(spec_sub(right, fix(1)));
        let g3 = if start_off >= end_off {
            g2.update(
                chain_start + end_off * step,
                spec_deposit_tile(g2[chain_start + end_off * step], p, fix(0), fix(0), true),
            )
        } else {
            spec_deposit_span(
                g2,
                p,
                chain_start,
                step,
                start_off,
                end_off,
                left,
                right,
                end_off - start_off + 1,
            )
        };
        (g3, if spec_gt(right, left) { right } else { left })
    }
}

/// The whole transport step on one chain: untouched when the chain holds no
/// pressure; otherwise the border momenta are updated from the stress,
/// every tile gives up half its contents, the spring chain is solved over
/// the updated momenta, and the halves are redistributed by the solved
/// displacements.
pub open spec fn spec_process_chain(
    prev: Seq<TileV>,
    g: Seq<TileV>,
    chain_start: int,
    chain_end: int,
    axis: int,
) -> Seq<TileV> {
    let step = spec_axis_step(axis);
    let tiles = spec_chain_tiles(chain_start, chain_end, step);
    if spec_chain_total(prev, chain_start, chain_end, step) == fix(0) {
        g
    } else {
        let gm = spec_momentum_pass(prev, g, chain_start, chain_end, axis, tiles - 1);
        let ge = spec_extract_pass(prev, gm, chain_start, step, tiles);
        let x = crate::spring_chain::spec_solve(
            spec_chain_mole_counts(prev, chain_start, step, tiles),
            spec_chain_forces(gm, chain_start, step, axis, tiles - 1),
            prev[chain_start].mode is Space,
            prev[chain_end].mode is Space,
        ).push(fix(0));
        spec_redistribute(prev, ge, x, chain_start, step, tiles, tiles).0
    }
}

/// Updates every border tile's momentum from the pressure gradient.
#[verifier::loop_isolation(false)]
#[verifier::rlimit(100)]
fn chain_momentum_pass(
    prev: &ZLevel,
    next: &mut ZLevel,
    chain_start: usize,
    chain_end: usize,
    axis: usize,
    total_pressure: Fix,
)
    requires
        zl_wf(prev@),
        zl_wf(old(next)@),
        prev@.len() == old(next)@.len(),
        axis == AXIS_X || axis == AXIS_Y,
        chain_start <= chain_end,
        chain_end < old(next)@.len(),
        (chain_end - chain_start) as int % spec_axis_step(axis as int) == 0,
        total_pressure == spec_chain_total(
            prev@,
            chain_start as int,
            chain_end as int,
            spec_axis_step(axis as int),
        ),
    ensures
        final(next)@.len() == old(next)@.len(),
        zl_wf(final(next)@),
        final(next)@ == spec_momentum_pass(
            prev@,
            old(next)@,
            chain_start as int,
            chain_end as int,
            axis as int,
            spec_chain_tiles(chain_start as int, chain_end as int, spec_axis_step(axis as int))
                - 1,
        ),
        forall|i: int|
            0 <= i < old(next)@.len() ==> spec_statics_eq(
                #[trigger] final(next)@[i],
                old(next)@[i],
            ),
        forall|i: int|
            0 <= i < old(next)@.len() && !spec_on_chain(
                chain_start as int,
                chain_end as int,
                spec_axis_step(axis as int),
                i,
            ) ==> #[trigger] final(next)@[i] == old(next)@[i],
{
    let ghost g1 = next@;
    let step: usize = if axis == AXIS_X {
        MAP_SIZE
    } else {
        1
    };
    let ghost stepg = step as int;
    let tile_delta = (chain_end - chain_start) / step;
    let ghost delta = tile_delta as int;
    let tiles = tile_delta + 1;
    let end_offset = Fix::of((tiles as i64) * FIX_SCALE);

    let start_is_space = prev.get_tile(chain_start).mode == AtmosMode::Space;
    let end_is_space = prev.get_tile(chain_end).mode == AtmosMode::Space;

    let mut equilibrium_positions: Vec<Fix> = Vec::new();
    let mut accumulated_pressure = Fix::zero();
    let mut t: usize = 0;
    while t < tiles - 1
        invariant
            t <= tiles - 1,
            equilibrium_positions@.len() == t,
            accumulated_pressure == spec_chain_pressure(
                prev@,
                chain_start as int,
                stepg,
                t as int,
            ),
            forall|jj: int|
                0 <= jj < t ==> equilibrium_positions@[jj] == spec_eq_position(
                    prev@,
                    chain_start as int,
                    chain_end as int,
                    stepg,
                    jj,
                ),
        decreases tiles - 1 - t,
    {
        proof {
            lemma_chain_index(chain_start as int, chain_end as int, stepg, t as int);
        }
        let index = chain_start + t * step;
        accumulated_pressure = accumulated_pressure.add(prev.get_tile(index).pressure());
        equilibrium_positions.push(end_offset.mul(accumulated_pressure).div(total_pressure));
        t = t + 1;
    }

    let midpoint = (chain_start + chain_end) / 2;
    let mut offset: usize = 0;
    while offset < tiles - 1
        invariant
            offset <= tiles - 1,
            next@.len() == g1.len(),
            zl_wf(next@),
            equilibrium_positions@.len() == tiles - 1,
            forall|jj: int|
                0 <= jj < tiles - 1 ==> equilibrium_positions@[jj] == spec_eq_position(
                    prev@,
                    chain_start as int,
                    chain_end as int,
                    stepg,
                    jj,
                ),
            next@ == spec_momentum_pass(
                prev@,
                g1,
                chain_start as int,
                chain_end as int,
                axis as int,
                offset as int,
            ),
            forall|i: int|
                0 <= i < g1.len() ==> spec_statics_eq(#[trigger] next@[i], g1[i]),
            forall|i: int|
                0 <= i < g1.len() && !spec_on_chain(
                    chain_start as int,
                    chain_end as int,
                    stepg,
                    i,
                ) ==> #[trigger] next@[i] == g1[i],
        decreases tiles - 1 - offset,
    {
        proof {
            lemma_chain_index(chain_start as int, chain_end as int, stepg, offset as int);
        }
        let index = chain_start + offset * step;
        let prev_tile = prev.get_tile(index);
        let moles = prev_tile.gases.moles().max(Fix::of(MINIMUM_NONZERO_MOLES));

        let mut left_position = Fix::zero();
        if offset > 0 {
            left_position = equilibrium_positions[offset - 1];
        }
        let left_moles = moles;

        let position = equilibrium_positions[offset];

        let prev_pos_tile = prev.get_tile(index + step);
        let mut right_position = end_offset;
        if offset + 1 < tiles - 1 {
            right_position = equilibrium_positions[offset + 1];
        }
        let right_moles = prev_pos_tile.gases.moles().max(Fix::of(MINIMUM_NONZERO_MOLES));

        let stress: Fix;
        if start_is_space && end_is_space {
            if index < midpoint {
                stress = left_moles.add(right_moles);
            } else {
                stress = left_moles.add(right_moles).neg();
            }
        } else if start_is_space {
            stress = left_moles.add(right_moles);
        } else if end_is_space {
            stress = left_moles.add(right_moles).neg();
        } else {
            stress = position.sub(left_position).sub(Fix::of(FIX_SCALE)).neg().mul(left_moles)
                .add(
                right_position.sub(position).sub(Fix::of(FIX_SCALE)).mul(right_moles),
            );
        }
        proof {
            assert(stress == spec_stress(
                prev@,
                chain_start as int,
                chain_end as int,
                axis as int,
                offset as int,
            ));
        }

        chain_update_momentum(next, index, axis, stress);
        offset = offset + 1;
    }
}

/// Removes half of every chain tile's gases and thermal energy, collecting
/// the solver's forces and spring constants on the way.
#[verifier::loop_isolation(false)]
#[verifier::rlimit(100)]
fn chain_extract_pass(
    prev: &ZLevel,
    next: &mut ZLevel,
    chain_start: usize,
    chain_end: usize,
    axis: usize,
) -> (r: (Vec<Fix>, Vec<Fix>))
    requires
        zl_wf(prev@),
        zl_wf(old(next)@),
        prev@.len() == old(next)@.len(),
        axis == AXIS_X || axis == AXIS_Y,
        chain_start <= chain_end,
        chain_end < old(next)@.len(),
        (chain_end - chain_start) as int % spec_axis_step(axis as int) == 0,
    ensures
        final(next)@.len() == old(next)@.len(),
        zl_wf(final(next)@),
        final(next)@ == spec_extract_pass(
            prev@,
            old(next)@,
            chain_start as int,
            spec_axis_step(axis as int),
            spec_chain_tiles(chain_start as int, chain_end as int, spec_axis_step(axis as int)),
        ),
        r.0@ == spec_chain_forces(
            old(next)@,
            chain_start as int,
            spec_axis_step(axis as int),
            axis as int,
            spec_chain_tiles(chain_start as int, chain_end as int, spec_axis_step(axis as int))
                - 1,
        ),
        r.1@ == spec_chain_mole_counts(
            prev@,
            chain_start as int,
            spec_axis_step(axis as int),
            spec_chain_tiles(chain_start as int, chain_end as int, spec_axis_step(axis as int)),
        ),
        forall|i: int|
            0 <= i < old(next)@.len() ==> spec_statics_eq(
                #[trigger] final(next)@[i],
                old(next)@[i],
            ),
        forall|i: int|
            0 <= i < old(next)@.len() && !spec_on_chain(
                chain_start as int,
                chain_end as int,
                spec_axis_step(axis as int),
                i,
            ) ==> #[trigger] final(next)@[i] == old(next)@[i],
{
    let ghost gm = next@;
    let step: usize = if axis == AXIS_X {
        MAP_SIZE
    } else {
        1
    };
    let ghost stepg = step as int;
    let tile_delta = (chain_end - chain_start) / step;
    let ghost delta = tile_delta as int;
    let tiles = tile_delta + 1;

    let mut momentum: Vec<Fix> = Vec::new();
    let mut mole_counts: Vec<Fix> = Vec::new();
    let mut t: usize = 0;
    while t < tiles
        invariant
            t <= tiles,
            next@.len() == gm.len(),
            zl_wf(next@),
            mole_counts@.len() == t,
            momentum@.len() == if t < tiles {
                t as int
            } else {
                t - 1
            },
            next@ == spec_extract_pass(prev@, gm, chain_start as int, stepg, t as int),
            forall|jj: int|
                0 <= jj < momentum@.len() ==> momentum@[jj] == spec_mul(
                    spec_momentum(gm[chain_start + jj * stepg], axis as int),
                    fix(MOMENTUM_MULTIPLIER),
                ),
            forall|jj: int|
                0 <= jj < t ==> mole_counts@[jj] == spec_max(
                    spec_moles(prev@[chain_start + jj * stepg].gases),
                    fix(MINIMUM_NONZERO_MOLES),
                ),
            forall|i: int|
                0 <= i < gm.len() ==> spec_statics_eq(#[trigger] next@[i], gm[i]),
            forall|i: int|
                0 <= i < gm.len() && !spec_on_chain(
                    chain_start as int,
                    chain_end as int,
                    stepg,
                    i,
                ) ==> #[trigger] next@[i] == gm[i],
        decreases tiles - t,
    {
        proof {
            lemma_chain_index(chain_start as int, chain_end as int, stepg, t as int);
            if t < tile_delta {
                assert((t as int) * stepg < delta * stepg) by (nonlinear_arith)
                    requires
                        (t as int) < delta,
                        stepg > 0,
                ;
            }
        }
        let index = chain_start + t * step;
        let prev_tile = prev.get_tile(index);

        proof {
            lemma_extract_pass_above(prev@, gm, chain_start as int, stepg, t as int, index as int);
        }
        chain_extract_half(next, index, prev_tile);

        if index != chain_end {
            let m = next.get_tile(index).momentum(axis);
            momentum.push(m.mul(Fix::of(MOMENTUM_MULTIPLIER)));
        }
        mole_counts.push(prev_tile.gases.moles().max(Fix::of(MINIMUM_NONZERO_MOLES)));
        t = t + 1;
    }
    proof {
        assert(momentum@ =~= spec_chain_forces(
            gm,
            chain_start as int,
            stepg,
            axis as int,
            delta,
        ));
        assert(mole_counts@ =~= spec_chain_mole_counts(
            prev@,
            chain_start as int,
            stepg,
            delta + 1,
        ));
    }
    (momentum, mole_counts)
}

/// Redistributes every chain tile's held-back half into whole tiles
/// according to the solved displacements.
#[verifier::loop_isolation(false)]
#[verifier::rlimit(100)]
#[verifier::spinoff_prover]
fn chain_redistribute(
    prev: &ZLevel,
    next: &mut ZLevel,
    chain_start: usize,
    chain_end: usize,
    axis: usize,
    displacements: &Vec<Fix>,
)
    requires
        zl_wf(prev@),
        zl_wf(old(next)@),
        prev@.len() == old(next)@.len(),
        axis == AXIS_X || axis == AXIS_Y,
        chain_start <= chain_end,
        chain_end < old(next)@.len(),
        (chain_end - chain_start) as int % spec_axis_step(axis as int) == 0,
        displacements@.len() == spec_chain_tiles(
            chain_start as int,
            chain_end as int,
            spec_axis_step(axis as int),
        ),
    ensures
        final(next)@.len() == old(next)@.len(),
        zl_wf(final(next)@),
        final(next)@ == spec_redistribute(
            prev@,
            old(next)@,
            displacements@,
            chain_start as int,
            spec_axis_step(axis as int),
            spec_chain_tiles(chain_start as int, chain_end as int, spec_axis_step(axis as int)),
            spec_chain_tiles(chain_start as int, chain_end as int, spec_axis_step(axis as int)),
        ).0,
        forall|i: int|
            0 <= i < old(next)@.len() ==> spec_statics_eq(
                #[trigger] final(next)@[i],
                old(next)@[i],
            ),
        forall|i: int|
            0 <= i < old(next)@.len() && !spec_on_chain(
                chain_start as int,
                chain_end as int,
                spec_axis_step(axis as int),
                i,
            ) ==> #[trigger] final(next)@[i] == old(next)@[i],
{
    let ghost ge = next@;
    let step: usize = if axis == AXIS_X {
        MAP_SIZE
    } else {
        1
    };
    let ghost stepg = step as int;
    let tile_delta = (chain_end - chain_start) / step;
    let ghost delta = tile_delta as int;
    let tiles = tile_delta + 1;
    let end_offset = Fix::of((tiles as i64) * FIX_SCALE);

    let mut left = Fix::zero();
    let mut i: usize = 0;
    while i < tiles
        invariant
            i <= tiles,
            tiles <= ge.len(),
            next@.len() == ge.len(),
            zl_wf(next@),
            displacements@.len() == tiles,
            left.finite,
            0 <= left.raw <= (tiles as int) * FIX_SCALE,
            end_offset == fix(((tiles as int) * FIX_SCALE) as i64),
            (next@, left) == spec_redistribute(
                prev@,
                ge,
                displacements@,
                chain_start as int,
                stepg,
                tiles as int,
                i as int,
            ),
            forall|j: int|
                0 <= j < ge.len() ==> spec_statics_eq(#[trigger] next@[j], ge[j]),
            forall|j: int|
                0 <= j < ge.len() && !spec_on_chain(
                    chain_start as int,
                    chain_end as int,
                    stepg,
                    j,
                ) ==> #[trigger] next@[j] == ge[j],
        decreases tiles - i,
    {
        let right = Fix::of(((i + 1) as i64) * FIX_SCALE).add(displacements[i]).min(end_offset);
        proof {
            lemma_chain_index(chain_start as int, chain_end as int, stepg, i as int);
            lemma_floor_just_below(tiles as int);
        }
        let prev_tile = prev.get_tile(chain_start + i * step);

        let start_off = left.add(Fix::of(1)).floor0();
        let end_off = right.sub(Fix::of(1)).floor0();
        proof {
            if right.finite && right.raw - 1 >= 0 {
                lemma_div_is_ordered(
                    right.raw - 1,
                    (tiles as int) * FIX_SCALE - 1,
                    FIX_SCALE as int,
                );
            }
            assert(end_off <= tiles - 1);
            lemma_chain_index(chain_start as int, chain_end as int, stepg, end_off as int);
        }
        if start_off >= end_off {
            chain_deposit(
                next,
                chain_start + end_off * step,
                prev_tile,
                Fix::zero(),
                Fix::zero(),
                true,
            );
            if right.gt(left) {
                left = right;
            }
            i = i + 1;
            continue ;
        }
        let ghost g_outer = next@;
        let size = right.sub(left);
        let mut offset = start_off;
        while offset <= end_off
            invariant
                start_off <= offset,
                offset <= end_off + 1,
                start_off < end_off,
                end_off <= tiles - 1,
                next@.len() == ge.len(),
                zl_wf(next@),
                tile_wf(prev_tile@),
                prev_tile@ == prev@[chain_start + i * stepg],
                size == spec_sub(right, left),
                next@ == spec_deposit_span(
                    g_outer,
                    prev_tile@,
                    chain_start as int,
                    stepg,
                    start_off as int,
                    end_off as int,
                    left,
                    right,
                    offset - start_off,
                ),
                forall|j: int|
                    0 <= j < ge.len() ==> spec_statics_eq(#[trigger] next@[j], ge[j]),
                forall|j: int|
                    0 <= j < ge.len() && !spec_on_chain(
                        chain_start as int,
                        chain_end as int,
                        stepg,
                        j,
                    ) ==> #[trigger] next@[j] == ge[j],
            decreases end_off + 1 - offset,
        {
            let offset_size: Fix;
            if offset == start_off {
                offset_size = Fix::of(((start_off + 1) as i64) * FIX_SCALE).sub(left);
            } else if offset == end_off {
                offset_size = right.sub(Fix::of((end_off as i64) * FIX_SCALE));
            } else {
                offset_size = Fix::of(FIX_SCALE);
            }
            proof {
                lemma_chain_index(chain_start as int, chain_end as int, stepg, offset as int);
            }
            chain_deposit(
                next,
                chain_start + offset * step,
                prev_tile,
                offset_size,
                size,
                false,
            );
            offset = offset + 1;
        }
        if right.gt(left) {
            left = right;
        }
        i = i + 1;
    }
}

/// Handles a single chain of connected tiles along one axis: updates border
/// momentum from the pressure gradient, removes half of every tile's gas
/// and thermal energy, solves the spring chain, and redistributes the
/// removed half according to the solved displacements.
///
/// The result is pinned exactly: it equals [`spec_process_chain`] of the
/// prior and current grids. In particular a chain whose tiles hold no
/// pressure at all is left exactly as it was: gas transport never creates
/// gas from nothing.
#[verifier::loop_isolation(false)]
#[verifier::rlimit(100)]
pub fn process_chain(
    prev: &ZLevel,
    next: &mut ZLevel,
    chain_start: usize,
    chain_end: usize,
    axis: usize,
)
    requires
        zl_wf(prev@),
        zl_wf(old(next)@),
        prev@.len() == old(next)@.len(),
        axis == AXIS_X || axis == AXIS_Y,
        chain_start <= chain_end,
        chain_end < old(next)@.len(),
        (chain_end - chain_start) as int % spec_axis_step(axis as int) == 0,
    ensures
        final(next)@.len() == old(next)@.len(),
        zl_wf(final(next)@),
        final(next)@ == spec_process_chain(
            prev@,
            old(next)@,
            chain_start as int,
            chain_end as int,
            axis as int,
        ),
        forall|i: int|
            0 <= i < old(next)@.len() ==> spec_statics_eq(
                #[trigger] final(next)@[i],
                old(next)@[i],
            ),
        forall|i: int|
            0 <= i < old(next)@.len() && !spec_on_chain(
                chain_start as int,
                chain_end as int,
                spec_axis_step(axis as int),
                i,
            ) ==> #[trigger] final(next)@[i] == old(next)@[i],
        spec_chain_total(
            prev@,
            chain_start as int,
            chain_end as int,
            spec_axis_step(axis as int),
        ) == fix(0) ==> final(next)@ == old(next)@,
{
    let ghost g1 = next@;
    let step: usize = if axis == AXIS_X {
        MAP_SIZE
    } else {
        1
    };
    let ghost stepg = step as int;
    let ghost delta = (chain_end - chain_start) as int / stepg;

    let tile_delta = (chain_end - chain_start) / step;
    let tiles = tile_delta + 1;

    let mut total_pressure = Fix::zero();
    let mut t: usize = 0;
    while t < tiles
        invariant
            t <= tiles,
            total_pressure == spec_chain_pressure(prev@, chain_start as int, stepg, t as int),
        decreases tiles - t,
    {
        proof {
            lemma_chain_index(chain_start as int, chain_end as int, stepg, t as int);
        }
        let index = chain_start + t * step;
        total_pressure = total_pressure.add(prev.get_tile(index).pressure());
        t = t + 1;
    }

    if total_pressure == Fix::zero() {
        return ;
    }

    let start_is_space = prev.get_tile(chain_start).mode == AtmosMode::Space;
    let end_is_space = prev.get_tile(chain_end).mode == AtmosMode::Space;

    chain_momentum_pass(prev, next, chain_start, chain_end, axis, total_pressure);
    let ghost gm = next@;

    let (momentum, mole_counts) = chain_extract_pass(prev, next, chain_start, chain_end, axis);
    let ghost ge = next@;

    let mut displacements = crate::spring_chain::solve(
        mole_counts,
        momentum,
        start_is_space,
        end_is_space,
    );
    displacements.push(Fix::zero());
    proof {
        assert(displacements@ =~= crate::spring_chain::spec_solve(
            spec_chain_mole_counts(prev@, chain_start as int, stepg, tiles as int),
            spec_chain_forces(gm, chain_start as int, stepg, axis as int, tiles as int - 1),
            prev@[chain_start as int].mode is Space,
            prev@[chain_end as int].mode is Space,
        ).push(fix(0)));
    }

    chain_redistribute(prev, next, chain_start, chain_end, axis, &displacements);

    proof {
        assert(final(next)@ == spec_process_chain(
            prev@,
            g1,
            chain_start as int,
            chain_end as int,
            axis as int,
        ));
        assert forall|i: int| 0 <= i < g1.len() implies spec_statics_eq(
            #[trigger] final(next)@[i],
            g1[i],
        ) by {
            assert(spec_statics_eq(final(next)@[i], ge[i]));
            assert(spec_statics_eq(ge[i], gm[i]));
            assert(spec_statics_eq(gm[i], g1[i]));
        }
        assert forall|i: int|
            0 <= i < g1.len() && !spec_on_chain(
                chain_start as int,
                chain_end as int,
                stepg,
                i,
            ) implies #[trigger] final(next)@[i] == g1[i] by {
            assert(final(next)@[i] == ge[i]);
            assert(ge[i] == gm[i]);
            assert(gm[i] == g1[i]);
        }
    }
}

/// Represents a chain of connected tiles along one axis, built up tile by
/// tile as the grid is walked.
pub struct Chain {
    pub axis: usize,
    pub started: bool,
    pub start_index: usize,
}

/// One step of the chain walk: the new bookkeeping state and the new grid.
/// A wall closes and processes the chain; a space tile closes it and starts
/// a new one at the same tile.
pub open spec fn spec_progress(prev: Seq<TileV>, g: Seq<TileV>, c: Chain, index: usize) -> (
    Chain,
    Seq<TileV>,
) {
    let w = spec_wall_flag(g[index as int], c.axis as int);
    let sp = g[index as int].mode is Space;
    if !c.started {
        if !w {
            ((Chain { started: true, start_index: index, ..c }), g)
        } else {
            (c, g)
        }
    } else if w {
        (
            (Chain { started: false, ..c }),
            spec_process_chain(prev, g, c.start_index as int, index as int, c.axis as int),
        )
    } else if sp {
        (
            (Chain { started: true, start_index: index, ..c }),
            spec_process_chain(prev, g, c.start_index as int, index as int, c.axis as int),
        )
    } else {
        (c, g)
    }
}

impl Chain {
    pub fn new(axis: usize) -> (r: Chain)
        requires
            axis == AXIS_X || axis == AXIS_Y,
        ensures
            r.axis == axis,
            !r.started,
            r.start_index == 0,
    {
        Chain { axis, started: false, start_index: 0 }
    }

    /// Progress the chain over the tile at `index`. A wall closes the chain
    /// and processes it; a space tile closes it and immediately starts a
    /// new chain at the same tile. Both the new bookkeeping state and the
    /// new grid are pinned by [`spec_progress`].
    pub fn progress(&mut self, prev: &ZLevel, next: &mut ZLevel, index: usize)
        requires
            zl_wf(prev@),
            zl_wf(old(next)@),
            prev@.len() == old(next)@.len(),
            index < old(next)@.len(),
            old(self).axis == AXIS_X || old(self).axis == AXIS_Y,
            old(self).started ==> old(self).start_index <= index && (index - old(
                self,
            ).start_index) as int % spec_axis_step(old(self).axis as int) == 0,
        ensures
            final(self).axis == old(self).axis,
            final(next)@.len() == old(next)@.len(),
            zl_wf(final(next)@),
            *final(self) == spec_progress(prev@, old(next)@, *old(self), index).0,
            final(next)@ == spec_progress(prev@, old(next)@, *old(self), index).1,
            forall|i: int|
                0 <= i < old(next)@.len() ==> spec_statics_eq(
                    #[trigger] final(next)@[i],
                    old(next)@[i],
                ),
            ({
                let w = spec_wall_flag(old(next)@[index as int], old(self).axis as int);
                let sp = old(next)@[index as int].mode is Space;
                if !old(self).started {
                    &&& final(next)@ == old(next)@
                    &&& final(self).started == !w
                    &&& (!w ==> final(self).start_index == index)
                    &&& (w ==> *final(self) == *old(self))
                } else if !w && !sp {
                    &&& final(next)@ == old(next)@
                    &&& *final(self) == *old(self)
                } else {
                    &&& final(self).started == (!w && sp)
                    &&& (!w && sp ==> final(self).start_index == index)
                    &&& forall|i: int|
                        0 <= i < old(next)@.len() && !spec_on_chain(
                            old(self).start_index as int,
                            index as int,
                            spec_axis_step(old(self).axis as int),
                            i,
                        ) ==> #[trigger] final(next)@[i] == old(next)@[i]
                }
            }),
    {
        let mut complete = false;
        let mut should_restart = false;
        {
            let next_tile = next.get_tile(index);
            if !self.started && !next_tile.wall(self.axis) {
                self.started = true;
                self.start_index = index;
            } else if self.started && next_tile.wall(self.axis) {
                complete = true;
            } else if self.started && next_tile.mode == AtmosMode::Space {
                complete = true;
                should_restart = true;
            }
        }

        if !complete {
            return ;
        }

        process_chain(prev, next, self.start_index, index, self.axis);
        if should_restart {
            self.start_index = index;
        } else {
            self.started = false;
        }
    }
}

/// The grid after the column pass: the chain walk folded over the first
/// `n` flat indices.
pub open spec fn spec_y_pass(prev: Seq<TileV>, g: Seq<TileV>, c: Chain, n: int) -> (
    Chain,
    Seq<TileV>,
)
    decreases n,
{
    if n <= 0 {
        (c, g)
    } else {
        let (c2, g2) = spec_y_pass(prev, g, c, n - 1);
        spec_progress(prev, g2, c2, (n - 1) as usize)
    }
}

/// The grid after the row pass: the chain walk folded over the first `n`
/// row-major positions, each mapped to its flat index.
pub open spec fn spec_x_pass(prev: Seq<TileV>, g: Seq<TileV>, c: Chain, n: int) -> (
    Chain,
    Seq<TileV>,
)
    decreases n,
{
    if n <= 0 {
        (c, g)
    } else {
        let (c2, g2) = spec_x_pass(prev, g, c, n - 1);
        let y = (n - 1) / (MAP_SIZE as int);
        let x = (n - 1) % (MAP_SIZE as int);
        spec_progress(prev, g2, c2, (x * MAP_SIZE + y) as usize)
    }
}

/// Both transport passes: down every column, then across every row.
pub open spec fn spec_pressure_flow(prev: Seq<TileV>, g: Seq<TileV>) -> Seq<TileV> {
    let gy = spec_y_pass(
        prev,
        g,
        (Chain { axis: AXIS_Y, started: false, start_index: 0 }),
        (MAP_SIZE * MAP_SIZE) as int,
    ).1;
    spec_x_pass(
        prev,
        gy,
        (Chain { axis: AXIS_X, started: false, start_index: 0 }),
        (MAP_SIZE * MAP_SIZE) as int,
    ).1
}

/// Every tile on the map's far edges has a wall toward the outside; wall
/// detection establishes this and pressure flow relies on it to close each
/// row's and column's chains.
pub open spec fn spec_edge_walls(g: Seq<TileV>) -> bool {
    forall|i: int|
        0 <= i < g.len() ==> ((i % (MAP_SIZE as int) == MAP_SIZE - 1 ==> (#[trigger] g[i]).wall_y)
            && (i / (MAP_SIZE as int) == MAP_SIZE - 1 ==> g[i].wall_x))
}

/// The core of the atmos engine: moving gases around. Runs the chain
/// decomposition down every column, then across every row. Only gases,
/// thermal energy and momentum change; every static field is preserved.
#[verifier::loop_isolation(false)]
#[verifier::rlimit(100)]
#[verifier::spinoff_prover]
pub fn pressure_flow(prev: &ZLevel, next: &mut ZLevel)
    requires
        zl_wf(prev@),
        zl_wf(old(next)@),
        prev@.len() == old(next)@.len(),
        old(next)@.len() == MAP_SIZE * MAP_SIZE,
        spec_edge_walls(old(next)@),
    ensures
        final(next)@.len() == old(next)@.len(),
        zl_wf(final(next)@),
        final(next)@ == spec_pressure_flow(prev@, old(next)@),
        forall|i: int|
            0 <= i < old(next)@.len() ==> spec_statics_eq(
                #[trigger] final(next)@[i],
                old(next)@[i],
            ),
{
    let ghost g0 = next@;
    let mut y_chain = Chain::new(AXIS_Y);
    let ghost cy0 = y_chain;
    let mut index: usize = 0;
    while index < MAP_SIZE * MAP_SIZE
        invariant
            index <= MAP_SIZE * MAP_SIZE,
            next@.len() == g0.len(),
            zl_wf(next@),
            y_chain.axis == AXIS_Y,
            y_chain.started ==> y_chain.start_index <= index,
            (y_chain, next@) == spec_y_pass(prev@, g0, cy0, index as int),
            forall|i: int|
                0 <= i < g0.len() ==> spec_statics_eq(#[trigger] next@[i], g0[i]),
        decreases MAP_SIZE * MAP_SIZE - index,
    {
        y_chain.progress(prev, next, index);
        index = index + 1;
    }

    let ghost gy = next@;
    let mut x_chain = Chain::new(AXIS_X);
    let ghost cx0 = x_chain;
    let mut inv_index: usize = 0;
    while inv_index < MAP_SIZE * MAP_SIZE
        invariant
            inv_index <= MAP_SIZE * MAP_SIZE,
            next@.len() == g0.len(),
            zl_wf(next@),
            x_chain.axis == AXIS_X,
            (x_chain, next@) == spec_x_pass(prev@, gy, cx0, inv_index as int),
            x_chain.started ==> inv_index % MAP_SIZE > 0 && x_chain.start_index
                < MAP_SIZE * MAP_SIZE && x_chain.start_index as int % (MAP_SIZE as int)
                == inv_index as int / (MAP_SIZE as int) && x_chain.start_index as int / (
            MAP_SIZE as int) < inv_index as int % (MAP_SIZE as int),
            forall|i: int|
                0 <= i < g0.len() ==> spec_statics_eq(#[trigger] next@[i], g0[i]),
        decreases MAP_SIZE * MAP_SIZE - inv_index,
    {
        let y = inv_index / MAP_SIZE;
        let x = inv_index % MAP_SIZE;
        let index = x * MAP_SIZE + y;
        proof {
            lemma_linear_index(x as int, y as int);
            if x_chain.started {
                lemma_linear_index(
                    x_chain.start_index as int / (MAP_SIZE as int),
                    x_chain.start_index as int % (MAP_SIZE as int),
                );
                vstd::arithmetic::div_mod::lemma_fundamental_div_mod(
                    x_chain.start_index as int,
                    MAP_SIZE as int,
                );
                let sx = x_chain.start_index as int / (MAP_SIZE as int);
                assert((x as int) * MAP_SIZE + y - (sx * MAP_SIZE + y) == (x - sx) * MAP_SIZE)
                    by (nonlinear_arith);
                vstd::arithmetic::div_mod::lemma_mod_multiples_basic(
                    x as int - sx,
                    MAP_SIZE as int,
                );
                assert((x as int - sx) * MAP_SIZE >= MAP_SIZE) by (nonlinear_arith)
                    requires
                        x as int - sx >= 1,
                ;
            }
        }
        let ghost pre = next@;
        let ghost chain_pre = x_chain;
        x_chain.progress(prev, next, index);
        proof {
            if x_chain.started {
                assert(x_chain.start_index == index || x_chain.start_index
                    == chain_pre.start_index);
                if x < MAP_SIZE - 1 {
                    assert((inv_index + 1) as int / (MAP_SIZE as int) == y as int
                        && (inv_index + 1) as int % (MAP_SIZE as int) == x as int + 1) by {
                        vstd::arithmetic::div_mod::lemma_fundamental_div_mod_converse(
                            inv_index as int + 1,
                            MAP_SIZE as int,
                            y as int,
                            x as int + 1,
                        );
                    }
                } else {
                    // the line's last tile has an edge wall, so the chain closed
                    assert(spec_statics_eq(pre[index as int], g0[index as int]));
                    assert(g0[index as int].wall_x);
                    assert(false);
                }
            }
        }
        inv_index = inv_index + 1;
    }
}

/// Law: when the sleeping agent breakdown runs and decomposes a positive
/// amount, the sleeping agent strictly falls while nitrogen strictly rises
/// and oxygen does not fall. The magnitude bounds keep the updates free of
/// overflow.
pub proof fn lemma_nitrous_directional(s: ReactT, fraction: Fix)
    requires
        s.t.gases.values.len() == GAS_COUNT,
        gases_sane(s.t.gases.values),
        spec_gt(s.temp, fix(SLEEPING_GAS_BREAKDOWN_TEMP)),
        spec_is_significant(s.t, GAS_SLEEPING_AGENT as int),
        spec_gt(spec_nitrous_decomposed(s, fraction), fix(0)),
        spec_nitrous_decomposed(s, fraction).raw <= 1_000_000_000_000,
        s.t.gases.values[GAS_NITROGEN as int].raw <= 9_000_000_000_000_000_000,
        s.t.gases.values[GAS_OXYGEN as int].raw <= 9_000_000_000_000_000_000,
    ensures
        spec_react_nitrous(s, fraction).t.gases.values[GAS_SLEEPING_AGENT as int].raw
            < s.t.gases.values[GAS_SLEEPING_AGENT as int].raw,
        spec_react_nitrous(s, fraction).t.gases.values[GAS_NITROGEN as int].raw
            > s.t.gases.values[GAS_NITROGEN as int].raw,
        spec_react_nitrous(s, fraction).t.gases.values[GAS_OXYGEN as int].raw
            >= s.t.gases.values[GAS_OXYGEN as int].raw,
{
    let dec = spec_nitrous_decomposed(s, fraction);
    lemma_div_is_ordered(0, dec.raw as int * FIX_SCALE, 2 * FIX_SCALE as int);
    assert(spec_div(dec, fix((2 * FIX_SCALE) as i64)).raw >= 0);
}

/// Law: when agent B converts a positive amount of carbon dioxide, the
/// carbon dioxide strictly falls, oxygen strictly rises, and agent B does
/// not rise. The magnitude bounds keep the updates free of overflow.
pub proof fn lemma_agent_b_directional(s: ReactT, fraction: Fix)
    requires
        s.t.gases.values.len() == GAS_COUNT,
        gases_sane(s.t.gases.values),
        spec_gt(s.temp, fix(AGENT_B_CONVERSION_TEMP)),
        spec_is_significant(s.t, GAS_AGENT_B as int),
        spec_is_significant(s.t, GAS_CARBON_DIOXIDE as int),
        spec_is_significant(s.t, GAS_TOXINS as int),
        spec_gt(spec_agent_b_converted(s, fraction), fix(0)),
        spec_agent_b_converted(s, fraction).raw <= 1_000_000_000_000,
        s.t.gases.values[GAS_OXYGEN as int].raw <= 9_000_000_000_000_000_000,
    ensures
        spec_react_agent_b(s, fraction).t.gases.values[GAS_CARBON_DIOXIDE as int].raw
            < s.t.gases.values[GAS_CARBON_DIOXIDE as int].raw,
        spec_react_agent_b(s, fraction).t.gases.values[GAS_OXYGEN as int].raw
            > s.t.gases.values[GAS_OXYGEN as int].raw,
        spec_react_agent_b(s, fraction).t.gases.values[GAS_AGENT_B as int].raw
            <= s.t.gases.values[GAS_AGENT_B as int].raw,
{
    let conv = spec_agent_b_converted(s, fraction);
    assert(conv.raw * 500 >= 0) by (nonlinear_arith)
        requires
            conv.raw >= 0,
    ;
    assert(conv.raw * 500 <= 500_000_000_000_000_0) by (nonlinear_arith)
        requires
            0 <= conv.raw <= 1_000_000_000_000,
    ;
    lemma_div_is_ordered(0, conv.raw as int * 500, FIX_SCALE as int);
    lemma_div_is_ordered(conv.raw as int * 500, 500_000_000_000_000_0, FIX_SCALE as int);
    assert(spec_mul(conv, fix(500)).finite && spec_mul(conv, fix(500)).raw >= 0);
}

/// The transfer coefficient superconduction starts from: the smaller of the
/// two facing edge coefficients, or the open coefficient when forced.
pub open spec fn spec_transfer_coefficient(a: TileV, b: TileV, is_east: bool, force: bool) -> Fix {
    if force {
        fix(OPEN_HEAT_TRANSFER_COEFFICIENT)
    } else if is_east {
        spec_min(a.superconductivity.east, b.superconductivity.west)
    } else {
        spec_min(a.superconductivity.north, b.superconductivity.south)
    }
}

/// Does superconduction leave both tiles untouched? True when the edge is
/// closed or either tile has no heat capacity.
pub open spec fn spec_superconduct_skips(a: TileV, b: TileV, is_east: bool, force: bool) -> bool {
    let coeff = spec_transfer_coefficient(a, b, is_east, force);
    spec_le(coeff, fix(0)) || spec_le(spec_heat_capacity(a.gases), fix(0)) || spec_le(
        spec_heat_capacity(b.gases),
        fix(0),
    )
}

/// The conducted energy: positive values flow from `a` to `b`.
pub open spec fn spec_conduction(a: TileV, b: TileV, is_east: bool, force: bool) -> Fix {
    let coeff0 = spec_transfer_coefficient(a, b, is_east, force);
    let ca = spec_heat_capacity(a.gases);
    let cb = spec_heat_capacity(b.gases);
    let coeff = if spec_gt(spec_temperature(a), fix(T20C)) || spec_gt(
        spec_temperature(b),
        fix(T20C),
    ) {
        spec_min(spec_mul(coeff0, fix((100 * FIX_SCALE) as i64)), fix(OPEN_HEAT_TRANSFER_COEFFICIENT))
    } else {
        coeff0
    };
    spec_div(
        spec_mul(
            spec_mul(
                spec_mul(coeff, spec_sub(spec_temperature(a), spec_temperature(b))),
                ca,
            ),
            cb,
        ),
        spec_add(ca, cb),
    )
}

/// Half the conducted energy; each tile's bulk thermal energy always moves
/// by this much, and the hotspot branches move it once more.
pub open spec fn spec_conduction_half(a: TileV, b: TileV, is_east: bool, force: bool) -> Fix {
    spec_div(spec_conduction(a, b, is_east, force), fix((2 * FIX_SCALE) as i64))
}

/// Is the first hotspot branch taken: heat flows toward `b` across the
/// optimal burn temperature, so `b` gains a hotspot instead of bulk heat?
pub open spec fn spec_superconduct_heats_them(a: TileV, b: TileV, is_east: bool, force: bool) -> bool {
    let half = spec_conduction_half(a, b, is_east, force);
    let a1 = TileV { thermal_energy: spec_sub(a.thermal_energy, half), ..a };
    let b1 = TileV { thermal_energy: spec_add(b.thermal_energy, half), ..b };
    &&& spec_gt(spec_conduction(a, b, is_east, force), fix(0))
    &&& spec_gt(spec_temperature(a1), fix(PLASMA_BURN_OPTIMAL_TEMP))
    &&& spec_lt(spec_temperature(b1), fix(PLASMA_BURN_OPTIMAL_TEMP))
}

/// Is the second hotspot branch taken (the mirror image of the first)?
pub open spec fn spec_superconduct_heats_me(a: TileV, b: TileV, is_east: bool, force: bool) -> bool {
    let half = spec_conduction_half(a, b, is_east, force);
    let a1 = TileV { thermal_energy: spec_sub(a.thermal_energy, half), ..a };
    let b1 = TileV { thermal_energy: spec_add(b.thermal_energy, half), ..b };
    &&& spec_lt(spec_conduction(a, b, is_east, force), fix(0))
    &&& spec_lt(spec_temperature(a1), fix(PLASMA_BURN_OPTIMAL_TEMP))
    &&& spec_gt(spec_temperature(b1), fix(PLASMA_BURN_OPTIMAL_TEMP))
}

/// Both tiles after superconduction across one shared edge.
pub open spec fn spec_superconduct(a: TileV, b: TileV, is_east: bool, force: bool) -> (
    TileV,
    TileV,
) {
    if spec_superconduct_skips(a, b, is_east, force) {
        (a, b)
    } else {
        let half = spec_conduction_half(a, b, is_east, force);
        let a1 = TileV { thermal_energy: spec_sub(a.thermal_energy, half), ..a };
        let b1 = TileV { thermal_energy: spec_add(b.thermal_energy, half), ..b };
        if spec_superconduct_heats_them(a, b, is_east, force) {
            (
                TileV { thermal_energy: spec_sub(a1.thermal_energy, half), ..a1 },
                spec_adjust_hotspot(b1, half),
            )
        } else if spec_superconduct_heats_me(a, b, is_east, force) {
            (
                spec_adjust_hotspot(a1, spec_neg(half)),
                TileV { thermal_energy: spec_add(b1.thermal_energy, half), ..b1 },
            )
        } else {
            (
                TileV { thermal_energy: spec_sub(a1.thermal_energy, half), ..a1 },
                TileV { thermal_energy: spec_add(b1.thermal_energy, half), ..b1 },
            )
        }
    }
}

/// Performs superconduction between two connected tiles. Half the conducted
/// energy always moves as bulk heat; the other half either moves as bulk
/// heat too or, when it crosses the optimal burn temperature, spawns or
/// expands a hotspot on the cooler tile.
#[verifier::rlimit(100)]
pub fn superconduct(my_tile: &mut Tile, their_tile: &mut Tile, is_east: bool, force: bool)
    ensures
        final(my_tile)@ == spec_superconduct(old(my_tile)@, old(their_tile)@, is_east, force).0,
        final(their_tile)@ == spec_superconduct(
            old(my_tile)@,
            old(their_tile)@,
            is_east,
            force,
        ).1,
{
    let mut transfer_coefficient: Fix;
    if force {
        transfer_coefficient = Fix::of(OPEN_HEAT_TRANSFER_COEFFICIENT);
    } else if is_east {
        transfer_coefficient = my_tile.superconductivity.east.min(
            their_tile.superconductivity.west,
        );
    } else {
        transfer_coefficient = my_tile.superconductivity.north.min(
            their_tile.superconductivity.south,
        );
    }

    let my_heat_capacity = my_tile.gases.heat_capacity();
    let their_heat_capacity = their_tile.gases.heat_capacity();
    if transfer_coefficient.le(Fix::zero()) || my_heat_capacity.le(Fix::zero())
        || their_heat_capacity.le(Fix::zero()) {
        return ;
    }

    if my_tile.temperature().gt(Fix::of(T20C)) || their_tile.temperature().gt(Fix::of(T20C)) {
        transfer_coefficient = transfer_coefficient.mul(Fix::of(100 * FIX_SCALE)).min(
            Fix::of(OPEN_HEAT_TRANSFER_COEFFICIENT),
        );
    }

    let conduction = transfer_coefficient.mul(
        my_tile.temperature().sub(their_tile.temperature()),
    ).mul(my_heat_capacity).mul(their_heat_capacity).div(
        my_heat_capacity.add(their_heat_capacity),
    );
    let half = conduction.div(Fix::of(2 * FIX_SCALE));

    my_tile.thermal_energy = my_tile.thermal_energy.sub(half);
    their_tile.thermal_energy = their_tile.thermal_energy.add(half);

    if conduction.gt(Fix::zero()) && my_tile.temperature().gt(Fix::of(PLASMA_BURN_OPTIMAL_TEMP))
        && their_tile.temperature().lt(Fix::of(PLASMA_BURN_OPTIMAL_TEMP)) {
        adjust_hotspot(their_tile, half);
        my_tile.thermal_energy = my_tile.thermal_energy.sub(half);
    } else if conduction.lt(Fix::zero()) && my_tile.temperature().lt(
        Fix::of(PLASMA_BURN_OPTIMAL_TEMP),
    ) && their_tile.temperature().gt(Fix::of(PLASMA_BURN_OPTIMAL_TEMP)) {
        adjust_hotspot(my_tile, half.neg());
        their_tile.thermal_energy = their_tile.thermal_energy.add(half);
    } else {
        my_tile.thermal_energy = my_tile.thermal_energy.sub(half);
        their_tile.thermal_energy = their_tile.thermal_energy.add(half);
    }
}

/// Should the host redraw this tile? True when fuel burnt this tick, or
/// when any visibility or fire threshold was crossed between the prior and
/// the new tile state.
pub open spec fn spec_display_flag(np: TileV, pp: TileV, fuel: Fix) -> bool {
    ||| spec_gt(fuel, fix(0))
    ||| spec_ge(np.gases.values[GAS_TOXINS as int], fix(TOXINS_MIN_FIRE_AND_VISIBILITY_MOLES))
        != spec_ge(pp.gases.values[GAS_TOXINS as int], fix(TOXINS_MIN_FIRE_AND_VISIBILITY_MOLES))
    ||| spec_ge(np.gases.values[GAS_SLEEPING_AGENT as int], fix(SLEEPING_GAS_VISIBILITY_MOLES))
        != spec_ge(pp.gases.values[GAS_SLEEPING_AGENT as int], fix(SLEEPING_GAS_VISIBILITY_MOLES))
    ||| spec_ge(np.gases.values[GAS_OXYGEN as int], fix(OXYGEN_MIN_FIRE_MOLES)) != spec_ge(
        pp.gases.values[GAS_OXYGEN as int],
        fix(OXYGEN_MIN_FIRE_MOLES),
    )
    ||| spec_ge(spec_temperature(np), fix(PLASMA_BURN_MIN_TEMP)) != spec_ge(
        spec_temperature(pp),
        fix(PLASMA_BURN_MIN_TEMP),
    )
}

/// Is the tile hot enough to matter? Environment-backed tiles only count
/// while fuel is actually burning.
pub open spec fn spec_hot_flag(np: TileV, fuel: Fix) -> bool {
    spec_gt(spec_temperature(np), fix(PLASMA_BURN_MIN_TEMP)) && (match np.mode {
        AtmosMode::ExposedTo { .. } => spec_gt(fuel, fix(0)),
        _ => true,
    })
}

/// Wind toward positive X at a tile: its own outgoing momentum plus the
/// western neighbor's momentum when that one points back at it.
pub open spec fn spec_wind_x(g: Seq<TileV>, x: int, y: int) -> Fix {
    let me = x * MAP_SIZE + y;
    let base = if spec_gt(g[me].momentum_x, fix(0)) {
        spec_mul(g[me].momentum_x, fix(WIND_MULTIPLIER))
    } else {
        fix(0)
    };
    match spec_maybe_index(x - 1, y) {
        Option::Some(w) => {
            if spec_lt(g[w as int].momentum_x, fix(0)) {
                spec_add(base, spec_mul(g[w as int].momentum_x, fix(WIND_MULTIPLIER)))
            } else {
                base
            }
        },
        Option::None => base,
    }
}

/// Wind toward positive Y, symmetric to [`spec_wind_x`].
pub open spec fn spec_wind_y(g: Seq<TileV>, x: int, y: int) -> Fix {
    let me = x * MAP_SIZE + y;
    let base = if spec_gt(g[me].momentum_y, fix(0)) {
        spec_mul(g[me].momentum_y, fix(WIND_MULTIPLIER))
    } else {
        fix(0)
    };
    match spec_maybe_index(x, y - 1) {
        Option::Some(w) => {
            if spec_lt(g[w as int].momentum_y, fix(0)) {
                spec_add(base, spec_mul(g[w as int].momentum_y, fix(WIND_MULTIPLIER)))
            } else {
                base
            }
        },
        Option::None => base,
    }
}

/// The reason bits for one tile.
pub open spec fn spec_reason_bits(g: Seq<TileV>, pp: TileV, x: int, y: int, fuel: Fix) -> u8 {
    let np = g[x * MAP_SIZE + y];
    let wx = spec_wind_x(g, x, y);
    let wy = spec_wind_y(g, x, y);
    let d: u8 = if spec_display_flag(np, pp, fuel) {
        REASON_DISPLAY
    } else {
        0
    };
    let h: u8 = if spec_hot_flag(np, fuel) {
        REASON_HOT
    } else {
        0
    };
    let w: u8 = if spec_gt(spec_add(spec_mul(wx, wx), spec_mul(wy, wy)), fix(FIX_SCALE)) {
        REASON_WIND
    } else {
        0
    };
    d | h | w
}

/// The record `check_interesting` emits, if any: the new tile, its
/// host-convention coordinates, the reason bits and the wind components.
pub open spec fn spec_check_interesting(
    g: Seq<TileV>,
    pp: TileV,
    x: int,
    y: int,
    z: int,
    fuel: Fix,
) -> Option<InterestingTileV> {
    let bits = spec_reason_bits(g, pp, x, y, fuel);
    if bits != 0 {
        Option::Some(
            InterestingTileV {
                tile: g[x * MAP_SIZE + y],
                coords: (Coords { x: (x + 1) as i16, y: (y + 1) as i16, z: (z + 1) as i16 }),
                reasons: (ReasonFlags { bits }),
                wind_x: spec_wind_x(g, x, y),
                wind_y: spec_wind_y(g, x, y),
            },
        )
    } else {
        Option::None
    }
}

/// Checks a tile against the prior tick's state and builds the record the
/// host should see, if the tile is interesting at all.
#[verifier::loop_isolation(false)]
#[verifier::rlimit(100)]
pub fn check_interesting(
    x: i32,
    y: i32,
    z: i32,
    next: &ZLevel,
    my_tile: &Tile,
    my_index: usize,
    fuel_burnt: Fix,
) -> (r: Option<InterestingTile>)
    requires
        zl_wf(next@),
        next@.len() == MAP_SIZE * MAP_SIZE,
        0 <= x < MAP_SIZE,
        0 <= y < MAP_SIZE,
        my_index == x * MAP_SIZE + y,
        tile_wf(my_tile@),
        -32768 <= z < 32767,
    ensures
        ({
            let s = spec_check_interesting(next@, my_tile@, x as int, y as int, z as int, fuel_burnt);
            match r {
                Option::Some(t) => s == Option::Some(t@),
                Option::None => s is None,
            }
        }),
{
    proof {
        lemma_linear_index(x as int, y as int);
    }
    let my_next_tile = next.get_tile(my_index);
    let display = fuel_burnt.gt(Fix::zero()) || my_next_tile.gases.toxins().ge(
        Fix::of(TOXINS_MIN_FIRE_AND_VISIBILITY_MOLES),
    ) != my_tile.gases.toxins().ge(Fix::of(TOXINS_MIN_FIRE_AND_VISIBILITY_MOLES))
        || my_next_tile.gases.sleeping_agent().ge(Fix::of(SLEEPING_GAS_VISIBILITY_MOLES))
        != my_tile.gases.sleeping_agent().ge(Fix::of(SLEEPING_GAS_VISIBILITY_MOLES))
        || my_next_tile.gases.oxygen().ge(Fix::of(OXYGEN_MIN_FIRE_MOLES))
        != my_tile.gases.oxygen().ge(Fix::of(OXYGEN_MIN_FIRE_MOLES))
        || my_next_tile.temperature().ge(Fix::of(PLASMA_BURN_MIN_TEMP))
        != my_tile.temperature().ge(Fix::of(PLASMA_BURN_MIN_TEMP));
    let hot = my_next_tile.temperature().gt(Fix::of(PLASMA_BURN_MIN_TEMP)) && (match my_next_tile.mode {
        AtmosMode::ExposedTo { .. } => fuel_burnt.gt(Fix::zero()),
        _ => true,
    });
    let mut wind_x = Fix::zero();
    if my_next_tile.momentum_x.gt(Fix::zero()) {
        wind_x = wind_x.add(my_next_tile.momentum_x.mul(Fix::of(WIND_MULTIPLIER)));
    }
    if let Option::Some(index) = ZLevel::maybe_get_index(x - 1, y) {
        let their_next_tile = next.get_tile(index);
        if their_next_tile.momentum_x.lt(Fix::zero()) {
            wind_x = wind_x.add(their_next_tile.momentum_x.mul(Fix::of(WIND_MULTIPLIER)));
        }
    }
    let mut wind_y = Fix::zero();
    if my_next_tile.momentum_y.gt(Fix::zero()) {
        wind_y = wind_y.add(my_next_tile.momentum_y.mul(Fix::of(WIND_MULTIPLIER)));
    }
    if let Option::Some(index) = ZLevel::maybe_get_index(x, y - 1) {
        let their_next_tile = next.get_tile(index);
        if their_next_tile.momentum_y.lt(Fix::zero()) {
            wind_y = wind_y.add(their_next_tile.momentum_y.mul(Fix::of(WIND_MULTIPLIER)));
        }
    }
    let windy = wind_x.mul(wind_x).add(wind_y.mul(wind_y)).gt(Fix::of(FIX_SCALE));
    let bits: u8 = (if display {
        REASON_DISPLAY
    } else {
        0
    }) | (if hot {
        REASON_HOT
    } else {
        0
    }) | (if windy {
        REASON_WIND
    } else {
        0
    });
    proof {
        assert(wind_x == spec_wind_x(next@, x as int, y as int));
        assert(wind_y == spec_wind_y(next@, x as int, y as int));
        assert(bits == spec_reason_bits(next@, my_tile@, x as int, y as int, fuel_burnt));
    }
    if bits != 0 {
        let t = next.get_tile(my_index).snapshot();
        let it = InterestingTile {
            tile: t,
            coords: Coords { x: x as i16 + 1, y: y as i16 + 1, z: z as i16 + 1 },
            reasons: ReasonFlags { bits },
            wind_x,
            wind_y,
        };
        proof {
            assert(it@ =~= spec_check_interesting(
                next@,
                my_tile@,
                x as int,
                y as int,
                z as int,
                fuel_burnt,
            )->Some_0);
        }
        Option::Some(it)
    } else {
        Option::None
    }
}

/// Law: superconduction is symmetric. Whenever neither hotspot branch is
/// taken and no value overflows, the thermal energy one tile loses is
/// exactly the thermal energy the other gains.
pub proof fn lemma_superconduct_symmetric(a: TileV, b: TileV, is_east: bool, force: bool)
    requires
        !spec_superconduct_heats_them(a, b, is_east, force),
        !spec_superconduct_heats_me(a, b, is_east, force),
        a.thermal_energy.finite,
        b.thermal_energy.finite,
        spec_superconduct(a, b, is_east, force).0.thermal_energy.finite,
        spec_superconduct(a, b, is_east, force).1.thermal_energy.finite,
    ensures
        spec_superconduct(a, b, is_east, force).0.thermal_energy.raw - a.thermal_energy.raw == -(
        spec_superconduct(a, b, is_east, force).1.thermal_energy.raw - b.thermal_energy.raw),
{
}

/// Does the environment table cover every tile of the grid?
pub open spec fn spec_all_envs_ok(g: Seq<TileV>, envs: Seq<TileV>) -> bool {
    forall|i: int| 0 <= i < g.len() ==> spec_env_ok(#[trigger] g[i], envs)
}

/// One tile's momentum along one axis rescaled by how the local pressure
/// changed: zeroed where there was no air before, otherwise multiplied by
/// the ratio of new to old combined pressure with the positive neighbor.
pub open spec fn spec_scale_axis(
    prev: Seq<TileV>,
    g: Seq<TileV>,
    x: int,
    y: int,
    axis: int,
    my_old_pressure: Fix,
    my_next_pressure: Fix,
) -> Seq<TileV> {
    let me = x * MAP_SIZE + y;
    let dx: int = if axis == AXIS_X {
        1
    } else {
        0
    };
    let dy: int = if axis == AXIS_X {
        0
    } else {
        1
    };
    match spec_maybe_index(x + dx, y + dy) {
        Option::None => g,
        Option::Some(pos) => {
            let their_old = crate::model::spec_pressure(prev[pos as int]);
            if spec_add(my_old_pressure, their_old) == fix(0) {
                g.update(me, spec_with_momentum(g[me], axis, fix(0)))
            } else {
                let their_next = crate::model::spec_pressure(g[pos as int]);
                let scaling = spec_div(
                    spec_add(my_next_pressure, their_next),
                    spec_add(my_old_pressure, their_old),
                );
                g.update(
                    me,
                    spec_with_momentum(g[me], axis, spec_mul(spec_momentum(g[me], axis), scaling)),
                )
            }
        },
    }
}

/// Both axes of the momentum rescaling, X then Y.
pub open spec fn spec_scale_momentum(
    prev: Seq<TileV>,
    g: Seq<TileV>,
    x: int,
    y: int,
    my_old_pressure: Fix,
    my_next_pressure: Fix,
) -> Seq<TileV> {
    spec_scale_axis(
        prev,
        spec_scale_axis(prev, g, x, y, AXIS_X as int, my_old_pressure, my_next_pressure),
        x,
        y,
        AXIS_Y as int,
        my_old_pressure,
        my_next_pressure,
    )
}

/// Rescales one tile's momentum on both axes by how much the local
/// pressure changed, zeroing it where there was no air before.
#[verifier::loop_isolation(false)]
#[verifier::rlimit(100)]
fn scale_momentum(
    prev: &ZLevel,
    next: &mut ZLevel,
    my_index: usize,
    x: i32,
    y: i32,
    my_old_pressure: Fix,
    my_next_pressure: Fix,
)
    requires
        zl_wf(prev@),
        zl_wf(old(next)@),
        prev@.len() == old(next)@.len(),
        old(next)@.len() == MAP_SIZE * MAP_SIZE,
        0 <= x < MAP_SIZE,
        0 <= y < MAP_SIZE,
        my_index == x * MAP_SIZE + y,
    ensures
        final(next)@.len() == old(next)@.len(),
        zl_wf(final(next)@),
        forall|j: int|
            0 <= j < old(next)@.len() && j != my_index ==> #[trigger] final(next)@[j] == old(
                next,
            )@[j],
        spec_statics_eq(final(next)@[my_index as int], old(next)@[my_index as int]),
        final(next)@[my_index as int].gases == old(next)@[my_index as int].gases,
        final(next)@[my_index as int].thermal_energy == old(next)@[
            my_index as int
        ].thermal_energy,
        final(next)@ == spec_scale_momentum(
            prev@,
            old(next)@,
            x as int,
            y as int,
            my_old_pressure,
            my_next_pressure,
        ),
{
    let mut axis: usize = 0;
    while axis < 2
        invariant
            axis <= 2,
            next@.len() == old(next)@.len(),
            zl_wf(next@),
            forall|j: int|
                0 <= j < old(next)@.len() && j != my_index ==> #[trigger] next@[j] == old(
                    next,
                )@[j],
            spec_statics_eq(next@[my_index as int], old(next)@[my_index as int]),
            next@[my_index as int].gases == old(next)@[my_index as int].gases,
            next@[my_index as int].thermal_energy == old(next)@[my_index as int].thermal_energy,
            next@ == (if axis == 0 {
                old(next)@
            } else if axis == 1 {
                spec_scale_axis(
                    prev@,
                    old(next)@,
                    x as int,
                    y as int,
                    AXIS_X as int,
                    my_old_pressure,
                    my_next_pressure,
                )
            } else {
                spec_scale_momentum(
                    prev@,
                    old(next)@,
                    x as int,
                    y as int,
                    my_old_pressure,
                    my_next_pressure,
                )
            }),
        decreases 2 - axis,
    {
        let ghost g_axis = next@;
        let dx: i32 = if axis == AXIS_X {
            1
        } else {
            0
        };
        let dy: i32 = if axis == AXIS_X {
            0
        } else {
            1
        };
        if let Option::Some(pos_index) = ZLevel::maybe_get_index(x + dx, y + dy) {
            proof {
                lemma_linear_index(x as int + dx as int, y as int + dy as int);
            }
            let their_tile = prev.get_tile(pos_index);
            let their_old_pressure = their_tile.pressure();
            let ghost pre = next@;
            if my_old_pressure.add(their_old_pressure) == Fix::zero() {
                let t = &mut next.tiles[my_index];
                t.set_momentum(axis, Fix::zero());
            } else {
                let their_next_pressure = next.get_tile(pos_index).pressure();
                let pressure_scaling = my_next_pressure.add(their_next_pressure).div(
                    my_old_pressure.add(their_old_pressure),
                );
                let m = next.get_tile(my_index).momentum(axis);
                let t = &mut next.tiles[my_index];
                t.set_momentum(axis, m.mul(pressure_scaling));
            }
            proof {
                assert(next@ =~= pre.update(my_index as int, next@[my_index as int]));
                assert forall|j: int| 0 <= j < next@.len() implies tile_wf(
                    #[trigger] next@[j],
                ) by {
                    if j != my_index {
                        assert(next@[j] == pre[j]);
                    }
                }
            }
        }
        proof {
            assert(next@ =~= spec_scale_axis(
                prev@,
                g_axis,
                x as int,
                y as int,
                axis as int,
                my_old_pressure,
                my_next_pressure,
            ));
        }
        axis = axis + 1;
    }
}

/// One tile superconducting with its positive neighbor along one axis; a
/// missing or space neighbor leaves the grid unchanged.
pub open spec fn spec_superconduct_axis(g: Seq<TileV>, x: int, y: int, axis: int) -> Seq<TileV> {
    let me = x * MAP_SIZE + y;
    let dx: int = if axis == AXIS_X {
        1
    } else {
        0
    };
    let dy: int = if axis == AXIS_X {
        0
    } else {
        1
    };
    match spec_maybe_index(x + dx, y + dy) {
        Option::None => g,
        Option::Some(their) => {
            if g[their as int].mode is Space {
                g
            } else {
                let pair = spec_superconduct(g[me], g[their as int], axis == AXIS_X, false);
                g.update(me, pair.0).update(their as int, pair.1)
            }
        },
    }
}

/// Superconduction with both positive neighbors, X then Y.
pub open spec fn spec_superconduct_both(g: Seq<TileV>, x: int, y: int) -> Seq<TileV> {
    spec_superconduct_axis(spec_superconduct_axis(g, x, y, AXIS_X as int), x, y, AXIS_Y as int)
}

/// Superconducts one tile with both of its positive-axis neighbors that are
/// not space, exactly per [`spec_superconduct_both`].
#[verifier::loop_isolation(false)]
#[verifier::rlimit(100)]
#[verifier::spinoff_prover]
fn superconduct_neighbors(next: &mut ZLevel, my_index: usize, x: i32, y: i32)
    requires
        zl_wf(old(next)@),
        old(next)@.len() == MAP_SIZE * MAP_SIZE,
        0 <= x < MAP_SIZE,
        0 <= y < MAP_SIZE,
        my_index == x * MAP_SIZE + y,
    ensures
        final(next)@.len() == old(next)@.len(),
        zl_wf(final(next)@),
        forall|j: int|
            0 <= j < old(next)@.len() && j < my_index ==> #[trigger] final(next)@[j] == old(
                next,
            )@[j],
        forall|j: int|
            0 <= j < old(next)@.len() ==> (#[trigger] final(next)@[j]).mode == old(next)@[j].mode
                && final(next)@[j].gases.values.len() == old(next)@[j].gases.values.len(),
        final(next)@ == spec_superconduct_both(old(next)@, x as int, y as int),
{
    let mut axis: usize = 0;
    while axis < 2
        invariant
            axis <= 2,
            next@.len() == old(next)@.len(),
            zl_wf(next@),
            forall|j: int|
                0 <= j < old(next)@.len() && j < my_index ==> #[trigger] next@[j] == old(
                    next,
                )@[j],
            forall|j: int|
                0 <= j < old(next)@.len() ==> (#[trigger] next@[j]).mode == old(next)@[j].mode
                    && next@[j].gases.values.len() == old(next)@[j].gases.values.len(),
            next@ == (if axis == 0 {
                old(next)@
            } else if axis == 1 {
                spec_superconduct_axis(old(next)@, x as int, y as int, AXIS_X as int)
            } else {
                spec_superconduct_both(old(next)@, x as int, y as int)
            }),
        decreases 2 - axis,
    {
        let ghost g_axis = next@;
        let dx: i32 = if axis == AXIS_X {
            1
        } else {
            0
        };
        let dy: i32 = if axis == AXIS_X {
            0
        } else {
            1
        };
        if let Option::Some(their_index) = ZLevel::maybe_get_index(x + dx, y + dy) {
            proof {
                lemma_linear_index(x as int + dx as int, y as int + dy as int);
                assert((x as int + dx) * MAP_SIZE + (y as int + dy) > x as int * MAP_SIZE + y)
                    by (nonlinear_arith)
                    requires
                        dx >= 0,
                        dy >= 0,
                        dx as int + dy as int == 1,
                        MAP_SIZE >= 1,
                ;
            }
            if !(next.get_tile(their_index).mode == AtmosMode::Space) {
                let ghost pre = next@;
                let mut a = next.get_tile(my_index).snapshot();
                let mut b = next.get_tile(their_index).snapshot();
                superconduct_pair(&mut a, &mut b, dx > 0);
                next.set_tile(my_index, a);
                next.set_tile(their_index, b);
                proof {
                    assert(forall|j: int|
                        0 <= j < next@.len() && j != my_index && j != their_index
                            ==> #[trigger] next@[j] == pre[j]);
                    assert(next@[my_index as int].mode == pre[my_index as int].mode);
                    assert(next@[their_index as int].mode == pre[their_index as int].mode);
                    assert(next@[my_index as int].gases.values.len() == pre[
                        my_index as int
                    ].gases.values.len());
                    assert(next@[their_index as int].gases.values.len() == pre[
                        their_index as int
                    ].gases.values.len());
                }
            }
        }
        proof {
            assert(next@ =~= spec_superconduct_axis(g_axis, x as int, y as int, axis as int));
        }
        axis = axis + 1;
    }
}

/// Runs superconduction on a pair of tiles, restating the exact result
/// beside what the grid bookkeeping needs: modes and mixture shapes are
/// untouched.
fn superconduct_pair(a: &mut Tile, b: &mut Tile, is_east: bool)
    ensures
        final(a)@ == spec_superconduct(old(a)@, old(b)@, is_east, false).0,
        final(b)@ == spec_superconduct(old(a)@, old(b)@, is_east, false).1,
        final(a)@.mode == old(a)@.mode,
        final(b)@.mode == old(b)@.mode,
        final(a)@.gases.values.len() == old(a)@.gases.values.len(),
        final(b)@.gases.values.len() == old(b)@.gases.values.len(),
{
    superconduct(a, b, is_east, false);
}

/// One tile after the hotspot reaction pass, the bulk reaction pass and
/// sanitization, with the total fuel burnt.
pub open spec fn spec_react_sanitize(t: TileV, p: TileV) -> (TileV, Fix) {
    let r1 = spec_react(t, true);
    let r2 = spec_react(r1.0, false);
    (spec_sanitize(r2.0, p).0, spec_add(r1.1, r2.1))
}

/// Runs both reaction passes on one tile and sanitizes it, exactly per
/// [`spec_react_sanitize`]. Only that tile changes, and it comes out
/// numerically sane.
#[verifier::loop_isolation(false)]
#[verifier::rlimit(100)]
#[verifier::spinoff_prover]
fn react_and_sanitize(next: &mut ZLevel, my_index: usize, my_tile: &Tile) -> (fuel_burnt: Fix)
    requires
        zl_wf(old(next)@),
        my_index < old(next)@.len(),
        tile_sane(my_tile@),
        tile_momentum_finite(my_tile@),
        my_tile@.gases.values.len() == old(next)@[my_index as int].gases.values.len(),
    ensures
        final(next)@.len() == old(next)@.len(),
        zl_wf(final(next)@),
        forall|j: int|
            0 <= j < old(next)@.len() && j != my_index ==> #[trigger] final(next)@[j] == old(
                next,
            )@[j],
        final(next)@[my_index as int].mode == old(next)@[my_index as int].mode,
        tile_sane(final(next)@[my_index as int]),
        tile_momentum_finite(final(next)@[my_index as int]),
        final(next)@ == old(next)@.update(
            my_index as int,
            spec_react_sanitize(old(next)@[my_index as int], my_tile@).0,
        ),
        fuel_burnt == spec_react_sanitize(old(next)@[my_index as int], my_tile@).1,
{
    let ghost pre = next@;
    proof {
        assert(tile_wf(next@[my_index as int]));
    }
    let mut fuel_burnt = react(&mut next.tiles[my_index], true);
    proof {
        assert(next@ =~= pre.update(my_index as int, next@[my_index as int]));
        assert(next@[my_index as int] == spec_react(pre[my_index as int], true).0);
    }
    let ghost pre2 = next@;
    fuel_burnt = fuel_burnt.add(react(&mut next.tiles[my_index], false));
    proof {
        assert(next@ =~= pre2.update(my_index as int, next@[my_index as int]));
        assert(next@[my_index as int] == spec_react(pre2[my_index as int], false).0);
    }
    let ghost pre3 = next@;
    sanitize(&mut next.tiles[my_index], my_tile);
    proof {
        assert(next@ =~= pre3.update(my_index as int, next@[my_index as int]));
        assert(next@[my_index as int] == spec_sanitize(pre3[my_index as int], my_tile@).0);
        lemma_sanitize_sane(pre3[my_index as int], my_tile@);
        assert(tile_sane(next@[my_index as int]));
        assert(tile_momentum_finite(next@[my_index as int]));
        assert forall|j: int| 0 <= j < next@.len() implies tile_wf(#[trigger] next@[j]) by {
            if j != my_index {
                assert(next@[j] == pre[j]);
            }
        }
        assert(next@ =~= pre.update(
            my_index as int,
            spec_react_sanitize(pre[my_index as int], my_tile@).0,
        ));
    }
    fuel_burnt
}

/// The sink's contents after one tile's classification: unchanged, or with
/// exactly the record [`spec_check_interesting`] describes added.
pub open spec fn spec_emit(
    sink: Multiset<InterestingTileV>,
    g: Seq<TileV>,
    pp: TileV,
    x: int,
    y: int,
    z: int,
    fuel: Fix,
) -> Multiset<InterestingTileV> {
    match spec_check_interesting(g, pp, x, y, z, fuel) {
        Option::Some(itv) => sink.insert(itv),
        Option::None => sink,
    }
}

/// Classifies one tile and, when it is interesting, pushes the record into
/// the sink: the sink gains exactly the record [`spec_emit`] describes.
#[verifier::rlimit(100)]
fn emit_if_interesting(
    x: i32,
    y: i32,
    z: i32,
    next: &ZLevel,
    my_tile: &Tile,
    my_index: usize,
    fuel_burnt: Fix,
    new_interesting_tiles: &mut InterestingSink,
)
    requires
        zl_wf(next@),
        next@.len() == MAP_SIZE * MAP_SIZE,
        0 <= x < MAP_SIZE,
        0 <= y < MAP_SIZE,
        my_index == x * MAP_SIZE + y,
        tile_wf(my_tile@),
        -32768 <= z < 32767,
    ensures
        sink_contents(*old(new_interesting_tiles)).subset_of(
            sink_contents(*final(new_interesting_tiles)),
        ),
        sink_contents(*final(new_interesting_tiles)) == spec_emit(
            sink_contents(*old(new_interesting_tiles)),
            next@,
            my_tile@,
            x as int,
            y as int,
            z as int,
            fuel_burnt,
        ),
{
    if let Option::Some(it) = check_interesting(x, y, z, next, my_tile, my_index, fuel_burnt) {
        proof {
            let m = sink_contents(*new_interesting_tiles);
            assert forall|e: InterestingTileV| m.count(e) <= m.insert(it@).count(e) by {
                if e == it@ {
                    vstd::multiset::lemma_insert_increases_count_by_1(m, it@);
                } else {
                    vstd::multiset::lemma_insert_other_elements_unchanged(m, it@, e);
                }
            }
        }
        new_interesting_tiles.push(it);
    }
}

/// One tile's whole post-processing step: its mode applied, its momentum
/// rescaled by the pressure change, and, off space tiles, superconduction
/// with both positive neighbors followed by the two reaction passes and
/// sanitization. Returns the grid and the fuel burnt.
pub open spec fn spec_post_tile(prev: Seq<TileV>, g: Seq<TileV>, envs: Seq<TileV>, i: int) -> (
    Seq<TileV>,
    Fix,
) {
    let x = i / (MAP_SIZE as int);
    let y = i % (MAP_SIZE as int);
    let my_old_pressure = crate::model::spec_pressure(prev[i]);
    let g1 = g.update(i, spec_apply_tile_mode(g[i], envs));
    let my_next_pressure = crate::model::spec_pressure(g1[i]);
    let g2 = spec_scale_momentum(prev, g1, x, y, my_old_pressure, my_next_pressure);
    if prev[i].mode is Space {
        (g2, fix(0))
    } else {
        let g3 = spec_superconduct_both(g2, x, y);
        let rs = spec_react_sanitize(g3[i], prev[i]);
        (g3.update(i, rs.0), rs.1)
    }
}

/// The grid and the sink after the first `n` tiles' post-processing steps:
/// each non-space tile also emits its record when it classifies as
/// interesting.
pub open spec fn spec_post_upto(
    prev: Seq<TileV>,
    g: Seq<TileV>,
    envs: Seq<TileV>,
    sink: Multiset<InterestingTileV>,
    z: int,
    n: int,
) -> (Seq<TileV>, Multiset<InterestingTileV>)
    decreases n,
{
    if n <= 0 {
        (g, sink)
    } else {
        let r0 = spec_post_upto(prev, g, envs, sink, z, n - 1);
        let i = n - 1;
        let r = spec_post_tile(prev, r0.0, envs, i);
        let sink2 = if prev[i].mode is Space {
            r0.1
        } else {
            spec_emit(r0.1, r.0, prev[i], i / (MAP_SIZE as int), i % (MAP_SIZE as int), z, r.1)
        };
        (r.0, sink2)
    }
}

/// Applies everything that happens after the main airflow routine, tile by
/// tile: tile modes, momentum rescaling by the pressure change,
/// superconduction with both positive neighbors, the two reaction passes,
/// sanitization, and the emission of interesting tiles into the sink.
///
/// Succeeds exactly when every tile's mode is covered by the environment
/// table; on success every tile is numerically sane again (finite,
/// nonnegative gases and thermal energy, and, off space tiles, finite
/// momentum), and the sink has only gained records.
#[verifier::loop_isolation(false)]
#[verifier::rlimit(100)]
#[verifier::spinoff_prover]
pub fn post_process(
    prev: &ZLevel,
    next: &mut ZLevel,
    environments: &Vec<Tile>,
    new_interesting_tiles: &mut InterestingSink,
    z: i32,
) -> (r: Result<(), MillaError>)
    requires
        zl_wf(prev@),
        zl_wf(old(next)@),
        zl_sane(prev@),
        prev@.len() == old(next)@.len(),
        old(next)@.len() == MAP_SIZE * MAP_SIZE,
        forall|i: int|
            0 <= i < prev@.len() ==> (#[trigger] old(next)@[i]).mode == prev@[i].mode,
        forall|i: int|
            0 <= i < environments@.len() ==> tile_wf((#[trigger] environments@[i])@),
        -32768 <= z < 32767,
    ensures
        final(next)@.len() == old(next)@.len(),
        r is Ok <==> spec_all_envs_ok(old(next)@, environments@.map_values(|e: Tile| e@)),
        r is Ok ==> zl_wf(final(next)@) && zl_sane(final(next)@),
        r is Ok ==> final(next)@ == spec_post_upto(
            prev@,
            old(next)@,
            environments@.map_values(|e: Tile| e@),
            sink_contents(*old(new_interesting_tiles)),
            z as int,
            (MAP_SIZE * MAP_SIZE) as int,
        ).0,
        r is Ok ==> sink_contents(*final(new_interesting_tiles)) == spec_post_upto(
            prev@,
            old(next)@,
            environments@.map_values(|e: Tile| e@),
            sink_contents(*old(new_interesting_tiles)),
            z as int,
            (MAP_SIZE * MAP_SIZE) as int,
        ).1,
        sink_contents(*old(new_interesting_tiles)).subset_of(
            sink_contents(*final(new_interesting_tiles)),
        ),
{
    let ghost g0 = next@;
    let ghost envs = environments@.map_values(|e: Tile| e@);
    let ghost sink0 = sink_contents(*new_interesting_tiles);
    let mut my_index: usize = 0;
    while my_index < MAP_SIZE * MAP_SIZE
        invariant
            my_index <= MAP_SIZE * MAP_SIZE,
            next@.len() == g0.len(),
            zl_wf(next@),
            forall|i: int| 0 <= i < g0.len() ==> (#[trigger] next@[i]).mode == g0[i].mode,
            forall|i: int| 0 <= i < my_index ==> spec_env_ok(#[trigger] g0[i], envs),
            forall|i: int|
                0 <= i < my_index ==> tile_sane(#[trigger] next@[i]) && (next@[i].mode
                    != AtmosMode::Space ==> tile_momentum_finite(next@[i])),
            sink0.subset_of(sink_contents(*new_interesting_tiles)),
            (next@, sink_contents(*new_interesting_tiles)) == spec_post_upto(
                prev@,
                g0,
                envs,
                sink0,
                z as int,
                my_index as int,
            ),
        decreases MAP_SIZE * MAP_SIZE - my_index,
    {
        let ghost g_head = next@;
        let ghost sink_head = sink_contents(*new_interesting_tiles);
        let x = (my_index / MAP_SIZE) as i32;
        let y = (my_index % MAP_SIZE) as i32;
        proof {
            lemma_linear_index(x as int, y as int);
            vstd::arithmetic::div_mod::lemma_fundamental_div_mod(
                my_index as int,
                MAP_SIZE as int,
            );
            assert(tile_wf(next@[my_index as int]));
        }
        let my_tile = prev.get_tile(my_index);

        let my_old_pressure = my_tile.pressure();
        let ghost pre_mode = next@;
        let res = apply_tile_mode(&mut next.tiles[my_index], environments);
        proof {
            assert(next@ =~= pre_mode.update(my_index as int, next@[my_index as int]));
        }
        if let Err(e) = res {
            proof {
                assert(!spec_env_ok(pre_mode[my_index as int], envs));
                assert(!spec_env_ok(g0[my_index as int], envs));
            }
            return Err(e);
        }
        proof {
            assert(next@[my_index as int] == spec_apply_tile_mode(
                pre_mode[my_index as int],
                envs,
            ));
            assert(spec_env_ok(pre_mode[my_index as int], envs));
            assert(spec_env_ok(g0[my_index as int], envs));
            assert forall|j: int| 0 <= j < next@.len() implies tile_wf(#[trigger] next@[j]) by {
                if j != my_index {
                    assert(next@[j] == pre_mode[j]);
                }
            }
        }
        let my_next_pressure = next.get_tile(my_index).pressure();
        let ghost after_mode = next@;
        proof {
            assert(after_mode =~= g_head.update(
                my_index as int,
                spec_apply_tile_mode(g_head[my_index as int], envs),
            ));
        }

        scale_momentum(prev, next, my_index, x, y, my_old_pressure, my_next_pressure);
        let ghost g2 = next@;

        if my_tile.mode == AtmosMode::Space {
            proof {
                assert(pre_mode[my_index as int].mode is Space);
                assert(tile_sane(next@[my_index as int]));
                assert(prev@[my_index as int].mode is Space);
                assert((next@, sink_contents(*new_interesting_tiles)) == spec_post_upto(
                    prev@,
                    g0,
                    envs,
                    sink0,
                    z as int,
                    my_index as int + 1,
                ));
            }
            my_index = my_index + 1;
            continue ;
        }

        superconduct_neighbors(next, my_index, x, y);
        let ghost g3 = next@;

        let fuel_burnt = react_and_sanitize(next, my_index, my_tile);
        proof {
            assert(next@ == spec_post_tile(prev@, g_head, envs, my_index as int).0);
            assert(fuel_burnt == spec_post_tile(prev@, g_head, envs, my_index as int).1);
        }

        emit_if_interesting(x, y, z, next, my_tile, my_index, fuel_burnt, new_interesting_tiles);
        proof {
            assert((next@, sink_contents(*new_interesting_tiles)) == spec_post_upto(
                prev@,
                g0,
                envs,
                sink0,
                z as int,
                my_index as int + 1,
            ));
        }
        my_index = my_index + 1;
    }
    Ok(())
}

/// The whole tick: walls recomputed, both transport passes, then the
/// per-tile post-processing fold. Returns the final grid and the sink's
/// contents.
pub open spec fn spec_tick(
    prev: Seq<TileV>,
    g: Seq<TileV>,
    envs: Seq<TileV>,
    sink: Multiset<InterestingTileV>,
    z: int,
) -> (Seq<TileV>, Multiset<InterestingTileV>) {
    spec_post_upto(
        prev,
        spec_pressure_flow(prev, spec_find_walls(g)),
        envs,
        sink,
        z,
        (MAP_SIZE * MAP_SIZE) as int,
    )
}

/// Advances the grid one tick: recompute walls, run pressure flow down
/// every column and across every row, then post-process every tile,
/// exactly per [`spec_tick`].
///
/// `next` must enter as a copy of `prev`, which must satisfy the tick
/// boundary invariant; on success `next` satisfies it again.
pub fn tick(
    prev: &ZLevel,
    next: &mut ZLevel,
    environments: &Vec<Tile>,
    new_interesting_tiles: &mut InterestingSink,
    z: i32,
) -> (r: Result<(), MillaError>)
    requires
        zl_wf(prev@),
        zl_sane(prev@),
        prev@.len() == MAP_SIZE * MAP_SIZE,
        old(next)@ == prev@,
        forall|i: int|
            0 <= i < environments@.len() ==> tile_wf((#[trigger] environments@[i])@),
        -32768 <= z < 32767,
    ensures
        final(next)@.len() == prev@.len(),
        r is Ok <==> spec_all_envs_ok(prev@, environments@.map_values(|e: Tile| e@)),
        r is Ok ==> zl_wf(final(next)@) && zl_sane(final(next)@),
        r is Ok ==> final(next)@ == spec_tick(
            prev@,
            old(next)@,
            environments@.map_values(|e: Tile| e@),
            sink_contents(*old(new_interesting_tiles)),
            z as int,
        ).0,
        r is Ok ==> sink_contents(*final(new_interesting_tiles)) == spec_tick(
            prev@,
            old(next)@,
            environments@.map_values(|e: Tile| e@),
            sink_contents(*old(new_interesting_tiles)),
            z as int,
        ).1,
        sink_contents(*old(new_interesting_tiles)).subset_of(sink_contents(*final(new_interesting_tiles))),
{
    find_walls(next);
    proof {
        assert forall|i: int| 0 <= i < next@.len() implies ((i % (MAP_SIZE as int) == MAP_SIZE
            - 1 ==> (#[trigger] next@[i]).wall_y) && (i / (MAP_SIZE as int) == MAP_SIZE - 1
            ==> next@[i].wall_x)) by {
            vstd::arithmetic::div_mod::lemma_mod_bound(i, MAP_SIZE as int);
            vstd::arithmetic::div_mod::lemma_fundamental_div_mod(i, MAP_SIZE as int);
        }
        assert(spec_edge_walls(next@));
    }
    let ghost g_w = next@;
    pressure_flow(prev, next);
    let ghost g_mid = next@;
    let r = post_process(prev, next, environments, new_interesting_tiles, z);
    proof {
        let envs = environments@.map_values(|e: Tile| e@);
        assert forall|i: int| 0 <= i < prev@.len() implies (#[trigger] g_mid[i]).mode
            == prev@[i].mode by {
            assert(spec_statics_eq(g_mid[i], g_w[i]));
            assert(g_w[i].mode == prev@[i].mode);
        }
        if spec_all_envs_ok(g_mid, envs) {
            assert forall|i: int| 0 <= i < prev@.len() implies spec_env_ok(
                #[trigger] prev@[i],
                envs,
            ) by {
                assert(spec_env_ok(g_mid[i], envs));
            }
        }
        if spec_all_envs_ok(prev@, envs) {
            assert forall|i: int| 0 <= i < g_mid.len() implies spec_env_ok(
                #[trigger] g_mid[i],
                envs,
            ) by {
                assert(spec_env_ok(prev@[i], envs));
            }
        }
    }
    r
}

} // verus!
