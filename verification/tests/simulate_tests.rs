use milla::constants::{
    GAS_COUNT, GAS_NITROGEN, GAS_OXYGEN, REASON_DISPLAY,
};
use milla::fixnum::Fix;
use milla::model::{AtmosMode, Coords, InterestingTile, ReasonFlags, Tile};
use milla::outside::InterestingSink;
use milla::simulate::{is_significant, react, sanitize, share_air, superconduct};

fn fx(v: f64) -> Fix {
    Fix::of((v * 10000.0).round() as i64)
}

// share_air() should do nothing to two space tiles.
#[test]
fn share_nothing() {
    let tile_a = Tile::new();
    let tile_b = Tile::new();

    let (gas_change, thermal_energy_change) = share_air(&tile_a, &tile_b, 1, 1);
    for i in 0..GAS_COUNT {
        assert_eq!(gas_change.values[i], fx(0.0), "{}", i);
    }
    assert_eq!(thermal_energy_change, fx(0.0));
}

// share_air() should do nothing to two matching tiles.
#[test]
fn share_equilibrium() {
    let mut tile_a = Tile::new();
    tile_a.gases.set_oxygen(fx(80.0));
    tile_a.gases.set_nitrogen(fx(20.0));
    tile_a.thermal_energy = fx(100.0);
    let mut tile_b = Tile::new();
    tile_b.gases.set_oxygen(fx(80.0));
    tile_b.gases.set_nitrogen(fx(20.0));
    tile_b.thermal_energy = fx(100.0);

    let (gas_change, thermal_energy_change) = share_air(&tile_a, &tile_b, 1, 1);
    for i in 0..GAS_COUNT {
        assert_eq!(gas_change.values[i], fx(0.0), "{}", i);
    }
    assert_eq!(thermal_energy_change, fx(0.0));
}

// share_air() should split air into 2 equal parts with connected_dirs of 1.
#[test]
fn share_splits_air_cd1() {
    let mut tile_a = Tile::new();
    tile_a.gases.set_oxygen(fx(100.0));
    tile_a.thermal_energy = fx(100.0);
    let tile_b = Tile::new();

    let (gas_change, thermal_energy_change) = share_air(&tile_a, &tile_b, 1, 1);
    for i in 0..GAS_COUNT {
        if i == GAS_OXYGEN {
            assert_eq!(gas_change.values[i], fx(-50.0));
        } else {
            assert_eq!(gas_change.values[i], fx(0.0), "{}", i);
        }
    }
    assert_eq!(thermal_energy_change, fx(-50.0));
}

// share_air() should split air into 5 equal parts with connected_dirs of 4.
#[test]
fn share_splits_air_cd4() {
    let mut tile_a = Tile::new();
    tile_a.gases.set_oxygen(fx(100.0));
    tile_a.thermal_energy = fx(100.0);
    let tile_b = Tile::new();

    let (gas_change, thermal_energy_change) = share_air(&tile_a, &tile_b, 4, 4);
    for i in 0..GAS_COUNT {
        if i == GAS_OXYGEN {
            assert_eq!(gas_change.values[i], fx(-20.0));
        } else {
            assert_eq!(gas_change.values[i], fx(0.0), "{}", i);
        }
    }
    assert_eq!(thermal_energy_change, fx(-20.0));
}

// superconduct() should transfer part of the thermal energy between two
// tiles that differ only in thermal energy.
#[test]
fn superconduct_temperature() {
    let mut tile_a = Tile::new();
    tile_a.gases.set_oxygen(fx(80.0));
    tile_a.gases.set_nitrogen(fx(20.0));
    tile_a.thermal_energy = fx(100.0);
    let mut tile_b = Tile::new();
    tile_b.gases.set_oxygen(fx(80.0));
    tile_b.gases.set_nitrogen(fx(20.0));
    tile_b.thermal_energy = fx(200.0);

    superconduct(&mut tile_a, &mut tile_b, true, false);

    assert_eq!(tile_a.thermal_energy, fx(120.0));
    assert_eq!(tile_b.thermal_energy, fx(180.0));
}

// Superconduction symmetry: off the hotspot branches, one tile loses
// exactly what the other gains.
#[test]
fn superconduct_is_symmetric() {
    let mut tile_a = Tile::new();
    tile_a.gases.set_oxygen(fx(30.0));
    tile_a.thermal_energy = fx(700.0);
    let mut tile_b = Tile::new();
    tile_b.gases.set_oxygen(fx(50.0));
    tile_b.thermal_energy = fx(150.0);
    let a0 = tile_a.thermal_energy;
    let b0 = tile_b.thermal_energy;

    superconduct(&mut tile_a, &mut tile_b, false, false);

    let delta_a = tile_a.thermal_energy.raw - a0.raw;
    let delta_b = tile_b.thermal_energy.raw - b0.raw;
    assert!(delta_a != 0);
    assert_eq!(delta_a, -delta_b);
}

// Superconduction across the optimal burn temperature feeds the cooler
// tile's hotspot instead of its bulk heat: the hotspot persists and heats
// up, while the donor loses both halves of the conduction.
#[test]
fn superconduct_feeds_hotspot() {
    let mut tile_a = Tile::new();
    tile_a.gases.set_oxygen(fx(80.0));
    tile_a.gases.set_nitrogen(fx(20.0));
    tile_a.thermal_energy = fx(10_000_000.0);  // 5000 K at heat capacity 2000
    let mut tile_b = Tile::new();
    tile_b.gases.set_oxygen(fx(80.0));
    tile_b.gases.set_nitrogen(fx(20.0));
    tile_b.thermal_energy = fx(600_000.0);  // 300 K
    tile_b.hotspot_volume = fx(0.1);
    tile_b.hotspot_temperature = fx(1000.0);

    superconduct(&mut tile_a, &mut tile_b, true, false);

    assert!(tile_b.hotspot_volume.raw > 0, "{:?}", tile_b.hotspot_volume);
    assert!(
        tile_b.hotspot_temperature.raw > fx(1000.0).raw,
        "{:?}",
        tile_b.hotspot_temperature
    );
    assert!(tile_a.thermal_energy.raw < fx(10_000_000.0).raw);
}

// Plasma burns above its minimum temperature: toxins fall, carbon dioxide
// rises, oxygen falls, and fuel is reported.
#[test]
fn react_plasma_fire_directional() {
    let mut tile = Tile::new();
    tile.mode = AtmosMode::Sealed;
    tile.gases.set_toxins(fx(50.0));
    tile.gases.set_oxygen(fx(200.0));
    // heat capacity 50*200 + 200*20 = 14000; 600 K
    tile.thermal_energy = fx(8_400_000.0);

    let fuel = react(&mut tile, false);

    assert!(fuel.raw > 0);
    assert!(tile.gases.toxins().raw < fx(50.0).raw);
    assert!(tile.gases.oxygen().raw < fx(200.0).raw);
    assert!(tile.gases.carbon_dioxide().raw > 0);
}

// Below every activation temperature a reaction pass changes nothing.
#[test]
fn react_inert_below_activation() {
    let mut tile = Tile::new();
    tile.mode = AtmosMode::Sealed;
    tile.gases.set_toxins(fx(50.0));
    tile.gases.set_oxygen(fx(200.0));
    // 300 K, below the plasma ignition point
    tile.thermal_energy = fx(4_200_000.0);

    let fuel = react(&mut tile, false);

    assert_eq!(fuel, fx(0.0));
    assert_eq!(tile.gases.toxins(), fx(50.0));
    assert_eq!(tile.gases.oxygen(), fx(200.0));
    assert_eq!(tile.gases.carbon_dioxide(), fx(0.0));
    assert_eq!(tile.thermal_energy, fx(4_200_000.0));
}

// Sleeping agent decomposes into nitrogen and oxygen above its breakdown
// temperature.
#[test]
fn react_nitrous_breakdown_directional() {
    let mut tile = Tile::new();
    tile.mode = AtmosMode::Sealed;
    tile.gases.set_sleeping_agent(fx(50.0));
    // heat capacity 50*40 = 2000; 1500 K
    tile.thermal_energy = fx(3_000_000.0);

    let fuel = react(&mut tile, false);

    assert!(fuel.raw > 0);
    assert!(tile.gases.sleeping_agent().raw < fx(50.0).raw);
    assert!(tile.gases.values[GAS_NITROGEN].raw > 0);
    assert!(tile.gases.oxygen().raw > 0);
}

// Agent B converts carbon dioxide into oxygen above its activation
// temperature, consuming a little of itself.
#[test]
fn react_agent_b_converts_co2() {
    let mut tile = Tile::new();
    tile.mode = AtmosMode::Sealed;
    tile.gases.set_carbon_dioxide(fx(40.0));
    tile.gases.set_toxins(fx(40.0));
    tile.gases.set_agent_b(fx(10.0));
    // heat capacity 40*30 + 40*200 + 10*300 = 12200; 1000 K
    tile.thermal_energy = fx(12_200_000.0);

    let fuel = react(&mut tile, false);

    assert!(fuel.raw > 0);
    assert!(tile.gases.carbon_dioxide().raw < fx(40.0).raw);
    assert!(tile.gases.oxygen().raw > 0);
    assert!(tile.gases.agent_b().raw < fx(10.0).raw);
}

// The sanitizer rolls non-finite values back to the prior tick, clamps
// negatives to zero, and is idempotent.
#[test]
fn sanitize_repairs_and_is_idempotent() {
    let mut prior = Tile::new();
    prior.gases.set_oxygen(fx(10.0));
    prior.thermal_energy = fx(5.0);

    let mut tile = Tile::new();
    tile.gases.set_oxygen(Fix::non_finite());
    tile.gases.set_nitrogen(fx(-3.0));
    tile.thermal_energy = fx(-1.0);
    tile.momentum_x = Fix::non_finite();

    let sanitized = sanitize(&mut tile, &prior);
    assert!(sanitized);
    assert_eq!(tile.gases.oxygen(), fx(10.0));
    assert_eq!(tile.gases.nitrogen(), fx(0.0));
    assert_eq!(tile.thermal_energy, fx(0.0));
    assert_eq!(tile.momentum_x, fx(0.0));

    let snapshot = tile.snapshot();
    let again = sanitize(&mut tile, &prior);
    assert!(!again);
    for i in 0..GAS_COUNT {
        assert_eq!(tile.gases.values[i], snapshot.gases.values[i]);
    }
    assert_eq!(tile.thermal_energy, snapshot.thermal_energy);
    assert_eq!(tile.momentum_x, snapshot.momentum_x);
    assert_eq!(tile.momentum_y, snapshot.momentum_y);
}

// A nearly empty tile is emptied outright without counting as sanitation.
#[test]
fn sanitize_empties_trace_gas() {
    let prior = Tile::new();
    let mut tile = Tile::new();
    tile.gases.set_oxygen(Fix::of(0));
    tile.thermal_energy = fx(3.0);

    let sanitized = sanitize(&mut tile, &prior);
    assert!(!sanitized);
    assert_eq!(tile.gases.oxygen(), fx(0.0));
    assert_eq!(tile.thermal_energy, fx(0.0));
}

// Significance needs both an absolute amount and a share of the mixture.
#[test]
fn is_significant_thresholds() {
    let mut tile = Tile::new();
    tile.gases.set_oxygen(fx(1000.0));
    tile.gases.set_toxins(fx(0.5));
    assert!(is_significant(&tile, GAS_OXYGEN));
    // 0.5 of 1000.5 moles is far below the one-percent share threshold.
    assert!(!is_significant(&tile, milla::constants::GAS_TOXINS));
    tile.gases.set_agent_b(fx(0.5));
    // agent B is exempt from the share test.
    assert!(is_significant(&tile, milla::constants::GAS_AGENT_B));
}

// The sink hands back what was pushed into it.
#[test]
fn sink_round_trip() {
    let mut sink = InterestingSink::new();
    assert!(sink.is_empty());
    assert!(sink.pop().is_none());
    let record = InterestingTile {
        tile: Tile::new(),
        coords: Coords { x: 3, y: 4, z: 1 },
        reasons: ReasonFlags { bits: REASON_DISPLAY },
        wind_x: fx(0.0),
        wind_y: fx(0.0),
    };
    sink.push(record);
    assert!(!sink.is_empty());
    let out = sink.pop().expect("one record was pushed");
    assert_eq!(out.coords, Coords { x: 3, y: 4, z: 1 });
    assert!(out.reasons.contains(REASON_DISPLAY));
    assert!(sink.pop().is_none());
}

