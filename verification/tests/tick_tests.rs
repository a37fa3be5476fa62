use milla::constants::{
    AIRTIGHT_EAST, AIRTIGHT_NORTH, AIRTIGHT_SOUTH, AIRTIGHT_WEST, AXIS_Y, GAS_COUNT, MAP_SIZE,
    REASON_DISPLAY,
};
use milla::fixnum::Fix;
use milla::model::{AtmosMode, MillaError, Tile, ZLevel};
use milla::outside::InterestingSink;
use milla::simulate::process_chain;

fn fx(v: f64) -> Fix {
    Fix::of((v * 10000.0).round() as i64)
}

// A three-tile sealed run along the Y axis at x == 0, walled off from the
// rest of the grid.
fn sealed_run(grid: &mut ZLevel, contents: &[(f64, f64)]) {
    for (y, (o2, thermal)) in contents.iter().enumerate() {
        let mut t = Tile::new();
        t.mode = AtmosMode::Sealed;
        t.gases.set_oxygen(fx(*o2));
        t.thermal_energy = fx(*thermal);
        t.airtight_directions.bits = AIRTIGHT_EAST | AIRTIGHT_WEST;
        if y == 0 {
            t.airtight_directions.bits |= AIRTIGHT_SOUTH;
        }
        if y == contents.len() - 1 {
            t.airtight_directions.bits |= AIRTIGHT_NORTH;
        }
        grid.set_tile(y, t);
    }
}

fn total_oxygen(grid: &ZLevel, indices: &[usize]) -> i64 {
    indices.iter().map(|i| grid.get_tile(*i).gases.oxygen().raw).sum()
}

fn total_thermal(grid: &ZLevel, indices: &[usize]) -> i64 {
    indices.iter().map(|i| grid.get_tile(*i).thermal_energy.raw).sum()
}

// Three sealed tiles, all gases zero, no thermal energy: a tick leaves them
// exactly as they are.
#[test]
fn empty_chain_is_inert() {
    let mut prev = ZLevel::new();
    sealed_run(&mut prev, &[(0.0, 0.0), (0.0, 0.0), (0.0, 0.0)]);
    let mut next = ZLevel::new();
    sealed_run(&mut next, &[(0.0, 0.0), (0.0, 0.0), (0.0, 0.0)]);
    let envs: Vec<Tile> = Vec::new();
    let mut sink = InterestingSink::new();

    let r = milla::simulate::tick(&prev, &mut next, &envs, &mut sink, 0);
    assert!(r.is_ok());
    for i in 0..3 {
        let t = next.get_tile(i);
        for g in 0..GAS_COUNT {
            assert_eq!(t.gases.values[g], fx(0.0));
        }
        assert_eq!(t.thermal_energy, fx(0.0));
        assert_eq!(t.momentum_x, fx(0.0));
        assert_eq!(t.momentum_y, fx(0.0));
    }
    assert!(sink.pop().is_none());
}

// Pressure release: gas packed into one end of a sealed run spreads out,
// picks up border momentum, and its total is conserved.
#[test]
fn pressure_release_conserves_mass() {
    let mut prev = ZLevel::new();
    sealed_run(&mut prev, &[(100.0, 600_000.0), (0.0, 0.0), (0.0, 0.0)]);
    let mut next = ZLevel::new();
    sealed_run(&mut next, &[(100.0, 600_000.0), (0.0, 0.0), (0.0, 0.0)]);
    let envs: Vec<Tile> = Vec::new();
    let mut sink = InterestingSink::new();

    let r = milla::simulate::tick(&prev, &mut next, &envs, &mut sink, 0);
    assert!(r.is_ok());

    let sum = total_oxygen(&next, &[0, 1, 2]);
    assert!((sum - fx(100.0).raw).abs() <= 100, "total oxygen {}", sum);
    assert!(next.get_tile(0).gases.oxygen().raw < fx(100.0).raw);
    assert!(next.get_tile(1).gases.oxygen().raw + next.get_tile(2).gases.oxygen().raw > 0);
    assert!(next.get_tile(0).momentum_y.raw != 0);
}

// Space vent: a run that ends in a space tile loses mass, and the space
// tile itself is stripped bare every tick.
#[test]
fn space_vent_loses_mass() {
    let mut prev = ZLevel::new();
    sealed_run(&mut prev, &[(100.0, 600_000.0), (0.0, 0.0), (0.0, 0.0)]);
    let mut vent = Tile::new();
    vent.mode = AtmosMode::Space;
    vent.airtight_directions.bits = AIRTIGHT_EAST | AIRTIGHT_WEST | AIRTIGHT_NORTH;
    prev.set_tile(2, vent);

    let mut next = ZLevel::new();
    sealed_run(&mut next, &[(100.0, 600_000.0), (0.0, 0.0), (0.0, 0.0)]);
    let mut vent = Tile::new();
    vent.mode = AtmosMode::Space;
    vent.airtight_directions.bits = AIRTIGHT_EAST | AIRTIGHT_WEST | AIRTIGHT_NORTH;
    next.set_tile(2, vent);

    let envs: Vec<Tile> = Vec::new();
    let mut sink = InterestingSink::new();
    let r = milla::simulate::tick(&prev, &mut next, &envs, &mut sink, 0);
    assert!(r.is_ok());

    let t2 = next.get_tile(2);
    for g in 0..GAS_COUNT {
        assert_eq!(t2.gases.values[g], fx(0.0));
    }
    assert_eq!(t2.thermal_energy, fx(0.0));
    assert!(total_oxygen(&next, &[0, 1]) < fx(100.0).raw);
}

// Plasmafire ignition: a hot sealed tile with plasma and oxygen burns,
// and an interesting tile with the display reason is emitted.
#[test]
fn plasmafire_ignites() {
    let mut prev = ZLevel::new();
    let mut t = Tile::new();
    t.mode = AtmosMode::Sealed;
    t.gases.set_toxins(fx(50.0));
    t.gases.set_oxygen(fx(200.0));
    // heat capacity 14000 at 600 K
    t.thermal_energy = fx(8_400_000.0);
    t.airtight_directions.bits = AIRTIGHT_NORTH | AIRTIGHT_EAST | AIRTIGHT_SOUTH | AIRTIGHT_WEST;
    let idx = 5 * MAP_SIZE + 5;
    prev.set_tile(idx, t);

    let mut next = ZLevel::new();
    let mut t = Tile::new();
    t.mode = AtmosMode::Sealed;
    t.gases.set_toxins(fx(50.0));
    t.gases.set_oxygen(fx(200.0));
    t.thermal_energy = fx(8_400_000.0);
    t.airtight_directions.bits = AIRTIGHT_NORTH | AIRTIGHT_EAST | AIRTIGHT_SOUTH | AIRTIGHT_WEST;
    next.set_tile(idx, t);

    let envs: Vec<Tile> = Vec::new();
    let mut sink = InterestingSink::new();
    let r = milla::simulate::tick(&prev, &mut next, &envs, &mut sink, 0);
    assert!(r.is_ok());

    let burnt = next.get_tile(idx);
    assert!(burnt.gases.toxins().raw < fx(50.0).raw);
    assert!(burnt.gases.oxygen().raw < fx(200.0).raw);
    assert!(burnt.gases.carbon_dioxide().raw > 0);

    let record = sink.pop().expect("the burning tile is interesting");
    assert!(record.reasons.contains(REASON_DISPLAY));
    assert_eq!(record.coords.x, 6);
    assert_eq!(record.coords.y, 6);
    assert_eq!(record.coords.z, 1);
}

// Conservation: in a fully sealed region below every reaction temperature,
// a tick conserves total moles and total thermal energy.
#[test]
fn sealed_region_conserves() {
    let contents = [(50.0, 100_000.0), (30.0, 56_000.0), (20.0, 58_000.0)];
    let mut prev = ZLevel::new();
    sealed_run(&mut prev, &contents);
    let mut next = ZLevel::new();
    sealed_run(&mut next, &contents);
    let envs: Vec<Tile> = Vec::new();
    let mut sink = InterestingSink::new();

    let o2_before = total_oxygen(&next, &[0, 1, 2]);
    let heat_before = total_thermal(&next, &[0, 1, 2]);
    let r = milla::simulate::tick(&prev, &mut next, &envs, &mut sink, 0);
    assert!(r.is_ok());
    let o2_after = total_oxygen(&next, &[0, 1, 2]);
    let heat_after = total_thermal(&next, &[0, 1, 2]);

    assert!((o2_after - o2_before).abs() <= 100, "{} vs {}", o2_before, o2_after);
    assert!((heat_after - heat_before).abs() <= 100, "{} vs {}", heat_before, heat_after);
}

// Equilibrium stability: identical sealed tiles see no net flow at all.
#[test]
fn equilibrium_is_stable() {
    let contents = [(40.0, 80_000.0), (40.0, 80_000.0), (40.0, 80_000.0)];
    let mut prev = ZLevel::new();
    sealed_run(&mut prev, &contents);
    let mut next = ZLevel::new();
    sealed_run(&mut next, &contents);
    let envs: Vec<Tile> = Vec::new();
    let mut sink = InterestingSink::new();

    let r = milla::simulate::tick(&prev, &mut next, &envs, &mut sink, 0);
    assert!(r.is_ok());
    for i in 0..3 {
        let t = next.get_tile(i);
        assert_eq!(t.gases.oxygen(), fx(40.0), "tile {}", i);
        assert_eq!(t.thermal_energy, fx(80_000.0), "tile {}", i);
    }
}

// No spontaneous generation: a chain holding no pressure is left untouched
// by the transport pass.
#[test]
fn zero_pressure_chain_is_noop() {
    let mut prev = ZLevel::new();
    sealed_run(&mut prev, &[(0.0, 0.0), (0.0, 0.0), (0.0, 0.0)]);
    let mut next = ZLevel::new();
    sealed_run(&mut next, &[(0.0, 0.0), (0.0, 0.0), (0.0, 0.0)]);
    // seed momentum so that any spurious transport would show
    let mut t = Tile::new();
    t.mode = AtmosMode::Sealed;
    t.airtight_directions.bits = AIRTIGHT_EAST | AIRTIGHT_WEST | AIRTIGHT_SOUTH;
    t.momentum_y = fx(25.0);
    prev.set_tile(0, t);
    let mut t = Tile::new();
    t.mode = AtmosMode::Sealed;
    t.airtight_directions.bits = AIRTIGHT_EAST | AIRTIGHT_WEST | AIRTIGHT_SOUTH;
    t.momentum_y = fx(25.0);
    next.set_tile(0, t);

    process_chain(&prev, &mut next, 0, 2, AXIS_Y);

    for i in 0..3 {
        let t = next.get_tile(i);
        for g in 0..GAS_COUNT {
            assert_eq!(t.gases.values[g], fx(0.0));
        }
        assert_eq!(t.thermal_energy, fx(0.0));
        assert_eq!(t.momentum_y, prev.get_tile(i).momentum_y, "tile {}", i);
    }
}

// An exposed tile pointing past the environment table aborts the tick with
// the invalid-environment error.
#[test]
fn invalid_environment_is_reported() {
    let mut prev = ZLevel::new();
    let mut t = Tile::new();
    t.mode = AtmosMode::ExposedTo { environment_id: 5 };
    prev.set_tile(0, t);
    let mut next = ZLevel::new();
    let mut t = Tile::new();
    t.mode = AtmosMode::ExposedTo { environment_id: 5 };
    next.set_tile(0, t);

    let envs: Vec<Tile> = Vec::new();
    let mut sink = InterestingSink::new();
    let r = milla::simulate::tick(&prev, &mut next, &envs, &mut sink, 0);
    assert_eq!(r, Err(MillaError::InvalidEnvironment { environment_id: 5 }));
}

// An exposed tile resets to its environment prototype every tick.
#[test]
fn exposed_tile_resets() {
    let mut proto = Tile::new();
    proto.gases.set_oxygen(fx(21.0));
    proto.gases.set_nitrogen(fx(79.0));
    proto.thermal_energy = fx(500_000.0);
    let envs: Vec<Tile> = vec![proto];

    let mut prev = ZLevel::new();
    let mut t = Tile::new();
    t.mode = AtmosMode::ExposedTo { environment_id: 0 };
    t.airtight_directions.bits = AIRTIGHT_NORTH | AIRTIGHT_EAST | AIRTIGHT_SOUTH | AIRTIGHT_WEST;
    prev.set_tile(0, t);
    let mut next = ZLevel::new();
    let mut t = Tile::new();
    t.mode = AtmosMode::ExposedTo { environment_id: 0 };
    t.airtight_directions.bits = AIRTIGHT_NORTH | AIRTIGHT_EAST | AIRTIGHT_SOUTH | AIRTIGHT_WEST;
    next.set_tile(0, t);

    let mut sink = InterestingSink::new();
    let r = milla::simulate::tick(&prev, &mut next, &envs, &mut sink, 0);
    assert!(r.is_ok());
    let t = next.get_tile(0);
    assert_eq!(t.gases.oxygen(), fx(21.0));
    assert_eq!(t.gases.nitrogen(), fx(79.0));
    assert_eq!(t.thermal_energy, fx(500_000.0));
}
