use milla::fixnum::Fix;
use milla::spring_chain::{approximate_displacements, calculate_reduction_factor, solve};

const DISPLACEMENT_TOLERANCE: i64 = 1000;

fn fx(v: f64) -> Fix {
    Fix::of((v * 10000.0).round() as i64)
}

fn close(a: Fix, v: f64) -> bool {
    a.finite && (a.raw - fx(v).raw).abs() < DISPLACEMENT_TOLERANCE
}

#[test]
fn approximate_displacements_simple() {
    let k: Vec<Fix> = vec![fx(1.0), fx(1.0), fx(1.0), fx(1.0)];
    let f: Vec<Fix> = vec![fx(0.0), fx(0.0), fx(4.0 / 3.0)];
    let displacements = approximate_displacements(k, f);
    assert_eq!(displacements.len(), 3);
    assert!(close(displacements[0], 1.0 / 3.0), "{:?}", displacements);
    assert!(close(displacements[1], 2.0 / 3.0), "{:?}", displacements);
    assert!(close(displacements[2], 1.0), "{:?}", displacements);
}

#[test]
fn approximate_displacements_doesnt_displace_without_forces() {
    let k: Vec<Fix> = vec![fx(1.0), fx(2.0), fx(3.0), fx(4.0)];
    let f: Vec<Fix> = vec![fx(0.0), fx(0.0), fx(0.0)];
    let displacements = approximate_displacements(k, f);
    for val in displacements {
        assert_eq!(val, fx(0.0));
    }
}

#[test]
fn approximate_displacements_opposing_forces() {
    let k: Vec<Fix> = vec![fx(1.0), fx(1.0), fx(1.0)];
    let f: Vec<Fix> = vec![fx(1.5), fx(-1.5)];
    let displacements = approximate_displacements(k, f);
    assert!(close(displacements[0], 0.5), "{:?}", displacements);
    assert!(close(displacements[1], -0.5), "{:?}", displacements);
}

#[test]
fn approximate_displacements_respects_spring_constants() {
    let k: Vec<Fix> = vec![fx(1.0), fx(1.0), fx(2.0), fx(2.0)];
    let f: Vec<Fix> = vec![fx(0.0), fx(3.0), fx(0.0)];
    let displacements = approximate_displacements(k, f);
    assert!(close(displacements[0], 1.0), "{:?}", displacements);
    assert!(close(displacements[1], 2.0), "{:?}", displacements);
    assert!(close(displacements[2], 1.0), "{:?}", displacements);
}

#[test]
fn calculate_reduction_factor_simple() {
    let displacements: Vec<Fix> = vec![fx(2.0)];
    assert_eq!(calculate_reduction_factor(&displacements, false, false), fx(2.0));
}

#[test]
fn calculate_reduction_factor_opposing_forces() {
    let displacements: Vec<Fix> = vec![fx(1.0), fx(-1.0)];
    assert_eq!(calculate_reduction_factor(&displacements, false, false), fx(2.0));
}

#[test]
fn calculate_reduction_factor_unbound_right() {
    let displacements: Vec<Fix> = vec![fx(2.0)];
    assert_eq!(calculate_reduction_factor(&displacements, false, true), fx(1.0));
}

#[test]
fn calculate_reduction_factor_unbound_left() {
    let displacements: Vec<Fix> = vec![fx(-2.0)];
    assert_eq!(calculate_reduction_factor(&displacements, true, false), fx(1.0));
}

#[test]
fn solve_simple() {
    let k: Vec<Fix> = vec![fx(1.0), fx(1.0), fx(1.0), fx(1.0)];
    let f: Vec<Fix> = vec![fx(0.0), fx(0.0), fx(2.0)];
    let displacements = solve(k, f, false, false);
    assert_eq!(displacements.len(), 3);
    assert!(close(displacements[0], 1.0 / 3.0), "{:?}", displacements);
    assert!(close(displacements[1], 2.0 / 3.0), "{:?}", displacements);
    assert!(close(displacements[2], 1.0), "{:?}", displacements);
}

#[test]
fn solve_with_reduction() {
    let k: Vec<Fix> = vec![fx(1.0), fx(1.0), fx(1.0), fx(1.0)];
    let f: Vec<Fix> = vec![fx(0.0), fx(0.0), fx(4.0)];
    let displacements = solve(k, f, false, false);
    assert_eq!(displacements.len(), 3);
    assert!(close(displacements[0], 1.0 / 3.0), "{:?}", displacements);
    assert!(close(displacements[1], 2.0 / 3.0), "{:?}", displacements);
    assert!(close(displacements[2], 1.0), "{:?}", displacements);
}

// The solver's ordering guarantee on concrete hostile inputs: no mass is
// carried more than one rest length past its neighbor, and bound ends stay
// inside the walls.
#[test]
fn solve_never_inverts_masses() {
    let k: Vec<Fix> = vec![fx(100.0), fx(0.0001), fx(0.0001), fx(5.0), fx(80.0)];
    let f: Vec<Fix> = vec![fx(5000.0), fx(-7000.0), fx(9000.0), fx(-1.0)];
    let displacements = solve(k, f, false, false);
    assert_eq!(displacements.len(), 4);
    for i in 1..displacements.len() {
        assert!(
            displacements[i - 1].raw <= displacements[i].raw + 10000,
            "{:?}",
            displacements
        );
    }
    assert!(displacements[0].raw >= -10000, "{:?}", displacements);
    assert!(displacements[3].raw <= 10000, "{:?}", displacements);
}
