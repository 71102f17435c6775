use markov_grid::scalar::Scalar;
use markov_grid::world::{State, World};

/// Double-precision arithmetic, as the grid's numbers.
#[derive(Clone, Copy, Debug, PartialEq)]
struct Real(f64);

impl Scalar for Real {
    fn from_hundredths(n: i32) -> Real {
        Real(n as f64 / 100.0)
    }

    fn sum(&self, rhs: &Real) -> Real {
        Real(self.0 + rhs.0)
    }

    fn difference(&self, rhs: &Real) -> Real {
        Real(self.0 - rhs.0)
    }

    fn product(&self, rhs: &Real) -> Real {
        Real(self.0 * rhs.0)
    }

    fn abs(&self) -> Real {
        Real(self.0.abs())
    }

    fn round_to(&self, precision: i32) -> Real {
        let divisor = 10_f64.powi(precision);
        Real((self.0 * divisor).round() / divisor)
    }

    fn greater_than(&self, rhs: &Real) -> bool {
        self.0 > rhs.0
    }

    fn to_text(&self) -> String {
        format!("{:.3}", self.0)
    }
}

#[test]
fn correct_indexing() {
    let mut world: World<Real> = World::new(4, 3);
    world.set_state(State::TerminalState(Real(1.0)), 3, 2);

    assert_eq!(4, world.width());
    assert_eq!(3, world.height());
}

#[test]
fn world_update_normal_state() {
    let mut world: World<Real> = World::new(4, 3);

    assert_eq!(&State::NormalState(Real(0.0)), world.read_state(1, 1));

    world.set_state(State::NormalState(Real(4.2)), 1, 1);
    assert_eq!(&State::NormalState(Real(4.2)), world.read_state(1, 1));

    world.set_state(State::NormalState(Real(6.6)), 1, 1);
    assert_eq!(&State::NormalState(Real(6.6)), world.read_state(1, 1));
}

#[test]
fn world_prepare_standard_world() {
    let mut world: World<Real> = World::new(4, 3);

    world.set_state(State::StartState, 0, 2);
    world.set_state(State::ProhibitedState, 1, 1);
    world.set_state(State::TerminalState(Real(1.0)), 3, 0);
    world.set_state(State::TerminalState(Real(-1.0)), 3, 1);

    assert_eq!(&State::StartState, world.read_state(0, 2));
    assert_eq!(&State::ProhibitedState, world.read_state(1, 1));
    assert_eq!(&State::TerminalState(Real(1.0)), world.read_state(3, 0));
    assert_eq!(&State::TerminalState(Real(-1.0)), world.read_state(3, 1));
}

#[test]
fn return_prohibited_state_if_accessed_out_of_range() {
    let world: World<Real> = World::new(4, 3);
    assert_eq!(&State::ProhibitedState, world.read_state(5, 3));
    assert_eq!(&State::ProhibitedState, world.read_state(4, 4));
    assert_eq!(&State::ProhibitedState, world.read_state(4, 4));
}

#[test]
fn walk_through_all_fields() {
    let world: World<Real> = World::new(4, 3);
    let mut number_of_calls = 0;

    let mut walk_predicate = |_field: &State<Real>, x: usize, y: usize| {
        number_of_calls += 1;
        println!("Iterating over {} {}", x, y);
    };

    for (field, x, y) in world.walk().iter() {
        walk_predicate(field, *x, *y);
    }
    assert_eq!(4 * 3, number_of_calls);
}

#[test]
fn a_walk_reads_row_by_row() {
    let mut world: World<Real> = World::new(3, 2);
    world.set_state(State::TerminalState(Real(1.0)), 2, 0);
    world.set_state(State::StartState, 0, 1);

    let visits = world.walk();

    assert_eq!(
        vec![
            (State::NormalState(Real(0.0)), 0, 0),
            (State::NormalState(Real(0.0)), 1, 0),
            (State::TerminalState(Real(1.0)), 2, 0),
            (State::StartState, 0, 1),
            (State::NormalState(Real(0.0)), 1, 1),
            (State::NormalState(Real(0.0)), 2, 1),
        ],
        visits
    );
}

#[test]
fn a_walk_over_an_empty_grid_visits_nothing() {
    let no_columns: World<Real> = World::new(0, 3);
    assert!(no_columns.walk().is_empty());
    let no_rows: World<Real> = World::new(4, 0);
    assert!(no_rows.walk().is_empty());
    assert_eq!(&State::ProhibitedState, no_rows.read_state(0, 0));
}

#[test]
fn a_write_changes_one_position_only() {
    let mut world: World<Real> = World::new(4, 3);
    world.set_state(State::SpecialState, 2, 1);

    for (state, x, y) in world.walk() {
        if (x, y) == (2, 1) {
            assert_eq!(State::SpecialState, state);
        } else {
            assert_eq!(State::NormalState(Real(0.0)), state);
        }
        assert_eq!(&state, world.read_state(x, y));
    }
}
