use markov_grid::action::{left_operation, reverse_operation, right_operation, Action};

const ALL: [Action; 4] = [Action::Up, Action::Down, Action::Left, Action::Right];

#[test]
fn left_operation_calculations() {
    assert_eq!(Action::Left, left_operation(&Action::Up));
    assert_eq!(Action::Down, left_operation(&Action::Left));
    assert_eq!(Action::Right, left_operation(&Action::Down));
    assert_eq!(Action::Up, left_operation(&Action::Right));
}

#[test]
fn right_operation_calculations() {
    assert_eq!(Action::Right, right_operation(&Action::Up));
    assert_eq!(Action::Up, right_operation(&Action::Left));
    assert_eq!(Action::Left, right_operation(&Action::Down));
    assert_eq!(Action::Down, right_operation(&Action::Right));
}

#[test]
fn reverse_operation_calculations() {
    assert_eq!(Action::Left, reverse_operation(&Action::Right));
    assert_eq!(Action::Down, reverse_operation(&Action::Up));
    assert_eq!(Action::Up, reverse_operation(&Action::Down));
    assert_eq!(Action::Right, reverse_operation(&Action::Left));
}

#[test]
fn four_quarter_turns_lead_back() {
    for action in ALL.iter() {
        let once = left_operation(action);
        let twice = left_operation(&once);
        let thrice = left_operation(&twice);
        assert_eq!(*action, left_operation(&thrice));
        assert_eq!(twice, reverse_operation(action));
        assert_eq!(thrice, right_operation(action));
    }
}

#[test]
fn a_half_turn_undoes_itself() {
    for action in ALL.iter() {
        assert_eq!(*action, reverse_operation(&reverse_operation(action)));
    }
}

#[test]
fn left_after_a_half_turn_is_right() {
    for action in ALL.iter() {
        assert_eq!(right_operation(action), left_operation(&reverse_operation(action)));
        assert_eq!(*action, right_operation(&left_operation(action)));
    }
}

#[test]
fn directions_print_as_arrows() {
    assert_eq!('^', Action::Up.glyph());
    assert_eq!('v', Action::Down.glyph());
    assert_eq!('<', Action::Left.glyph());
    assert_eq!('>', Action::Right.glyph());
}
