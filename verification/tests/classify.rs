use basic_calculator::magic_number;

#[test]
fn even_inputs_give_12() {
    assert_eq!(magic_number(0), 12);
    assert_eq!(magic_number(2), 12);
    assert_eq!(magic_number(4), 12);
    assert_eq!(magic_number(100), 12);
}

#[test]
fn odd_multiples_of_three_give_13() {
    assert_eq!(magic_number(3), 13);
    assert_eq!(magic_number(9), 13);
    assert_eq!(magic_number(15), 13);
}

#[test]
fn remaining_inputs_give_17() {
    assert_eq!(magic_number(1), 17);
    assert_eq!(magic_number(5), 17);
    assert_eq!(magic_number(7), 17);
    assert_eq!(magic_number(25), 17);
}

#[test]
fn evenness_wins_tie_break() {
    assert_eq!(magic_number(6), 12);
    assert_eq!(magic_number(12), 12);
    assert_eq!(magic_number(18), 12);
}
