use ld_node::Direction;
use std::convert::TryFrom;

#[test]
fn parses_the_two_tokens() {
    assert_eq!(Direction::parse("ltr"), Ok(Direction::Ltr));
    assert_eq!(Direction::parse("rtl"), Ok(Direction::Rtl));
}

#[test]
fn renders_the_two_tokens() {
    assert_eq!(Direction::Ltr.render(), "ltr");
    assert_eq!(Direction::Rtl.render(), "rtl");
}

#[test]
fn round_trip_of_tokens() {
    for token in ["ltr", "rtl"] {
        assert_eq!(Direction::parse(token).unwrap().render(), token);
    }
    for direction in [Direction::Ltr, Direction::Rtl] {
        assert_eq!(Direction::parse(direction.render()), Ok(direction));
    }
}

#[test]
fn rejects_other_tokens_and_echoes_them() {
    for token in ["", "LTR", "Rtl", " ltr", "ltr ", "lt", "ltrr", "auto", "rtl\n", "ｌｔｒ"] {
        assert_eq!(Direction::parse(token), Err(token));
    }
}

#[test]
fn try_from_is_parse() {
    assert_eq!(Direction::try_from("ltr"), Ok(Direction::Ltr));
    assert_eq!(Direction::try_from("rtl"), Ok(Direction::Rtl));
    assert_eq!(Direction::try_from("up"), Err("up"));
}

#[test]
fn directions_are_ordered() {
    assert!(Direction::Ltr < Direction::Rtl);
    assert_eq!(Direction::Ltr, Direction::Ltr);
    assert_ne!(Direction::Ltr, Direction::Rtl);
}
