use transcipher::dice::{parse_dice_type, roll_dice, create_roll_output, total_of_rolls, DiceParseError};
use transcipher::door::{next_state, string_to_event, DoorState, Event};
use transcipher::ducci::{format_line, parse_input, DucciError, DucciIterator};
use transcipher::tally::tally;
use transcipher::text::{dec_string, parse_uint, split_chars, str_eq};

#[test]
fn door_opens_and_closes_on_clicks() {
    let state = next_state(DoorState::Closed, Event::ButtonClicked);
    assert!(matches!(state, DoorState::Opening));
    let state = next_state(state, Event::CycleCompleted);
    assert!(matches!(state, DoorState::Open));
    let state = next_state(state, Event::ButtonClicked);
    assert!(matches!(state, DoorState::Closing));
    let state = next_state(state, Event::CycleCompleted);
    assert!(matches!(state, DoorState::Closed));
}

#[test]
fn door_stop_reverses_direction() {
    let stopped = next_state(DoorState::Opening, Event::ButtonClicked);
    match &stopped {
        DoorState::Stopped(prev) => assert!(matches!(**prev, DoorState::Opening)),
        other => panic!("expected a stopped door, got {:?}", other),
    }
    let resumed = next_state(stopped, Event::ButtonClicked);
    assert!(matches!(resumed, DoorState::Closing));

    let stopped = next_state(DoorState::Closing, Event::ButtonClicked);
    let resumed = next_state(stopped, Event::ButtonClicked);
    assert!(matches!(resumed, DoorState::Opening));
}

#[test]
fn door_event_names() {
    assert!(matches!(string_to_event("button_clicked"), Event::ButtonClicked));
    assert!(matches!(string_to_event("cycle_complete"), Event::CycleCompleted));
}

#[test]
fn door_fixed_event_sequence() {
    let events = vec![
        "button_clicked",
        "cycle_complete",
        "button_clicked",
        "button_clicked",
        "button_clicked",
        "button_clicked",
        "button_clicked",
        "cycle_complete",
    ];
    let mut current_state = DoorState::Closed;
    for name in events {
        current_state = next_state(current_state, string_to_event(name));
    }
    assert!(matches!(current_state, DoorState::Closed));
}

#[test]
fn ducci_step_values() {
    let mut sequence = DucciIterator::new(vec![0, 653, 1854, 4063]);
    let next = sequence.next().expect("the sequence goes on");
    assert_eq!(vec![653, 1201, 2209, 4063], next);
}

#[test]
fn ducci_reaches_all_zero_fixed_point() {
    let mut sequence = DucciIterator::new(vec![1, 2, 3, 4]);
    let mut steps = 0;
    let mut last = Vec::new();
    while let Some(row) = sequence.next() {
        last = row;
        steps += 1;
        assert!(steps < 1000, "the four-number Ducci sequence must terminate");
    }
    assert_eq!(vec![0, 0, 0, 0], last);
}

#[test]
fn ducci_stops_on_cycle() {
    // Three numbers cycle instead of reaching zero.
    let mut sequence = DucciIterator::new(vec![1, 5, 7]);
    let mut steps = 0;
    while sequence.next().is_some() {
        steps += 1;
        assert!(steps < 1000, "a repeated tuple must stop the sequence");
    }
    assert!(steps > 0);
}

#[test]
fn ducci_all_zero_start_yields_nothing() {
    let mut sequence = DucciIterator::new(vec![0, 0, 0]);
    assert!(sequence.next().is_none());
}

#[test]
fn parse_input_reads_a_tuple() {
    assert_eq!(vec![1, 2, 3], parse_input("(1, 2, 3)".to_string()).unwrap());
    assert_eq!(vec![10], parse_input("(10)".to_string()).unwrap());
    assert_eq!(vec![0, 653, 1854, 4063], parse_input("(0,653, 1854,4063)".to_string()).unwrap());
}

#[test]
fn parse_input_rejects_malformed_lines() {
    let DucciError::ParseError(message) = parse_input("1, 2)".to_string()).unwrap_err();
    assert_eq!("Input should begin with (", message);

    let DucciError::ParseError(message) = parse_input("(1, 2".to_string()).unwrap_err();
    assert_eq!("Input should end with )", message);

    let DucciError::ParseError(message) = parse_input("(1, x)".to_string()).unwrap_err();
    assert_eq!("Error while parsing integers", message);

    let DucciError::ParseError(message) = parse_input("(1,,2)".to_string()).unwrap_err();
    assert_eq!("Error while parsing integers", message);
}

#[test]
fn format_line_joins_with_semicolons() {
    assert_eq!("[653; 1201; 2209; 4063]", format_line(&vec![653, 1201, 2209, 4063]));
    assert_eq!("[7]", format_line(&vec![7]));
    assert_eq!("[]", format_line(&vec![]));
}

#[test]
fn parse_dice_type_reads_count_and_sides() {
    let dice = parse_dice_type("2d6".to_string()).unwrap();
    assert_eq!(2, dice.number_of_dice);
    assert_eq!(6, dice.sides_of_dice);

    let dice = parse_dice_type("2D6".to_string()).unwrap();
    assert_eq!(2, dice.number_of_dice);
    assert_eq!(6, dice.sides_of_dice);
}

#[test]
fn parse_dice_type_rejects_bad_strings() {
    assert!(matches!(
        parse_dice_type("3x5".to_string()).unwrap_err(),
        DiceParseError::NumberParseError
    ));
    assert!(matches!(
        parse_dice_type("300d6".to_string()).unwrap_err(),
        DiceParseError::NumberParseError
    ));
    assert!(matches!(
        parse_dice_type("1d2d3".to_string()).unwrap_err(),
        DiceParseError::StringFormatError(3)
    ));
    assert!(matches!(
        parse_dice_type("d6".to_string()).unwrap_err(),
        DiceParseError::NumberParseError
    ));

    match parse_dice_type("200d6".to_string()).unwrap_err() {
        DiceParseError::ConstraintError(message) => {
            assert_eq!("Number of dice and number of sides must be less than 100", message)
        },
        other => panic!("expected a constraint error, got {:?}", other),
    }
    match parse_dice_type("1d1".to_string()).unwrap_err() {
        DiceParseError::ConstraintError(message) => {
            assert_eq!("Number of sides must be more than 2", message)
        },
        other => panic!("expected a constraint error, got {:?}", other),
    }
    match parse_dice_type("0d6".to_string()).unwrap_err() {
        DiceParseError::ConstraintError(message) => {
            assert_eq!("Number of dice must be more than 1", message)
        },
        other => panic!("expected a constraint error, got {:?}", other),
    }
}

#[test]
fn roll_dice_respects_count_and_range() {
    let dice = parse_dice_type("10d6".to_string()).unwrap();
    for _ in 0..20 {
        let rolls = roll_dice(&dice);
        assert_eq!(10, rolls.len());
        for roll in &rolls {
            assert!((1..=6).contains(roll));
        }
    }
}

#[test]
fn roll_output_and_total() {
    assert_eq!("3, 1, 4", create_roll_output(&vec![3, 1, 4]));
    assert_eq!("", create_roll_output(&vec![]));
    assert_eq!(8, total_of_rolls(&vec![3, 1, 4]));
    assert_eq!(0, total_of_rolls(&vec![]));
}

#[test]
fn tally_counts_and_orders_votes() {
    let totals = tally("EbAAdbBEaBaaBBdAccbeebaec");
    assert_eq!(
        vec![('c', 3), ('d', 2), ('a', 1), ('e', 1), ('b', 0)],
        totals
    );
}

#[test]
fn tally_of_empty_input_is_empty() {
    assert!(tally("").is_empty());
}

#[test]
fn decimal_rendering_and_parsing() {
    assert_eq!("0", dec_string(0));
    assert_eq!("42", dec_string(42));
    assert_eq!("4063", dec_string(4063));

    assert_eq!(Some(42), parse_uint(&"42".chars().collect(), u32::MAX as u64));
    assert_eq!(Some(7), parse_uint(&"+7".chars().collect(), u32::MAX as u64));
    assert_eq!(Some(1), parse_uint(&"0001".chars().collect(), u32::MAX as u64));
    assert_eq!(None, parse_uint(&"".chars().collect(), u32::MAX as u64));
    assert_eq!(None, parse_uint(&"+".chars().collect(), u32::MAX as u64));
    assert_eq!(None, parse_uint(&"12a".chars().collect(), u32::MAX as u64));
    assert_eq!(None, parse_uint(&"256".chars().collect(), 255));
    assert_eq!(Some(255), parse_uint(&"255".chars().collect(), 255));
    assert_eq!(None, parse_uint(&"99999999999999999999".chars().collect(), u32::MAX as u64));
}

#[test]
fn string_helpers() {
    assert!(str_eq("button_clicked", "button_clicked"));
    assert!(!str_eq("button_clicked", "cycle_complete"));
    assert!(!str_eq("ab", "abc"));

    let pieces = split_chars(&"1,,2".chars().collect(), ',');
    let views: Vec<String> = pieces.iter().map(|p| p.iter().collect()).collect();
    assert_eq!(vec!["1".to_string(), "".to_string(), "2".to_string()], views);
}
