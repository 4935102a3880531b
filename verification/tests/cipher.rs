use transcipher::cipher::{TransCipher, TransRoute};
use transcipher::spiral::SpiralTraversal;

#[test]
fn build_matrix() {
    let cipher = TransCipher::new(9, 3);
    let matrix = cipher.build_matrix("mATt");

    assert_eq!('M', matrix.get_char((0, 0)).unwrap());
    assert_eq!('A', matrix.get_char((1, 0)).unwrap());
    assert_eq!('T', matrix.get_char((2, 0)).unwrap());
    assert_eq!('T', matrix.get_char((3, 0)).unwrap());
    assert_eq!('X', matrix.get_char((3, 1)).unwrap());
    assert_eq!('X', matrix.get_char((8, 2)).unwrap());

    assert!(matrix.get_char((9, 0)).is_err(), "Expected failure due out of bounds");
    assert!(matrix.get_char((9, 4)).is_err(), "Expected failure due out of bounds");
}

fn collect_coords(width: usize, height: usize) -> Vec<(usize, usize)> {
    let mut traversal = SpiralTraversal::new(width, height);
    let mut coords = Vec::new();
    while let Some(c) = traversal.next() {
        coords.push(c);
    }
    coords
}

#[test]
fn traversal_covers_grid_without_repeats() {
    for &(w, h) in &[(1usize, 1usize), (2, 2), (4, 3), (3, 4), (5, 5), (6, 1), (1, 6)] {
        let coords = collect_coords(w, h);
        assert_eq!(coords.len(), w * h);
        for x in 0..w {
            for y in 0..h {
                assert!(coords.contains(&(x, y)), "missing cell ({}, {})", x, y);
            }
        }
        for i in 0..coords.len() {
            for j in 0..i {
                assert_ne!(coords[i], coords[j], "cell visited twice");
            }
        }
    }
}

#[test]
fn traversal_starts_top_right_going_down() {
    for &(w, h) in &[(1usize, 1usize), (4, 3), (2, 2), (7, 5)] {
        let coords = collect_coords(w, h);
        assert_eq!(coords[0], (w - 1, 0));
        if h > 1 {
            assert_eq!(coords[1], (w - 1, 1));
        }
    }
}

#[test]
fn traversal_single_row_and_column() {
    assert_eq!(collect_coords(3, 1), vec![(2, 0), (1, 0), (0, 0)]);
    assert_eq!(collect_coords(1, 3), vec![(0, 0), (0, 1), (0, 2)]);
    assert_eq!(collect_coords(1, 1), vec![(0, 0)]);
}

#[test]
fn traversal_is_exhausted_after_last_cell() {
    let mut traversal = SpiralTraversal::new(2, 2);
    for _ in 0..4 {
        assert!(traversal.next().is_some());
    }
    assert!(traversal.next().is_none());
    assert!(traversal.next().is_none());
}

#[test]
fn get_char_fails_exactly_outside_dimensions() {
    let cipher = TransCipher::new(4, 2);
    let matrix = cipher.build_matrix("abc");
    for x in 0..6 {
        for y in 0..4 {
            let looked_up = matrix.get_char((x, y));
            if x >= 4 || y >= 2 {
                assert!(looked_up.is_err());
            } else {
                assert!(looked_up.is_ok());
            }
        }
    }
    assert_eq!('A', matrix.get_char((0, 0)).unwrap());
    assert_eq!('B', matrix.get_char((1, 0)).unwrap());
    assert_eq!('C', matrix.get_char((2, 0)).unwrap());
    assert_eq!('X', matrix.get_char((3, 0)).unwrap());
    assert_eq!('X', matrix.get_char((3, 1)).unwrap());
}

#[test]
fn out_of_bounds_message_names_coordinates_and_limits() {
    let cipher = TransCipher::new(9, 3);
    let matrix = cipher.build_matrix("mATt");
    let error = matrix.get_char((9, 4)).unwrap_err();
    assert_eq!(
        "Tried to access x=9 and y=4 but max x=8 and max y=2",
        error.message()
    );
}

#[test]
fn encode_pads_short_text_to_grid_size() {
    let cipher = TransCipher::new(9, 3);
    let encoded = cipher.encode(TransRoute::Spiral, "mATt");
    assert_eq!(27, encoded.chars().count());
}

#[test]
fn encode_keeps_only_alphabetic_characters_uppercased() {
    let cipher = TransCipher::new(3, 2);
    let matrix = cipher.build_matrix("a1b!c d2e");
    assert_eq!('A', matrix.get_char((0, 0)).unwrap());
    assert_eq!('B', matrix.get_char((1, 0)).unwrap());
    assert_eq!('C', matrix.get_char((2, 0)).unwrap());
    assert_eq!('D', matrix.get_char((0, 1)).unwrap());
    assert_eq!('E', matrix.get_char((1, 1)).unwrap());
    assert_eq!('X', matrix.get_char((2, 1)).unwrap());
}

#[test]
fn encode_three_by_three_scenario() {
    let coords = collect_coords(3, 3);
    assert_eq!(
        coords,
        vec![(2, 0), (2, 1), (2, 2), (1, 2), (0, 2), (0, 1), (0, 0), (1, 0), (1, 1)]
    );
    let cipher = TransCipher::new(3, 3);
    let encoded = cipher.encode(TransRoute::Spiral, "ABCDEFGHI");
    assert_eq!("CFIHGDABE", encoded);
}

#[test]
fn encode_flee_at_once_message() {
    // Cleaned text "WEAREDISCOVEREDFLEEATONCE" laid out 9 wide, 3 high,
    // read back in spiral order from the top-right corner.
    let cipher = TransCipher::new(9, 3);
    let encoded = cipher.encode(TransRoute::Spiral, "WE ARE DISCOVERED. FLEE AT ONCE");
    assert_eq!("CEXXECNOTAEOWEAREDISLFDEREV", encoded);
}

#[test]
fn encode_twice_gives_identical_output() {
    let cipher = TransCipher::new(9, 3);
    let first = cipher.encode(TransRoute::Spiral, "WE ARE DISCOVERED. FLEE AT ONCE");
    let second = cipher.encode(TransRoute::Spiral, "WE ARE DISCOVERED. FLEE AT ONCE");
    assert_eq!(first, second);

    let other_route = TransCipher::new(9, 3).encode(
        TransRoute::ReverseSpiral,
        "WE ARE DISCOVERED. FLEE AT ONCE",
    );
    assert_eq!(first, other_route);
}
