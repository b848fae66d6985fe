use monkey::text::{ascii_part, same_text};

#[test]
fn same_text_compares_characters() {
    assert!(same_text("", ""));
    assert!(same_text("let", "let"));
    assert!(!same_text("let", "led"));
    assert!(!same_text("let", "lets"));
    assert!(!same_text("", "a"));
    assert!(same_text("été", "été"));
    assert!(!same_text("été", "ete"));
}

#[test]
fn ascii_part_cuts_bytes_out_of_a_text() {
    assert_eq!(ascii_part("let x = 5;", 0, 3), "let");
    assert_eq!(ascii_part("let x = 5;", 4, 5), "x");
    assert_eq!(ascii_part("let x = 5;", 10, 10), "");
    assert_eq!(ascii_part("let x = 5;", 0, 10), "let x = 5;");
    // "é" takes two bytes: the letters begin at byte 2 and end before byte 5
    assert_eq!(ascii_part("éabcé", 2, 5), "abc");
    // an empty part may lie anywhere, also inside a character
    assert_eq!(ascii_part("é", 1, 1), "");
}
