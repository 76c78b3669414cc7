use noide::pairing::{
    code_of, generate_code, print_open, print_pairing, print_qr, qr_lines, Modules,
};

const SET: &str = "\u{1b}[38;5;0;48;5;15m";
const RESET: &str = "\u{1b}[0m";

#[test]
fn picks_come_to_a_code() {
    assert_eq!(code_of(&vec![0, 1, 2, 3, 4, 5, 6, 7]), "ABCD-EFGH");
    assert_eq!(code_of(&vec![30, 22, 23, 8, 9, 10, 11, 12]), "9Z2J-KMNP");
}

#[test]
fn generated_codes_have_the_right_form() {
    for _ in 0..200 {
        let code: Vec<char> = generate_code().chars().collect();
        assert_eq!(code.len(), 9);
        assert_eq!(code[4], '-');
        for (i, c) in code.iter().enumerate() {
            if i != 4 {
                assert!("ABCDEFGHJKMNPQRSTUVWXYZ23456789".contains(*c));
            }
        }
    }
}

#[test]
fn codes_hold_no_letter_that_is_taken_for_another() {
    for _ in 0..200 {
        let code = generate_code();
        for c in ['0', 'O', '1', 'I', 'L'] {
            assert!(!code.contains(c));
        }
    }
}

#[test]
fn codes_differ() {
    let codes: Vec<String> = (0..50).map(|_| generate_code()).collect();
    assert!(codes.iter().any(|c| *c != codes[0]));
}

#[test]
fn modules_are_drawn_as_half_blocks() {
    // Two by two modules: the upper left and the lower right ones are dark.
    let m = Modules { size: 2, dark: vec![true, false, false, true] };
    let lines = qr_lines(&m);
    let blank = format!("{}      {}", SET, RESET);
    let drawn = format!("{}  \u{2580}\u{2584}  {}", SET, RESET);
    assert_eq!(lines, vec![blank.clone(), drawn, blank]);
}

#[test]
fn one_dark_module_stands_in_the_upper_half() {
    let m = Modules { size: 1, dark: vec![true] };
    let lines = qr_lines(&m);
    assert_eq!(lines.len(), 3);
    assert_eq!(lines[1], format!("{}  \u{2580}  {}", SET, RESET));
    let full = Modules { size: 2, dark: vec![true, true, true, true] };
    assert_eq!(qr_lines(&full)[1], format!("{}  \u{2588}\u{2588}  {}", SET, RESET));
}

#[test]
fn a_code_is_drawn_with_its_finder_patterns() {
    let lines = print_qr("ABCD-EFGH").unwrap();
    // The smallest code has 21 modules a side, and two light ones around them.
    assert_eq!(lines.len(), 13);
    let row: Vec<char> = lines[1].trim_start_matches(SET).trim_end_matches(RESET).chars().collect();
    assert_eq!(row.len(), 25);
    let first: String = row[..10].iter().collect();
    assert_eq!(first, "  \u{2588}\u{2580}\u{2580}\u{2580}\u{2580}\u{2580}\u{2588} ");
    assert_ne!(print_qr("ABCD-EFGH"), print_qr("ABCD-EFGJ"));
}

#[test]
fn every_module_can_be_read_off_the_lines() {
    let m = Modules {
        size: 3,
        dark: vec![true, false, true, false, true, false, true, true, false],
    };
    let lines = qr_lines(&m);
    for y in 0..3usize {
        for x in 0..3usize {
            let row: Vec<char> =
                lines[(y + 2) / 2].trim_start_matches(SET).chars().collect();
            let c = row[x + 2];
            let dark = if (y + 2) % 2 == 0 {
                c == '\u{2588}' || c == '\u{2580}'
            } else {
                c == '\u{2588}' || c == '\u{2584}'
            };
            assert_eq!(dark, m.dark[y * 3 + x]);
        }
    }
}

#[test]
fn a_text_that_is_too_long_has_no_code() {
    let long = "x".repeat(5000);
    assert!(print_qr(&long).is_none());
    assert!(print_pairing(&long).is_none());
    assert!(print_open(&long).is_none());
}

#[test]
fn the_pairing_banner_shows_the_code() {
    let lines = print_pairing("K7XM-2PQ4").unwrap();
    assert_eq!(lines[0], "");
    assert_eq!(lines[2], "  NoIDE pairing required");
    assert_eq!(lines[6], "          K7XM-2PQ4");
    assert_eq!(lines[13], "  Or scan this QR code with the app:");
    assert_eq!(lines[15..28].to_vec(), print_qr("K7XM-2PQ4").unwrap());
    assert_eq!(lines[28], "");
    assert_eq!(lines.len(), 29);
}

#[test]
fn the_open_banner_shows_the_address() {
    let url = "ws://192.168.1.5:1421";
    let lines = print_open(url).unwrap();
    assert_eq!(lines[2], "  NoIDE server (no auth)");
    assert_eq!(lines[6], "          ws://192.168.1.5:1421");
    let qr = print_qr(url).unwrap();
    assert_eq!(lines[10..10 + qr.len()].to_vec(), qr);
    assert_eq!(lines[lines.len() - 2], "=====================================================");
}
