use teleinfo_reader::bytes::slice_eq;
use teleinfo_reader::checksum::{checksum, BIAS};
use teleinfo_reader::diagnostic::Diagnostic;
use teleinfo_reader::group::{is_token_bytes, parse_frame, parse_line, Group};
use teleinfo_reader::label::{Format, Label};
use teleinfo_reader::value::{
    all_digits, is_control_byte, is_digit_byte, parse_number, parse_text, trim,
};
use teleinfo_reader::wire::{CR, ETX, LF, SP, STX};

#[test]
fn control_bytes_have_their_ascii_values() {
    assert_eq!(STX, 2);
    assert_eq!(ETX, 3);
    assert_eq!(LF, 10);
    assert_eq!(CR, 13);
    assert_eq!(SP, 32);
    assert_eq!(BIAS, 32);
}

#[test]
fn checksum_of_known_groups() {
    assert_eq!(checksum(b"ADCO", b"012345678901"), b'E');
    assert_eq!(checksum(b"OPTARIF", b"BBR("), b'S');
    assert_eq!(checksum(b"ISOUSC", b"60"), b'<');
    assert_eq!(checksum(b"PAPP", b"00770"), b'/');
    assert_eq!(checksum(b"HHPHC", b"A"), b',');
    assert_eq!(checksum(b"MOTDETAT", b"000000"), b'B');
    assert_eq!(checksum(b"DEMAIN", b"----"), b'"');
}

#[test]
fn checksum_of_empty_label_and_value_is_the_space_masked_and_biased() {
    // Only the separating space is summed: (0x20 & 0x3F) + 0x20.
    assert_eq!(checksum(b"", b""), 0x40);
}

#[test]
fn checksum_stays_printable_on_long_input() {
    let label = vec![0xFFu8; 1000];
    let value = vec![0x7Fu8; 777];
    let expected = (((1000u32 * 0xFF + 0x20 + 777 * 0x7F) & 0x3F) + 0x20) as u8;
    let c = checksum(&label, &value);
    assert_eq!(c, expected);
    assert!((0x20..=0x5F).contains(&c));
}

#[test]
fn checksum_is_the_same_on_every_evaluation() {
    let first = checksum(b"BBRHCJB", b"000130857");
    for _ in 0..100 {
        assert_eq!(checksum(b"BBRHCJB", b"000130857"), first);
    }
    assert_eq!(first, b'5');
}

#[test]
fn slice_eq_compares_contents() {
    assert!(slice_eq(b"", b""));
    assert!(slice_eq(b"PTEC", b"PTEC"));
    assert!(!slice_eq(b"PTEC", b"PTEB"));
    assert!(!slice_eq(b"PTEC", b"PTE"));
    assert!(!slice_eq(b"", b"P"));
}

#[test]
fn digits_are_recognized() {
    assert!(is_digit_byte(b'0'));
    assert!(is_digit_byte(b'9'));
    assert!(!is_digit_byte(b'/'));
    assert!(!is_digit_byte(b':'));
    assert!(all_digits(b"0123456789"));
    assert!(all_digits(b""));
    assert!(!all_digits(b"12a4"));
}

#[test]
fn parse_number_reads_fixed_width_decimals() {
    assert_eq!(parse_number(b"000130857", 9), Some(130857));
    assert_eq!(parse_number(b"999999999", 9), Some(999_999_999));
    assert_eq!(parse_number(b"60", 2), Some(60));
    assert_eq!(parse_number(b"", 0), Some(0));
    assert_eq!(parse_number(b"9999999999999999999", 19), Some(9_999_999_999_999_999_999));
}

#[test]
fn parse_number_rejects_wrong_width() {
    assert_eq!(parse_number(b"00027", 9), None);
    assert_eq!(parse_number(b"0000000001", 9), None);
    assert_eq!(parse_number(b"", 2), None);
}

#[test]
fn parse_number_rejects_non_digits() {
    assert_eq!(parse_number(b"00013085X", 9), None);
    assert_eq!(parse_number(b"-00130857", 9), None);
    assert_eq!(parse_number(b"+6", 2), None);
    assert_eq!(parse_number(b" 6", 2), None);
}

#[test]
fn control_characters_are_recognized() {
    assert!(is_control_byte(0x00));
    assert!(is_control_byte(0x09));
    assert!(is_control_byte(0x1F));
    assert!(is_control_byte(0x7F));
    assert!(!is_control_byte(0x20));
    assert!(!is_control_byte(b'A'));
    assert!(!is_control_byte(0x80));
}

#[test]
fn trim_removes_control_characters_at_both_ends_only() {
    assert_eq!(trim(b"HPJB"), b"HPJB");
    assert_eq!(trim(b"\x09HPJB\x00\x7F"), b"HPJB");
    assert_eq!(trim(b"\x01H\x02P\x03"), b"H\x02P");
    assert_eq!(trim(b"\x01\x02"), b"");
    assert_eq!(trim(b""), b"");
    assert_eq!(trim(b" A "), b" A ");
}

#[test]
fn parse_text_needs_something_left() {
    assert_eq!(parse_text(b"----"), Some(b"----".to_vec()));
    assert_eq!(parse_text(b"\x00A\x00"), Some(b"A".to_vec()));
    assert_eq!(parse_text(b"\x00\x1F"), None);
    assert_eq!(parse_text(b""), None);
}

#[test]
fn labels_are_spelled_as_on_the_wire() {
    assert_eq!(Label::Adco.name_bytes(), b"ADCO");
    assert_eq!(Label::Optarif.name_bytes(), b"OPTARIF");
    assert_eq!(Label::Isousc.name_bytes(), b"ISOUSC");
    assert_eq!(Label::Hchc.name_bytes(), b"HCHC");
    assert_eq!(Label::Hchp.name_bytes(), b"HCHP");
    assert_eq!(Label::Bbrhcjb.name_bytes(), b"BBRHCJB");
    assert_eq!(Label::Bbrhpjb.name_bytes(), b"BBRHPJB");
    assert_eq!(Label::Bbrhcjw.name_bytes(), b"BBRHCJW");
    assert_eq!(Label::Bbrhpjw.name_bytes(), b"BBRHPJW");
    assert_eq!(Label::Bbrhcjr.name_bytes(), b"BBRHCJR");
    assert_eq!(Label::Bbrhpjr.name_bytes(), b"BBRHPJR");
    assert_eq!(Label::Ptec.name_bytes(), b"PTEC");
    assert_eq!(Label::Demain.name_bytes(), b"DEMAIN");
    assert_eq!(Label::Iinst.name_bytes(), b"IINST");
    assert_eq!(Label::Imax.name_bytes(), b"IMAX");
    assert_eq!(Label::Papp.name_bytes(), b"PAPP");
    assert_eq!(Label::Hhphc.name_bytes(), b"HHPHC");
    assert_eq!(Label::Motdetat.name_bytes(), b"MOTDETAT");
}

#[test]
fn labels_have_their_documented_formats() {
    assert_eq!(Label::Adco.format(), Format::Digits { width: 12 });
    assert_eq!(Label::Isousc.format(), Format::Digits { width: 2 });
    assert_eq!(Label::Hchc.format(), Format::Digits { width: 9 });
    assert_eq!(Label::Hchp.format(), Format::Digits { width: 9 });
    assert_eq!(Label::Bbrhcjb.format(), Format::Digits { width: 9 });
    assert_eq!(Label::Bbrhpjr.format(), Format::Digits { width: 9 });
    assert_eq!(Label::Iinst.format(), Format::Digits { width: 3 });
    assert_eq!(Label::Imax.format(), Format::Digits { width: 3 });
    assert_eq!(Label::Papp.format(), Format::Digits { width: 5 });
    assert_eq!(Label::Optarif.format(), Format::Text);
    assert_eq!(Label::Ptec.format(), Format::Text);
    assert_eq!(Label::Demain.format(), Format::Text);
    assert_eq!(Label::Hhphc.format(), Format::Text);
    assert_eq!(Label::Motdetat.format(), Format::Text);
}

#[test]
fn labels_accept_only_well_formed_values() {
    assert!(Label::Adco.accepts_bytes(b"012345678901"));
    assert!(!Label::Adco.accepts_bytes(b"01234567890"));
    assert!(!Label::Adco.accepts_bytes(b"01234567890A"));
    assert!(Label::Papp.accepts_bytes(b"00770"));
    assert!(!Label::Papp.accepts_bytes(b"0770"));
    assert!(Label::Ptec.accepts_bytes(b"HPJB"));
    assert!(Label::Ptec.accepts_bytes(b"H"));
    assert!(!Label::Ptec.accepts_bytes(b"\x01"));
    assert!(!Label::Ptec.accepts_bytes(b""));
}

#[test]
fn tokens_hold_no_separator() {
    assert!(is_token_bytes(b"ADCO"));
    assert!(is_token_bytes(b"BBR("));
    assert!(!is_token_bytes(b""));
    assert!(!is_token_bytes(b"AD CO"));
    assert!(!is_token_bytes(b"ADCO\r"));
    assert!(!is_token_bytes(b"\nADCO"));
}

#[test]
fn group_new_classifies_the_checksum() {
    let good = Group::new(b"HHPHC".to_vec(), b"A".to_vec(), b',');
    assert_eq!(
        good,
        Group { label: b"HHPHC".to_vec(), value: b"A".to_vec(), checksum: b',', valid: true }
    );
    let bad = Group::new(b"HHPHC".to_vec(), b"A".to_vec(), b'X');
    assert_eq!(
        bad,
        Group { label: b"HHPHC".to_vec(), value: b"A".to_vec(), checksum: b'X', valid: false }
    );
}

#[test]
fn parse_line_reads_a_spaced_group() {
    assert_eq!(
        parse_line(b"MOTDETAT 000000 B\r"),
        Some(Group {
            label: b"MOTDETAT".to_vec(),
            value: b"000000".to_vec(),
            checksum: b'B',
            valid: true,
        })
    );
}

#[test]
fn parse_line_reads_a_group_without_space_before_the_checksum() {
    assert_eq!(
        parse_line(b"MOTDETAT 000000B\r"),
        Some(Group {
            label: b"MOTDETAT".to_vec(),
            value: b"000000".to_vec(),
            checksum: b'B',
            valid: true,
        })
    );
}

#[test]
fn parse_line_marks_a_mismatched_checksum() {
    assert_eq!(
        parse_line(b"ADCO 012345678901 X\r"),
        Some(Group {
            label: b"ADCO".to_vec(),
            value: b"012345678901".to_vec(),
            checksum: b'X',
            valid: false,
        })
    );
}

#[test]
fn parse_line_takes_a_space_as_checksum_byte() {
    // With the separator, the checksum byte itself is a space.
    assert_eq!(
        parse_line(b"L V  \r"),
        Some(Group { label: b"L".to_vec(), value: b"V".to_vec(), checksum: b' ', valid: false })
    );
    // Without the separator.
    assert_eq!(
        parse_line(b"L VW \r"),
        Some(Group { label: b"L".to_vec(), value: b"VW".to_vec(), checksum: b' ', valid: false })
    );
}

#[test]
fn parse_line_rejects_malformed_lines() {
    assert_eq!(parse_line(b""), None);
    assert_eq!(parse_line(b"\r"), None);
    // No carriage return at the end.
    assert_eq!(parse_line(b"ADCO 012345678901 E"), None);
    // No space at all.
    assert_eq!(parse_line(b"ADCO012345678901E\r"), None);
    // Empty label.
    assert_eq!(parse_line(b" 012345678901 E\r"), None);
    // Empty value.
    assert_eq!(parse_line(b"ADCO  E\r"), None);
    assert_eq!(parse_line(b"ADCO E\r"), None);
    // A space inside the value.
    assert_eq!(parse_line(b"ADCO 0123 5678901 E\r"), None);
    // A carriage return inside the line.
    assert_eq!(parse_line(b"ADCO 0123\r5678901 E\r"), None);
    assert_eq!(parse_line(b"AD\rCO 012345678901 E\r"), None);
}

#[test]
fn parse_frame_of_empty_payload_gives_nothing() {
    let parsed = parse_frame(b"");
    assert!(parsed.groups.is_empty());
    assert!(parsed.diagnostics.is_empty());
}

#[test]
fn parse_frame_reads_each_line() {
    let parsed = parse_frame(b"\nHHPHC A ,\r\nMOTDETAT 000000 B\r");
    assert_eq!(
        parsed.groups,
        vec![
            Group { label: b"HHPHC".to_vec(), value: b"A".to_vec(), checksum: b',', valid: true },
            Group {
                label: b"MOTDETAT".to_vec(),
                value: b"000000".to_vec(),
                checksum: b'B',
                valid: true,
            },
        ]
    );
    assert!(parsed.diagnostics.is_empty());
}

#[test]
fn parse_frame_skips_malformed_lines_and_goes_on() {
    let parsed = parse_frame(b"\nHHPHC A ,\r\ngarbage\r\n\nMOTDETAT 000000 X\r\nPAPP 00770 /\r");
    assert_eq!(
        parsed.groups,
        vec![
            Group { label: b"HHPHC".to_vec(), value: b"A".to_vec(), checksum: b',', valid: true },
            Group {
                label: b"MOTDETAT".to_vec(),
                value: b"000000".to_vec(),
                checksum: b'X',
                valid: false,
            },
            Group { label: b"PAPP".to_vec(), value: b"00770".to_vec(), checksum: b'/', valid: true },
        ]
    );
    assert_eq!(
        parsed.diagnostics,
        vec![
            Diagnostic::GroupSyntax { line: 2 },
            Diagnostic::GroupSyntax { line: 3 },
            Diagnostic::ChecksumMismatch { line: 4 },
        ]
    );
}

#[test]
fn parse_frame_reports_bytes_before_the_first_line_feed() {
    let parsed = parse_frame(b"HHPHC A ,\r\nPAPP 00770 /\r");
    assert_eq!(
        parsed.groups,
        vec![Group {
            label: b"PAPP".to_vec(),
            value: b"00770".to_vec(),
            checksum: b'/',
            valid: true
        }]
    );
    assert_eq!(parsed.diagnostics, vec![Diagnostic::GroupSyntax { line: 0 }]);
}

#[test]
fn parse_frame_reports_a_line_feed_that_nothing_follows() {
    let parsed = parse_frame(b"\nPAPP 00770 /\r\n");
    assert_eq!(parsed.groups.len(), 1);
    assert_eq!(parsed.diagnostics, vec![Diagnostic::GroupSyntax { line: 2 }]);
}
