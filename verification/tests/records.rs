use teleinfo_reader::checksum::checksum;
use teleinfo_reader::diagnostic::Diagnostic;
use teleinfo_reader::group::Group;
use teleinfo_reader::label::Label;
use teleinfo_reader::builder::{build_record, detect_variant, find, offending_labels};
use teleinfo_reader::models::{NewRecord, Record, Tariff, Variant};

fn group(label: &str, value: &str) -> Group {
    Group::new(label.as_bytes().to_vec(), value.as_bytes().to_vec(), checksum(label.as_bytes(), value.as_bytes()))
}

fn bad_checksum(label: &str, value: &str) -> Group {
    let c = checksum(label.as_bytes(), value.as_bytes());
    Group::new(label.as_bytes().to_vec(), value.as_bytes().to_vec(), if c == b'X' { b'Y' } else { b'X' })
}

fn base_groups() -> Vec<Group> {
    vec![
        group("ADCO", "012345678901"),
        group("HCHC", "000130857"),
        group("HCHP", "000272039"),
        group("PTEC", "HPJB"),
    ]
}

fn tempo_groups() -> Vec<Group> {
    vec![
        group("ADCO", "012345678901"),
        group("OPTARIF", "BBR("),
        group("ISOUSC", "60"),
        group("BBRHCJB", "000130857"),
        group("BBRHPJB", "000272039"),
        group("BBRHCJW", "000000001"),
        group("BBRHPJW", "000000002"),
        group("BBRHCJR", "000000003"),
        group("BBRHPJR", "000000004"),
        group("PTEC", "HPJB"),
        group("DEMAIN", "----"),
        group("IINST", "003"),
        group("IMAX", "090"),
        group("PAPP", "00770"),
        group("HHPHC", "A"),
        group("MOTDETAT", "000000"),
    ]
}

fn base_reading() -> NewRecord {
    NewRecord {
        adco: b"012345678901".to_vec(),
        optarif: None,
        isousc: None,
        tariff: Tariff::Base { hchc: 130857, hchp: 272039 },
        ptec: b"HPJB".to_vec(),
        iinst: None,
        imax: None,
        papp: None,
        hhphc: None,
        motdetat: None,
    }
}

fn tempo_reading() -> NewRecord {
    NewRecord {
        adco: b"012345678901".to_vec(),
        optarif: Some(b"BBR(".to_vec()),
        isousc: Some(60),
        tariff: Tariff::Tempo {
            hcjb: 130857,
            hpjb: 272039,
            hcjw: 1,
            hpjw: 2,
            hcjr: 3,
            hpjr: 4,
            demain: b"----".to_vec(),
        },
        ptec: b"HPJB".to_vec(),
        iinst: Some(3),
        imax: Some(90),
        papp: Some(770),
        hhphc: Some(b"A".to_vec()),
        motdetat: Some(b"000000".to_vec()),
    }
}

#[test]
fn mandatory_labels_of_each_variant() {
    assert_eq!(
        Variant::Base.mandatory_labels(),
        [Label::Adco, Label::Hchc, Label::Hchp, Label::Ptec]
    );
    assert_eq!(
        Variant::Tempo.mandatory_labels(),
        [
            Label::Adco,
            Label::Optarif,
            Label::Isousc,
            Label::Bbrhcjb,
            Label::Bbrhpjb,
            Label::Bbrhcjw,
            Label::Bbrhpjw,
            Label::Bbrhcjr,
            Label::Bbrhpjr,
            Label::Ptec,
            Label::Demain,
            Label::Iinst,
            Label::Imax,
            Label::Papp,
            Label::Hhphc,
            Label::Motdetat,
        ]
    );
}

#[test]
fn tariff_knows_its_variant() {
    assert_eq!(base_reading().tariff.variant(), Variant::Base);
    assert_eq!(tempo_reading().tariff.variant(), Variant::Tempo);
}

#[test]
fn find_gives_the_first_group_with_the_label() {
    let groups = vec![group("PTEC", "HPJB"), group("IINST", "003"), group("PTEC", "HCJB")];
    assert_eq!(find(&groups, b"PTEC"), Some(&groups[0]));
    assert_eq!(find(&groups, b"IINST"), Some(&groups[1]));
    assert_eq!(find(&groups, b"IMAX"), None);
    assert_eq!(find(&[], b"PTEC"), None);
}

#[test]
fn variant_is_chosen_by_the_labels_present() {
    assert_eq!(detect_variant(&base_groups()), Some(Variant::Base));
    assert_eq!(detect_variant(&tempo_groups()), Some(Variant::Tempo));
    assert_eq!(detect_variant(&[]), None);
    assert_eq!(detect_variant(&base_groups()[..3]), None);
}

#[test]
fn tempo_is_tried_before_base() {
    let mut groups = tempo_groups();
    groups.push(group("HCHC", "000000010"));
    groups.push(group("HCHP", "000000020"));
    assert_eq!(detect_variant(&groups), Some(Variant::Tempo));
    assert_eq!(build_record(&groups, false), Ok(tempo_reading()));
}

#[test]
fn variant_goes_by_presence_even_of_malformed_values() {
    let mut groups = base_groups();
    groups[2] = group("HCHP", "00027");
    assert_eq!(detect_variant(&groups), Some(Variant::Base));
}

#[test]
fn base_groups_give_a_base_reading() {
    assert_eq!(build_record(&base_groups(), false), Ok(base_reading()));
    assert_eq!(build_record(&base_groups(), true), Ok(base_reading()));
}

#[test]
fn tempo_groups_give_a_tempo_reading() {
    assert_eq!(build_record(&tempo_groups(), false), Ok(tempo_reading()));
    assert_eq!(build_record(&tempo_groups(), true), Ok(tempo_reading()));
}

#[test]
fn order_of_groups_does_not_matter() {
    let mut groups = tempo_groups();
    groups.reverse();
    assert_eq!(build_record(&groups, false), Ok(tempo_reading()));
}

#[test]
fn no_groups_give_unknown_variant() {
    assert_eq!(build_record(&[], false), Err(Diagnostic::UnknownVariant));
    assert_eq!(build_record(&[], true), Err(Diagnostic::UnknownVariant));
}

#[test]
fn a_missing_mandatory_label_gives_unknown_variant() {
    for skip in 0..4 {
        let mut groups = base_groups();
        groups.remove(skip);
        assert_eq!(build_record(&groups, false), Err(Diagnostic::UnknownVariant));
    }
    for skip in 0..16 {
        let mut groups = tempo_groups();
        groups.remove(skip);
        assert_eq!(detect_variant(&groups), None);
        assert_eq!(build_record(&groups, false), Err(Diagnostic::UnknownVariant));
    }
}

#[test]
fn a_tempo_frame_short_of_a_group_is_base_if_it_holds_the_base_set() {
    let mut groups = tempo_groups();
    groups.remove(15);
    groups.push(group("HCHC", "000000010"));
    groups.push(group("HCHP", "000000020"));
    assert_eq!(detect_variant(&groups), Some(Variant::Base));
    let reading = build_record(&groups, false).unwrap();
    assert_eq!(reading.tariff, Tariff::Base { hchc: 10, hchp: 20 });
    assert_eq!(reading.papp, Some(770));
    assert_eq!(reading.motdetat, None);
}

#[test]
fn one_malformed_value_rejects_a_tempo_frame() {
    let replacements = [
        (1, "OPTARIF", "\x00", Label::Optarif),
        (2, "ISOUSC", "060", Label::Isousc),
        (3, "BBRHCJB", "00013085", Label::Bbrhcjb),
        (8, "BBRHPJR", "00000000x", Label::Bbrhpjr),
        (11, "IINST", "3", Label::Iinst),
        (12, "IMAX", "0090", Label::Imax),
        (13, "PAPP", "770", Label::Papp),
        (14, "HHPHC", "\x7F", Label::Hhphc),
        (15, "MOTDETAT", "\x01\x02", Label::Motdetat),
    ];
    for (i, label, value, named) in replacements {
        let mut groups = tempo_groups();
        groups[i] = group(label, value);
        assert_eq!(
            build_record(&groups, false),
            Err(Diagnostic::IncompleteFrame { labels: vec![named] })
        );
    }
}

#[test]
fn one_malformed_mandatory_value_rejects_the_frame() {
    let replacements = [
        (0, "ADCO", "01234567890"),
        (1, "HCHC", "00013085A"),
        (2, "HCHP", "00027"),
        (3, "PTEC", "\x01"),
    ];
    let labels = [Label::Adco, Label::Hchc, Label::Hchp, Label::Ptec];
    for (i, label, value) in replacements {
        let mut groups = base_groups();
        groups[i] = group(label, value);
        assert_eq!(
            build_record(&groups, false),
            Err(Diagnostic::IncompleteFrame { labels: vec![labels[i]] })
        );
    }
}

#[test]
fn every_offending_label_is_named_in_order() {
    let mut groups = tempo_groups();
    groups[10] = group("DEMAIN", "\x7F");
    groups[4] = group("BBRHPJB", "272039");
    groups[0] = group("ADCO", "ABCDEFGHIJKL");
    assert_eq!(
        offending_labels(&groups, Variant::Tempo, false),
        vec![Label::Adco, Label::Bbrhpjb, Label::Demain]
    );
    assert_eq!(
        build_record(&groups, false),
        Err(Diagnostic::IncompleteFrame {
            labels: vec![Label::Adco, Label::Bbrhpjb, Label::Demain]
        })
    );
}

#[test]
fn advisory_mode_uses_groups_with_mismatched_checksums() {
    let mut groups = base_groups();
    groups[1] = bad_checksum("HCHC", "000130857");
    assert_eq!(build_record(&groups, false), Ok(base_reading()));
}

#[test]
fn strict_mode_rejects_a_mandatory_group_with_mismatched_checksum() {
    let mut groups = base_groups();
    groups[1] = bad_checksum("HCHC", "000130857");
    assert_eq!(
        build_record(&groups, true),
        Err(Diagnostic::IncompleteFrame { labels: vec![Label::Hchc] })
    );
}

#[test]
fn strict_mode_rejects_a_tempo_frame_on_any_mismatched_checksum() {
    let mut groups = tempo_groups();
    groups[13] = bad_checksum("PAPP", "00770");
    assert_eq!(build_record(&groups, false), Ok(tempo_reading()));
    assert_eq!(
        build_record(&groups, true),
        Err(Diagnostic::IncompleteFrame { labels: vec![Label::Papp] })
    );
}

#[test]
fn a_base_reading_carries_the_other_fields_that_its_frame_gave() {
    let mut groups = base_groups();
    groups.push(group("OPTARIF", "HC.."));
    groups.push(group("ISOUSC", "45"));
    groups.push(group("IINST", "012"));
    groups.push(group("IMAX", "047"));
    groups.push(group("PAPP", "02800"));
    groups.push(group("HHPHC", "D"));
    groups.push(group("MOTDETAT", "000000"));
    let mut expected = base_reading();
    expected.optarif = Some(b"HC..".to_vec());
    expected.isousc = Some(45);
    expected.iinst = Some(12);
    expected.imax = Some(47);
    expected.papp = Some(2800);
    expected.hhphc = Some(b"D".to_vec());
    expected.motdetat = Some(b"000000".to_vec());
    assert_eq!(build_record(&groups, true), Ok(expected));
}

#[test]
fn strict_mode_leaves_out_an_optional_group_with_mismatched_checksum() {
    let mut groups = base_groups();
    groups.push(bad_checksum("PAPP", "00770"));
    let mut expected = base_reading();
    assert_eq!(build_record(&groups, true), Ok(expected.clone()));
    expected.papp = Some(770);
    assert_eq!(build_record(&groups, false), Ok(expected));
}

#[test]
fn a_malformed_optional_value_is_left_out() {
    let mut groups = base_groups();
    groups.push(group("ISOUSC", "060"));
    groups.push(group("IINST", "3"));
    groups.push(group("IMAX", "090"));
    groups.push(group("HHPHC", "\x00"));
    let mut expected = base_reading();
    expected.imax = Some(90);
    assert_eq!(build_record(&groups, false), Ok(expected));
}

#[test]
fn the_first_of_two_groups_with_one_label_decides() {
    let mut groups = base_groups();
    groups.push(group("HCHC", "000000001"));
    assert_eq!(build_record(&groups, false), Ok(base_reading()));
    groups.insert(0, group("HCHC", "000000002"));
    let mut expected = base_reading();
    expected.tariff = Tariff::Base { hchc: 2, hchp: 272039 };
    assert_eq!(build_record(&groups, false), Ok(expected));
    groups.insert(0, group("HCHC", "2"));
    assert_eq!(
        build_record(&groups, false),
        Err(Diagnostic::IncompleteFrame { labels: vec![Label::Hchc] })
    );
}

#[test]
fn unrecognized_labels_are_ignored() {
    let expected = build_record(&base_groups(), false);
    for at in 0..=4 {
        let mut groups = base_groups();
        groups.insert(at, group("GAZ", "000001234"));
        assert_eq!(build_record(&groups, false), expected);
    }
    assert_eq!(expected, Ok(base_reading()));
}

#[test]
fn text_fields_are_trimmed_of_control_characters() {
    let mut groups = base_groups();
    groups[3] = group("PTEC", "\x09HP\x01JB\x7F");
    let mut expected = base_reading();
    expected.ptec = b"HP\x01JB".to_vec();
    assert_eq!(build_record(&groups, false), Ok(expected));
}

#[test]
fn numeric_fields_take_their_largest_values() {
    let mut groups = tempo_groups();
    groups[2] = group("ISOUSC", "99");
    groups[3] = group("BBRHCJB", "999999999");
    groups[11] = group("IINST", "999");
    groups[12] = group("IMAX", "999");
    groups[13] = group("PAPP", "99999");
    let reading = build_record(&groups, false).unwrap();
    assert_eq!(reading.isousc, Some(99));
    assert_eq!(reading.iinst, Some(999));
    assert_eq!(reading.imax, Some(999));
    assert_eq!(reading.papp, Some(99999));
    assert_eq!(
        reading.tariff,
        Tariff::Tempo {
            hcjb: 999_999_999,
            hpjb: 272039,
            hcjw: 1,
            hpjw: 2,
            hcjr: 3,
            hpjr: 4,
            demain: b"----".to_vec(),
        }
    );
}

#[test]
fn from_bytes_decodes_a_payload() {
    let payload = b"\nADCO 012345678901 E\r\nHCHC 000130857 ^\r\nHCHP 000272039 *\r\nPTEC HPJB P\r";
    assert_eq!(NewRecord::from_bytes(payload, true), Ok(base_reading()));
    assert_eq!(NewRecord::from_bytes(b"", false), Err(Diagnostic::UnknownVariant));
    let truncated = b"\nADCO 012345678901 E\r\nHCHC 000130857 ^\r\nHCHP 00027 \\\r\nPTEC HPJB P\r";
    assert_eq!(
        NewRecord::from_bytes(truncated, false),
        Err(Diagnostic::IncompleteFrame { labels: vec![Label::Hchp] })
    );
}

#[test]
fn from_string_decodes_a_payload_with_advisory_checksums() {
    let payload = "\nADCO 012345678901 X\r\nHCHC 000130857 X\r\nHCHP 000272039 X\r\nPTEC HPJB X\r";
    assert_eq!(NewRecord::from_string(payload.to_string()), Some(base_reading()));
    assert_eq!(NewRecord::from_string(String::new()), None);
    assert_eq!(NewRecord::from_string("\nADCO 012345678901 X\r".to_string()), None);
}

#[test]
fn record_from_string_stamps_the_reading() {
    let payload = "\nADCO 012345678901 X\r\nHCHC 000130857 X\r\nHCHP 000272039 X\r\nPTEC HPJB X\r";
    assert_eq!(
        Record::from_string(payload.to_string(), 1_577_836_800),
        Some(Record { dt_utc: 1_577_836_800, reading: base_reading() })
    );
    assert_eq!(Record::from_string("junk".to_string(), 1), None);
    assert_eq!(
        Record::new(-5, tempo_reading()),
        Record { dt_utc: -5, reading: tempo_reading() }
    );
}
