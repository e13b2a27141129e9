use teleinfo_reader::checksum::checksum;
use teleinfo_reader::decoder::{decode_frame, Decoder, Event, Read, StreamError};
use teleinfo_reader::diagnostic::{Diagnostic, Framing};
use teleinfo_reader::frame::{Assembled, FrameAssembler};
use teleinfo_reader::generator::{digits_from_draws, generate_record, random_adco, PLACEHOLDER};
use teleinfo_reader::handoff::HandOff;
use teleinfo_reader::label::Label;
use teleinfo_reader::models::{NewRecord, Record, Tariff};

/// One group as it is written on the wire, with a valid checksum.
fn line(label: &str, value: &str) -> Vec<u8> {
    let mut out = vec![0x0A];
    out.extend_from_slice(label.as_bytes());
    out.push(0x20);
    out.extend_from_slice(value.as_bytes());
    out.push(0x20);
    out.push(checksum(label.as_bytes(), value.as_bytes()));
    out.push(0x0D);
    out
}

/// The payload of a frame that holds the given groups.
fn payload(groups: &[(&str, &str)]) -> Vec<u8> {
    let mut out = Vec::new();
    for (label, value) in groups {
        out.extend_from_slice(&line(label, value));
    }
    out
}

/// A frame that holds the given groups.
fn frame(groups: &[(&str, &str)]) -> Vec<u8> {
    let mut out = vec![0x02];
    out.extend_from_slice(&payload(groups));
    out.push(0x03);
    out
}

const BASE: [(&str, &str); 4] =
    [("ADCO", "012345678901"), ("HCHC", "000130857"), ("HCHP", "000272039"), ("PTEC", "HPJB")];

fn base_reading() -> NewRecord {
    NewRecord {
        adco: b"012345678901".to_vec(),
        optarif: None,
        isousc: None,
        tariff: Tariff::Base { hchc: 130857, hchp: 272039 },
        ptec: b"HPJB".to_vec(),
        iinst: None,
        imax: None,
        papp: None,
        hhphc: None,
        motdetat: None,
    }
}

fn record(dt_utc: i64, adco: &str) -> Record {
    let mut reading = base_reading();
    reading.adco = adco.as_bytes().to_vec();
    Record { dt_utc, reading }
}

#[test]
fn assembler_starts_idle() {
    let assembler = FrameAssembler::new();
    assert!(!assembler.in_frame());
}

#[test]
fn assembler_hands_out_the_payload_between_the_markers() {
    let mut assembler = FrameAssembler::new();
    assert_eq!(assembler.push(0x02), Assembled::Pending);
    assert!(assembler.in_frame());
    assert_eq!(assembler.push(b'a'), Assembled::Pending);
    assert_eq!(assembler.push(b'b'), Assembled::Pending);
    assert_eq!(assembler.push(0x03), Assembled::Frame(b"ab".to_vec()));
    assert!(!assembler.in_frame());
}

#[test]
fn assembler_passes_over_bytes_outside_a_frame() {
    let mut assembler = FrameAssembler::new();
    assert_eq!(assembler.push(b'x'), Assembled::Pending);
    assert_eq!(assembler.push(b'y'), Assembled::Pending);
    assert!(!assembler.in_frame());
    assert_eq!(assembler.push(0x02), Assembled::Pending);
    assert_eq!(assembler.push(0x03), Assembled::Frame(Vec::new()));
}

#[test]
fn assembler_reports_a_stray_end_marker_and_stays_idle() {
    let mut assembler = FrameAssembler::new();
    assert_eq!(assembler.push(0x03), Assembled::Fault(Framing::StrayEnd));
    assert!(!assembler.in_frame());
}

#[test]
fn assembler_restarts_on_a_second_start_marker() {
    let mut assembler = FrameAssembler::new();
    assert_eq!(assembler.push(0x02), Assembled::Pending);
    assert_eq!(assembler.push(b'a'), Assembled::Pending);
    assert_eq!(assembler.push(0x02), Assembled::Fault(Framing::Interrupted));
    assert!(assembler.in_frame());
    assert_eq!(assembler.push(b'b'), Assembled::Pending);
    assert_eq!(assembler.push(0x03), Assembled::Frame(b"b".to_vec()));
}

#[test]
fn assembler_reset_drops_the_open_frame() {
    let mut assembler = FrameAssembler::new();
    assembler.push(0x02);
    assembler.push(b'a');
    assembler.reset();
    assert!(!assembler.in_frame());
    assert_eq!(assembler.push(0x03), Assembled::Fault(Framing::StrayEnd));
    assert_eq!(assembler.push(0x02), Assembled::Pending);
    assert_eq!(assembler.push(0x03), Assembled::Frame(Vec::new()));
}

#[test]
fn decode_frame_gives_line_diagnostics_and_then_the_outcome() {
    let mut bytes = b"junk".to_vec();
    bytes.extend_from_slice(&payload(&BASE[..2]));
    bytes.extend_from_slice(b"\nIINST 003 X\r");
    bytes.extend_from_slice(&payload(&BASE[2..]));
    let mut expected = base_reading();
    expected.iinst = Some(3);
    assert_eq!(
        decode_frame(&bytes, false, 7),
        vec![
            Event::Diagnostic(Diagnostic::GroupSyntax { line: 0 }),
            Event::Diagnostic(Diagnostic::ChecksumMismatch { line: 3 }),
            Event::Record(Record { dt_utc: 7, reading: expected }),
        ]
    );
    assert_eq!(
        decode_frame(&bytes, true, 7),
        vec![
            Event::Diagnostic(Diagnostic::GroupSyntax { line: 0 }),
            Event::Diagnostic(Diagnostic::ChecksumMismatch { line: 3 }),
            Event::Record(Record { dt_utc: 7, reading: base_reading() }),
        ]
    );
}

#[test]
fn base_frame_gives_base_record() {
    let mut decoder = Decoder::new(false);
    let events = decoder.feed(&frame(&BASE), 1_600_000_000);
    assert_eq!(
        events,
        vec![Event::Record(Record { dt_utc: 1_600_000_000, reading: base_reading() })]
    );
    assert!(!decoder.in_frame());
}

#[test]
fn truncated_hchp_gives_no_record_and_one_incomplete_frame() {
    let groups =
        [("ADCO", "012345678901"), ("HCHC", "000130857"), ("HCHP", "00027"), ("PTEC", "HPJB")];
    let mut decoder = Decoder::new(false);
    let events = decoder.feed(&frame(&groups), 0);
    assert_eq!(
        events,
        vec![Event::Diagnostic(Diagnostic::IncompleteFrame { labels: vec![Label::Hchp] })]
    );
}

#[test]
fn groups_without_space_before_the_checksum_are_read() {
    let bytes = b"\x02\nADCO 012345678901E\r\nHCHC 000130857 ^\r\nHCHP 000272039*\r\nPTEC HPJBP\r\x03";
    let mut decoder = Decoder::new(true);
    assert_eq!(
        decoder.feed(bytes, 8),
        vec![Event::Record(Record { dt_utc: 8, reading: base_reading() })]
    );
}

#[test]
fn bytes_outside_a_frame_give_nothing() {
    let mut decoder = Decoder::new(false);
    assert!(decoder.feed(&payload(&BASE), 0).is_empty());
    assert!(!decoder.in_frame());
}

#[test]
fn zero_group_frame_gives_unknown_variant() {
    for strict in [false, true] {
        let mut decoder = Decoder::new(strict);
        assert_eq!(
            decoder.feed(&[0x02, 0x03], 0),
            vec![Event::Diagnostic(Diagnostic::UnknownVariant)]
        );
        assert!(!decoder.in_frame());
    }
}

#[test]
fn interrupted_frame_is_dropped_and_the_next_one_decoded() {
    let mut bytes = vec![0x02];
    bytes.extend_from_slice(&payload(
        &[("ADCO", "999999999999"), ("HCHC", "000000001"), ("HCHP", "000000002")],
    ));
    bytes.extend_from_slice(&frame(&BASE));
    let mut decoder = Decoder::new(true);
    assert_eq!(
        decoder.feed(&bytes, 42),
        vec![
            Event::Diagnostic(Diagnostic::Framing(Framing::Interrupted)),
            Event::Record(Record { dt_utc: 42, reading: base_reading() }),
        ]
    );
}

#[test]
fn stray_end_marker_is_reported_and_ignored() {
    let mut bytes = vec![0x03];
    bytes.extend_from_slice(&frame(&BASE));
    bytes.push(0x03);
    let mut decoder = Decoder::new(false);
    assert_eq!(
        decoder.feed(&bytes, 1),
        vec![
            Event::Diagnostic(Diagnostic::Framing(Framing::StrayEnd)),
            Event::Record(Record { dt_utc: 1, reading: base_reading() }),
            Event::Diagnostic(Diagnostic::Framing(Framing::StrayEnd)),
        ]
    );
}

#[test]
fn decoding_does_not_depend_on_the_chunking() {
    let mut stream = vec![b'?', 0x03, 0x02];
    stream.extend_from_slice(b"\nADCO 01234");
    stream.extend_from_slice(&frame(&BASE));
    stream.extend_from_slice(&[0x02, 0x03]);
    stream.extend_from_slice(&frame(
        &[("ADCO", "012345678901"), ("HCHC", "000130857"), ("HCHP", "00027"), ("PTEC", "HPJB")],
    ));
    stream.extend_from_slice(b"\x02\nPTEC HPJB X\r\nbroken\r\x03");
    stream.extend_from_slice(&[0x02, b'\n']);

    let mut whole = Decoder::new(false);
    let expected = whole.feed(&stream, 9);
    assert_eq!(
        expected,
        vec![
            Event::Diagnostic(Diagnostic::Framing(Framing::StrayEnd)),
            Event::Diagnostic(Diagnostic::Framing(Framing::Interrupted)),
            Event::Record(Record { dt_utc: 9, reading: base_reading() }),
            Event::Diagnostic(Diagnostic::UnknownVariant),
            Event::Diagnostic(Diagnostic::IncompleteFrame { labels: vec![Label::Hchp] }),
            Event::Diagnostic(Diagnostic::ChecksumMismatch { line: 1 }),
            Event::Diagnostic(Diagnostic::GroupSyntax { line: 2 }),
            Event::Diagnostic(Diagnostic::UnknownVariant),
        ]
    );
    assert!(whole.in_frame());

    for size in 1..=stream.len() {
        let mut decoder = Decoder::new(false);
        let mut events = Vec::new();
        for chunk in stream.chunks(size) {
            events.extend(decoder.feed(chunk, 9));
        }
        assert_eq!(events, expected);
        assert_eq!(decoder.in_frame(), whole.in_frame());
    }

    // Uneven reads, some of them empty.
    let mut decoder = Decoder::new(false);
    let mut events = Vec::new();
    let mut rest: &[u8] = &stream;
    let mut size = 0;
    while !rest.is_empty() {
        let n = size.min(rest.len());
        events.extend(decoder.feed(&rest[..n], 9));
        rest = &rest[n..];
        size = (size + 3) % 11;
    }
    assert_eq!(events, expected);
}

#[test]
fn strict_decoder_rejects_what_an_advisory_one_reads() {
    let bytes = b"\x02\nADCO 012345678901 E\r\nHCHC 000130857 ^\r\nHCHP 000272039 X\r\nPTEC HPJB P\r\x03";
    let mut advisory = Decoder::new(false);
    assert!(!advisory.is_strict());
    assert_eq!(
        advisory.feed(bytes, 3),
        vec![
            Event::Diagnostic(Diagnostic::ChecksumMismatch { line: 3 }),
            Event::Record(Record { dt_utc: 3, reading: base_reading() }),
        ]
    );
    let mut strict = Decoder::new(true);
    assert!(strict.is_strict());
    assert_eq!(
        strict.feed(bytes, 3),
        vec![
            Event::Diagnostic(Diagnostic::ChecksumMismatch { line: 3 }),
            Event::Diagnostic(Diagnostic::IncompleteFrame { labels: vec![Label::Hchp] }),
        ]
    );
}

#[test]
fn two_decoders_do_not_share_state() {
    let bytes = frame(&BASE);
    let (head, tail) = bytes.split_at(20);
    let mut one = Decoder::new(false);
    let mut two = Decoder::new(false);
    assert!(one.feed(head, 1).is_empty());
    assert_eq!(
        two.feed(tail, 2),
        vec![Event::Diagnostic(Diagnostic::Framing(Framing::StrayEnd))]
    );
    assert_eq!(one.feed(tail, 1), vec![Event::Record(Record { dt_utc: 1, reading: base_reading() })]);
}

#[test]
fn accept_decodes_data_waits_on_no_data_and_hands_failures_back() {
    let bytes = frame(&BASE);
    let (head, tail) = bytes.split_at(10);
    let mut decoder = Decoder::new(false);
    assert_eq!(decoder.accept::<String>(Read::Data(head), 5), Ok(Vec::new()));
    assert!(decoder.in_frame());
    assert_eq!(decoder.accept::<String>(Read::NoData, 5), Ok(Vec::new()));
    assert!(decoder.in_frame());
    assert_eq!(
        decoder.accept(Read::Failed(StreamError { cause: "broken pipe".to_string() }), 5),
        Err(StreamError { cause: "broken pipe".to_string() })
    );
    assert!(decoder.in_frame());
    assert_eq!(
        decoder.accept::<String>(Read::Data(tail), 6),
        Ok(vec![Event::Record(Record { dt_utc: 6, reading: base_reading() })])
    );
}

#[test]
fn reset_discards_a_partial_frame_without_diagnostic() {
    let bytes = frame(&BASE);
    let mut decoder = Decoder::new(true);
    assert!(decoder.feed(&bytes[..30], 0).is_empty());
    assert!(decoder.in_frame());
    decoder.reset();
    assert!(!decoder.in_frame());
    assert!(decoder.is_strict());
    assert!(decoder.feed(&bytes[30..bytes.len() - 1], 0).is_empty());
}

#[test]
fn generated_frame_is_written_as_documented() {
    let frame = generate_record(b"123456789012");
    let expected = "\x02\nADCO 123456789012 X\r\nOPTARIF BBR( X\r\nISOUSC 60 X\r\
        \nBBRHCJB 000130857 X\r\nBBRHPJB 000272039 X\r\nBBRHCJW 000000000 X\r\
        \nBBRHPJW 000000000 X\r\nBBRHCJR 000000000 X\r\nBBRHPJR 000000000 X\r\
        \nPTEC HPJB X\r\nDEMAIN ---- X\r\nIINST 003 X\r\nIMAX 090 X\r\nPAPP 00770 X\r\
        \nHHPHC A X\r\nMOTDETAT 000000 X\r\x03";
    assert_eq!(frame, expected.as_bytes());
    assert_eq!(PLACEHOLDER, b'X');
}

#[test]
fn generated_frame_decodes_with_advisory_checksums() {
    let frame = generate_record(b"123456789012");
    let mut decoder = Decoder::new(false);
    let events = decoder.feed(&frame, 11);
    let reading = NewRecord {
        adco: b"123456789012".to_vec(),
        optarif: Some(b"BBR(".to_vec()),
        isousc: Some(60),
        tariff: Tariff::Tempo {
            hcjb: 130857,
            hpjb: 272039,
            hcjw: 0,
            hpjw: 0,
            hcjr: 0,
            hpjr: 0,
            demain: b"----".to_vec(),
        },
        ptec: b"HPJB".to_vec(),
        iinst: Some(3),
        imax: Some(90),
        papp: Some(770),
        hhphc: Some(b"A".to_vec()),
        motdetat: Some(b"000000".to_vec()),
    };
    assert_eq!(events.last(), Some(&Event::Record(Record { dt_utc: 11, reading })));
    for event in &events[..events.len() - 1] {
        assert!(matches!(event, Event::Diagnostic(Diagnostic::ChecksumMismatch { .. })));
    }
}

#[test]
fn generated_frame_is_rejected_by_a_strict_decoder() {
    let frame = generate_record(b"123456789012");
    let mut decoder = Decoder::new(true);
    let events = decoder.feed(&frame, 11);
    match events.last() {
        Some(Event::Diagnostic(Diagnostic::IncompleteFrame { labels })) => {
            assert!(labels.contains(&Label::Adco));
            assert!(labels.contains(&Label::Demain));
        }
        other => panic!("unexpected outcome: {:?}", other),
    }
}

#[test]
fn handoff_keeps_records_in_order() {
    let mut handoff = HandOff::new(3);
    assert_eq!(handoff.len(), 0);
    assert_eq!(handoff.offer(record(1, "000000000001")), None);
    assert_eq!(handoff.offer(record(2, "000000000002")), None);
    assert_eq!(handoff.len(), 2);
    assert_eq!(handoff.take(), Some(record(1, "000000000001")));
    assert_eq!(handoff.take(), Some(record(2, "000000000002")));
    assert_eq!(handoff.take(), None);
    assert_eq!(handoff.len(), 0);
    assert_eq!(handoff.dropped(), 0);
}

#[test]
fn handoff_drops_the_oldest_when_full() {
    let mut handoff = HandOff::new(2);
    assert_eq!(handoff.offer(record(1, "000000000001")), None);
    assert_eq!(handoff.offer(record(2, "000000000002")), None);
    assert_eq!(handoff.offer(record(3, "000000000003")), Some(record(1, "000000000001")));
    assert_eq!(handoff.dropped(), 1);
    assert_eq!(handoff.offer(record(4, "000000000004")), Some(record(2, "000000000002")));
    assert_eq!(handoff.dropped(), 2);
    assert_eq!(handoff.len(), 2);
    assert_eq!(handoff.drain(), vec![record(3, "000000000003"), record(4, "000000000004")]);
    assert_eq!(handoff.len(), 0);
    assert_eq!(handoff.drain(), Vec::new());
}

#[test]
fn handoff_of_capacity_zero_holds_nothing() {
    let mut handoff = HandOff::new(0);
    assert_eq!(handoff.offer(record(1, "000000000001")), Some(record(1, "000000000001")));
    assert_eq!(handoff.len(), 0);
    assert_eq!(handoff.dropped(), 1);
    assert_eq!(handoff.take(), None);
    assert_eq!(handoff.drain(), Vec::new());
}

#[test]
fn digits_are_written_from_draws() {
    assert_eq!(digits_from_draws(&[0, 1, 2, 3, 4, 5, 6, 7, 8, 9]), b"0123456789");
    assert_eq!(digits_from_draws(&[10, 25, usize::MAX]), format!("05{}", usize::MAX % 10).as_bytes());
    assert_eq!(digits_from_draws(&[]), b"");
}

#[test]
fn random_adco_draws_more_than_one_digit() {
    let mut seen = [false; 10];
    for _ in 0..100 {
        for b in random_adco() {
            seen[(b - b'0') as usize] = true;
        }
    }
    assert!(seen.iter().filter(|s| **s).count() > 1);
}

#[test]
fn random_adco_is_twelve_digits_and_decodes() {
    for _ in 0..50 {
        let adco = random_adco();
        assert_eq!(adco.len(), 12);
        assert!(adco.iter().all(|b| b.is_ascii_digit()));
        let mut decoder = Decoder::new(false);
        let events = decoder.feed(&generate_record(&adco), 0);
        match events.last() {
            Some(Event::Record(record)) => assert_eq!(record.reading.adco, adco),
            other => panic!("unexpected outcome: {:?}", other),
        }
    }
}
