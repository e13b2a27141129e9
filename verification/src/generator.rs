//! A generator of sample frames, for trying the decoder without a meter.
//!
//! The frames it writes carry the same placeholder in place of every
//! checksum, so their checksums do not match as a rule. A decoder with
//! advisory checksums reads them; a strict one rejects them.

use vstd::prelude::*;
use crate::builder::{
    build_spec, holds_all, lemma_all_usable, lemma_lookup_finds, lookup, reading_of, tariff_of,
    usable_value,
};
use crate::decoder::{
    events_of, frame_events, lemma_frame_records, lemma_records_of_concat, lemma_whole_frame,
    lemma_written_is_marker_free, marker_free, records_of, start_events, state_after,
};
use crate::diagnostic::DiagnosticView;
use crate::frame::FrameState;
use crate::group::{is_token, lemma_parse_written, line_of, writable, write_groups, GroupView};
use crate::label::{lemma_name_is_capitals, lemma_names_differ, Format, Label};
use crate::models::{NewRecordView, RecordView, TariffView, Variant};
use crate::value::{decimal_value, is_digit, is_digits, text_of, trim_control};
use crate::wire::{CR, ETX, LF, SP, STX};

verus! {

/// The byte that the generator writes in place of each checksum.
pub const PLACEHOLDER: u8 = 0x58;

/// The labels of a sample frame, in the order in which they are written:
/// the full set of the Tempo variant.
pub open spec fn sample_labels() -> Seq<Label> {
    Variant::Tempo.mandatory()
}

/// The value that a sample frame gives to `label`, for a meter with the
/// identifier `adco`.
pub open spec fn sample_value(adco: Seq<u8>, label: Label) -> Seq<u8> {
    match label {
        Label::Adco => adco,
        Label::Optarif => seq!['B' as u8, 'B' as u8, 'R' as u8, '(' as u8],
        Label::Isousc => seq!['6' as u8, '0' as u8],
        Label::Bbrhcjb => seq!['0' as u8, '0' as u8, '0' as u8, '1' as u8, '3' as u8, '0' as u8, '8' as u8, '5' as u8, '7' as u8],
        Label::Bbrhpjb => seq!['0' as u8, '0' as u8, '0' as u8, '2' as u8, '7' as u8, '2' as u8, '0' as u8, '3' as u8, '9' as u8],
        Label::Bbrhcjw => seq!['0' as u8, '0' as u8, '0' as u8, '0' as u8, '0' as u8, '0' as u8, '0' as u8, '0' as u8, '0' as u8],
        Label::Bbrhpjw => seq!['0' as u8, '0' as u8, '0' as u8, '0' as u8, '0' as u8, '0' as u8, '0' as u8, '0' as u8, '0' as u8],
        Label::Bbrhcjr => seq!['0' as u8, '0' as u8, '0' as u8, '0' as u8, '0' as u8, '0' as u8, '0' as u8, '0' as u8, '0' as u8],
        Label::Bbrhpjr => seq!['0' as u8, '0' as u8, '0' as u8, '0' as u8, '0' as u8, '0' as u8, '0' as u8, '0' as u8, '0' as u8],
        Label::Ptec => seq!['H' as u8, 'P' as u8, 'J' as u8, 'B' as u8],
        Label::Demain => seq!['-' as u8, '-' as u8, '-' as u8, '-' as u8],
        Label::Iinst => seq!['0' as u8, '0' as u8, '3' as u8],
        Label::Imax => seq!['0' as u8, '9' as u8, '0' as u8],
        Label::Papp => seq!['0' as u8, '0' as u8, '7' as u8, '7' as u8, '0' as u8],
        Label::Hhphc => seq!['A' as u8],
        Label::Motdetat => seq!['0' as u8, '0' as u8, '0' as u8, '0' as u8, '0' as u8, '0' as u8],
        _ => Seq::empty(),
    }
}

/// The groups of a sample frame: one for each of [`sample_labels`], with
/// the placeholder for its checksum.
pub open spec fn sample_groups(adco: Seq<u8>) -> Seq<GroupView> {
    Seq::new(
        sample_labels().len(),
        |i: int|
            GroupView::checked(
                sample_labels()[i].name(),
                sample_value(adco, sample_labels()[i]),
                PLACEHOLDER,
            ),
    )
}

/// The sample frame for a meter with the identifier `adco`: a start marker,
/// the groups of [`sample_groups`] as [`write_groups`] writes them, and an
/// end marker.
pub open spec fn sample_frame(adco: Seq<u8>) -> Seq<u8> {
    seq![STX] + write_groups(sample_groups(adco)) + seq![ETX]
}

/// The value that a sample frame gives to `label`.
fn sample_value_bytes<'a>(adco: &'a [u8], label: Label) -> (r: &'a [u8])
    ensures
        r@ == sample_value(adco@, label),
{
    match label {
        Label::Adco => adco,
        Label::Optarif => {
            let r: &'static [u8] = &['B' as u8, 'B' as u8, 'R' as u8, '(' as u8];
            assert(r@ =~= sample_value(adco@, label));
            r
        },
        Label::Isousc => {
            let r: &'static [u8] = &['6' as u8, '0' as u8];
            assert(r@ =~= sample_value(adco@, label));
            r
        },
        Label::Bbrhcjb => {
            let r: &'static [u8] = &['0' as u8, '0' as u8, '0' as u8, '1' as u8, '3' as u8, '0' as u8, '8' as u8, '5' as u8, '7' as u8];
            assert(r@ =~= sample_value(adco@, label));
            r
        },
        Label::Bbrhpjb => {
            let r: &'static [u8] = &['0' as u8, '0' as u8, '0' as u8, '2' as u8, '7' as u8, '2' as u8, '0' as u8, '3' as u8, '9' as u8];
            assert(r@ =~= sample_value(adco@, label));
            r
        },
        Label::Bbrhcjw => {
            let r: &'static [u8] = &['0' as u8, '0' as u8, '0' as u8, '0' as u8, '0' as u8, '0' as u8, '0' as u8, '0' as u8, '0' as u8];
            assert(r@ =~= sample_value(adco@, label));
            r
        },
        Label::Bbrhpjw => {
            let r: &'static [u8] = &['0' as u8, '0' as u8, '0' as u8, '0' as u8, '0' as u8, '0' as u8, '0' as u8, '0' as u8, '0' as u8];
            assert(r@ =~= sample_value(adco@, label));
            r
        },
        Label::Bbrhcjr => {
            let r: &'static [u8] = &['0' as u8, '0' as u8, '0' as u8, '0' as u8, '0' as u8, '0' as u8, '0' as u8, '0' as u8, '0' as u8];
            assert(r@ =~= sample_value(adco@, label));
            r
        },
        Label::Bbrhpjr => {
            let r: &'static [u8] = &['0' as u8, '0' as u8, '0' as u8, '0' as u8, '0' as u8, '0' as u8, '0' as u8, '0' as u8, '0' as u8];
            assert(r@ =~= sample_value(adco@, label));
            r
        },
        Label::Ptec => {
            let r: &'static [u8] = &['H' as u8, 'P' as u8, 'J' as u8, 'B' as u8];
            assert(r@ =~= sample_value(adco@, label));
            r
        },
        Label::Demain => {
            let r: &'static [u8] = &['-' as u8, '-' as u8, '-' as u8, '-' as u8];
            assert(r@ =~= sample_value(adco@, label));
            r
        },
        Label::Iinst => {
            let r: &'static [u8] = &['0' as u8, '0' as u8, '3' as u8];
            assert(r@ =~= sample_value(adco@, label));
            r
        },
        Label::Imax => {
            let r: &'static [u8] = &['0' as u8, '9' as u8, '0' as u8];
            assert(r@ =~= sample_value(adco@, label));
            r
        },
        Label::Papp => {
            let r: &'static [u8] = &['0' as u8, '0' as u8, '7' as u8, '7' as u8, '0' as u8];
            assert(r@ =~= sample_value(adco@, label));
            r
        },
        Label::Hhphc => {
            let r: &'static [u8] = &['A' as u8];
            assert(r@ =~= sample_value(adco@, label));
            r
        },
        Label::Motdetat => {
            let r: &'static [u8] = &['0' as u8, '0' as u8, '0' as u8, '0' as u8, '0' as u8, '0' as u8];
            assert(r@ =~= sample_value(adco@, label));
            r
        },
        _ => {
            let r: &'static [u8] = &[];
            assert(r@ =~= sample_value(adco@, label));
            r
        },
    }
}

/// Draws a number below `bound` from the generator of the current thread,
/// with `rand::thread_rng` and `rand::Rng::gen_range` on the range from zero
/// to `bound`, which the crate documents as exclusive of `bound`. The crate
/// panics on an empty range, which `bound > 0` rules out.
///
/// The contract states the range and nothing else: which number comes is
/// left to chance.
#[verifier::external_body]
fn random_below(bound: usize) -> (r: usize)
    requires
        bound > 0,
    ensures
        r < bound,
{
    rand::Rng::gen_range(&mut rand::thread_rng(), 0, bound)
}

/// The digits that a sequence of draws writes: each draw writes its last
/// decimal digit.
pub open spec fn digits_of(draws: Seq<usize>) -> Seq<u8> {
    Seq::new(draws.len(), |i: int| ('0' as u8 + draws[i] % 10) as u8)
}

/// Writes one decimal digit for each draw.
pub fn digits_from_draws(draws: &[usize]) -> (digits: Vec<u8>)
    ensures
        digits@ == digits_of(draws@),
        is_digits(digits@),
{
    let mut digits: Vec<u8> = Vec::new();
    let mut i: usize = 0;
    while i < draws.len()
        invariant
            i <= draws.len(),
            digits@ == digits_of(draws@.take(i as int)),
            is_digits(digits@),
        decreases draws.len() - i,
    {
        let digit = (draws[i] % 10) as u8;
        digits.push('0' as u8 + digit);
        assert(digits@ =~= digits_of(draws@.take(i + 1)));
        i += 1;
    }
    assert(draws@.take(draws.len() as int) == draws@);
    digits
}

/// Makes up a meter's identifier: twelve decimal digits drawn at random.
pub fn random_adco() -> (adco: Vec<u8>)
    ensures
        adco@.len() == 12,
        is_digits(adco@),
{
    let mut draws: Vec<usize> = Vec::new();
    while draws.len() < 12
        invariant
            draws@.len() <= 12,
        decreases 12 - draws@.len(),
    {
        draws.push(random_below(10));
    }
    digits_from_draws(draws.as_slice())
}

/// Writes one group at the end of `out`.
fn write_group(out: &mut Vec<u8>, label: &[u8], value: &[u8], checksum: u8)
    ensures
        final(out)@ == old(out)@ + seq![LF] + line_of(label@, value@, true, checksum),
{
    let ghost before = out@;
    out.push(LF);
    out.extend_from_slice(label);
    out.push(SP);
    out.extend_from_slice(value);
    out.push(SP);
    out.push(checksum);
    out.push(CR);
    assert(out@ =~= before + seq![LF] + line_of(label@, value@, true, checksum));
}

/// Writes a sample frame for a meter with the identifier `adco`.
pub fn generate_record(adco: &[u8]) -> (frame: Vec<u8>)
    ensures
        frame@ == sample_frame(adco@),
{
    let labels = Variant::Tempo.mandatory_labels();
    let ghost groups = sample_groups(adco@);
    let mut frame: Vec<u8> = Vec::new();
    frame.push(STX);
    let mut i: usize = 0;
    assert(frame@ =~= seq![STX] + write_groups(groups.take(0)));
    while i < labels.len()
        invariant
            i <= labels.len(),
            labels@ == sample_labels(),
            groups == sample_groups(adco@),
            frame@ == seq![STX] + write_groups(groups.take(i as int)),
        decreases labels.len() - i,
    {
        let label = labels[i];
        let ghost before = write_groups(groups.take(i as int));
        assert(groups.take(i + 1).drop_last() == groups.take(i as int));
        assert(groups.take(i + 1).last() == groups[i as int]);
        write_group(&mut frame, label.name_bytes(), sample_value_bytes(adco, label), PLACEHOLDER);
        assert(frame@ =~= seq![STX] + (before + seq![LF] + line_of(
            label.name(),
            sample_value(adco@, label),
            true,
            PLACEHOLDER,
        )));
        i += 1;
    }
    assert(groups.take(labels.len() as int) == groups);
    frame.push(ETX);
    frame
}

/// The reading that the sample frame of a meter with the identifier `adco`
/// holds.
pub open spec fn sample_reading(adco: Seq<u8>) -> NewRecordView {
    NewRecordView {
        adco,
        optarif: Some(sample_value(adco, Label::Optarif)),
        isousc: Some(60),
        tariff: TariffView::Tempo {
            hcjb: 130857,
            hpjb: 272039,
            hcjw: 0,
            hpjw: 0,
            hcjr: 0,
            hpjr: 0,
            demain: sample_value(adco, Label::Demain),
        },
        ptec: sample_value(adco, Label::Ptec),
        iinst: Some(3),
        imax: Some(90),
        papp: Some(770),
        hhphc: Some(sample_value(adco, Label::Hhphc)),
        motdetat: Some(sample_value(adco, Label::Motdetat)),
    }
}

/// Whether `s` is not empty and holds printable characters other than the
/// space only.
spec fn plain(s: Seq<u8>) -> bool {
    s.len() > 0 && forall|i: int| 0 <= i < s.len() ==> 0x21 <= #[trigger] s[i] <= 0x7E
}

/// Plain text is a token, holds no marker, and is its own trimmed text.
proof fn lemma_plain(s: Seq<u8>)
    requires
        plain(s),
    ensures
        is_token(s),
        marker_free(s),
        text_of(s) == Some(s),
{
    assert(0x21 <= s[0] <= 0x7E);
    assert(0x21 <= s[s.len() - 1] <= 0x7E);
}

/// The labels and values of a sample frame are plain.
proof fn lemma_sample_is_plain(adco: Seq<u8>, k: int)
    requires
        adco.len() == 12,
        is_digits(adco),
        0 <= k < sample_labels().len(),
    ensures
        plain(sample_labels()[k].name()),
        plain(sample_value(adco, sample_labels()[k])),
{
    let label = sample_labels()[k];
    lemma_name_is_capitals(label);
    if label == Label::Adco {
        assert forall|i: int| 0 <= i < adco.len() implies 0x21 <= #[trigger] adco[i] <= 0x7E by {
            assert(is_digit(adco[i]));
        }
    }
}

/// The labels of a sample frame are pairwise distinct.
proof fn lemma_sample_labels_distinct(j: int, k: int)
    requires
        0 <= j < k < sample_labels().len(),
    ensures
        sample_labels()[j] != sample_labels()[k],
{
}

/// Each label of a sample frame is found in the group that was written for
/// it.
proof fn lemma_sample_lookup(adco: Seq<u8>, k: int)
    requires
        0 <= k < sample_labels().len(),
    ensures
        lookup(sample_groups(adco), sample_labels()[k].name()) == Some(sample_groups(adco)[k]),
{
    let groups = sample_groups(adco);
    assert forall|j: int| 0 <= j < k implies (#[trigger] groups[j]).label != groups[k].label by {
        lemma_sample_labels_distinct(j, k);
        lemma_names_differ(sample_labels()[j], sample_labels()[k]);
    }
    lemma_lookup_finds(groups, k);
}

/// The numbers that the digits of a sample frame write.
proof fn lemma_sample_numbers(adco: Seq<u8>)
    ensures
        decimal_value(sample_value(adco, Label::Isousc)) == 60,
        decimal_value(sample_value(adco, Label::Bbrhcjb)) == 130857,
        decimal_value(sample_value(adco, Label::Bbrhpjb)) == 272039,
        decimal_value(sample_value(adco, Label::Bbrhcjw)) == 0,
        decimal_value(sample_value(adco, Label::Bbrhpjw)) == 0,
        decimal_value(sample_value(adco, Label::Bbrhcjr)) == 0,
        decimal_value(sample_value(adco, Label::Bbrhpjr)) == 0,
        decimal_value(sample_value(adco, Label::Iinst)) == 3,
        decimal_value(sample_value(adco, Label::Imax)) == 90,
        decimal_value(sample_value(adco, Label::Papp)) == 770,
{
    reveal_with_fuel(decimal_value, 10);
}

/// Each value of a sample frame is well-formed for its label, so each label
/// has a usable value when checksums are advisory.
proof fn lemma_sample_usable(adco: Seq<u8>, k: int)
    requires
        adco.len() == 12,
        is_digits(adco),
        0 <= k < sample_labels().len(),
    ensures
        usable_value(sample_groups(adco), sample_labels()[k], false) == Some(
            sample_value(adco, sample_labels()[k]),
        ),
{
    let label = sample_labels()[k];
    let value = sample_value(adco, label);
    lemma_sample_lookup(adco, k);
    lemma_sample_is_plain(adco, k);
    lemma_plain(value);
    match label.spec_format() {
        Format::Digits { width } => {
            assert(value.len() == width);
            assert(is_digits(value));
        },
        Format::Text => {},
    }
}

/// The groups of a sample frame give the sample reading when checksums are
/// advisory.
proof fn lemma_sample_groups_build(adco: Seq<u8>)
    requires
        adco.len() == 12,
        is_digits(adco),
    ensures
        build_spec(sample_groups(adco), false) == Ok::<NewRecordView, DiagnosticView>(
            sample_reading(adco),
        ),
{
    let groups = sample_groups(adco);
    let labels = sample_labels();
    assert forall|k: int| 0 <= k < labels.len() implies usable_value(
        groups,
        #[trigger] labels[k],
        false,
    ) == Some(sample_value(adco, labels[k])) by {
        lemma_sample_usable(adco, k);
    }
    let tempo = Variant::Tempo;
    assert(holds_all(groups, tempo));
    lemma_all_usable(groups, tempo, false);
    lemma_sample_numbers(adco);
    lemma_plain_sample_texts(adco);
    assert(tariff_of(groups, tempo, false) == sample_reading(adco).tariff);
    assert(reading_of(groups, tempo, false) == sample_reading(adco));
}

/// The texts of a sample frame are read as they stand.
proof fn lemma_plain_sample_texts(adco: Seq<u8>)
    ensures
        trim_control(sample_value(adco, Label::Optarif)) == sample_value(adco, Label::Optarif),
        trim_control(sample_value(adco, Label::Ptec)) == sample_value(adco, Label::Ptec),
        trim_control(sample_value(adco, Label::Demain)) == sample_value(adco, Label::Demain),
        trim_control(sample_value(adco, Label::Hhphc)) == sample_value(adco, Label::Hhphc),
        trim_control(sample_value(adco, Label::Motdetat)) == sample_value(adco, Label::Motdetat),
{
}

/// The generator and the decoder agree: the sample frame of a meter whose
/// identifier is twelve digits, fed to a decoder with advisory checksums in
/// any state, gives exactly one reading, the sample reading, and leaves the
/// decoder idle.
pub proof fn lemma_sample_frame_decodes(adco: Seq<u8>, s: FrameState, dt_utc: i64)
    requires
        adco.len() == 12,
        is_digits(adco),
    ensures
        state_after(s, sample_frame(adco)) == FrameState::Idle,
        records_of(events_of(s, sample_frame(adco), false, dt_utc)) == seq![
            RecordView { dt_utc, reading: sample_reading(adco) },
        ],
{
    let groups = sample_groups(adco);
    let payload = write_groups(groups);
    assert forall|k: int| 0 <= k < groups.len() implies writable(#[trigger] groups[k])
        && marker_free(groups[k].label) && marker_free(groups[k].value) by {
        lemma_sample_is_plain(adco, k);
        lemma_plain(groups[k].label);
        lemma_plain(groups[k].value);
    }
    lemma_parse_written(groups);
    lemma_written_is_marker_free(groups);
    lemma_sample_groups_build(adco);
    lemma_whole_frame(s, payload, false, dt_utc);
    lemma_frame_records(payload, false, dt_utc);
    lemma_records_of_concat(start_events(s), frame_events(payload, false, dt_utc));
    assert(records_of(start_events(s)) =~= Seq::<RecordView>::empty()) by {
        reveal_with_fuel(records_of, 2);
    }
}

} // verus!
