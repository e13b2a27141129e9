//! The label vocabulary of the wire format.
//!
//! Each label has a fixed spelling and a fixed format for its value: either a
//! run of decimal digits of a fixed width, or free text.

use vstd::prelude::*;
use crate::value::{all_digits, is_digits, text_of, trim};

verus! {

/// A label that the record builder recognizes.
#[derive(Clone, Copy, Debug, PartialEq, Eq, Structural)]
pub enum Label {
    /// `ADCO`: the meter's identifier.
    Adco,
    /// `OPTARIF`: the tariff option that was chosen.
    Optarif,
    /// `ISOUSC`: the subscribed current.
    Isousc,
    /// `HCHC`: the off-peak index of the base tariff.
    Hchc,
    /// `HCHP`: the peak index of the base tariff.
    Hchp,
    /// `BBRHCJB`: the off-peak index of blue days.
    Bbrhcjb,
    /// `BBRHPJB`: the peak index of blue days.
    Bbrhpjb,
    /// `BBRHCJW`: the off-peak index of white days.
    Bbrhcjw,
    /// `BBRHPJW`: the peak index of white days.
    Bbrhpjw,
    /// `BBRHCJR`: the off-peak index of red days.
    Bbrhcjr,
    /// `BBRHPJR`: the peak index of red days.
    Bbrhpjr,
    /// `PTEC`: the tariff period in force.
    Ptec,
    /// `DEMAIN`: the colour of the next day.
    Demain,
    /// `IINST`: the instantaneous current.
    Iinst,
    /// `IMAX`: the maximal current.
    Imax,
    /// `PAPP`: the apparent power.
    Papp,
    /// `HHPHC`: the hourly schedule.
    Hhphc,
    /// `MOTDETAT`: the meter's status word.
    Motdetat,
}

/// How the value of a label is written.
#[derive(Clone, Copy, Debug, PartialEq, Eq, Structural)]
pub enum Format {
    /// Exactly `width` decimal digits.
    Digits { width: usize },
    /// Free text.
    Text,
}

impl Label {
    /// The label as it is spelled on the wire.
    pub open spec fn name(self) -> Seq<u8> {
        match self {
            Label::Adco => seq!['A' as u8, 'D' as u8, 'C' as u8, 'O' as u8],
            Label::Optarif => seq!['O' as u8, 'P' as u8, 'T' as u8, 'A' as u8, 'R' as u8, 'I' as u8, 'F' as u8],
            Label::Isousc => seq!['I' as u8, 'S' as u8, 'O' as u8, 'U' as u8, 'S' as u8, 'C' as u8],
            Label::Hchc => seq!['H' as u8, 'C' as u8, 'H' as u8, 'C' as u8],
            Label::Hchp => seq!['H' as u8, 'C' as u8, 'H' as u8, 'P' as u8],
            Label::Bbrhcjb => seq!['B' as u8, 'B' as u8, 'R' as u8, 'H' as u8, 'C' as u8, 'J' as u8, 'B' as u8],
            Label::Bbrhpjb => seq!['B' as u8, 'B' as u8, 'R' as u8, 'H' as u8, 'P' as u8, 'J' as u8, 'B' as u8],
            Label::Bbrhcjw => seq!['B' as u8, 'B' as u8, 'R' as u8, 'H' as u8, 'C' as u8, 'J' as u8, 'W' as u8],
            Label::Bbrhpjw => seq!['B' as u8, 'B' as u8, 'R' as u8, 'H' as u8, 'P' as u8, 'J' as u8, 'W' as u8],
            Label::Bbrhcjr => seq!['B' as u8, 'B' as u8, 'R' as u8, 'H' as u8, 'C' as u8, 'J' as u8, 'R' as u8],
            Label::Bbrhpjr => seq!['B' as u8, 'B' as u8, 'R' as u8, 'H' as u8, 'P' as u8, 'J' as u8, 'R' as u8],
            Label::Ptec => seq!['P' as u8, 'T' as u8, 'E' as u8, 'C' as u8],
            Label::Demain => seq!['D' as u8, 'E' as u8, 'M' as u8, 'A' as u8, 'I' as u8, 'N' as u8],
            Label::Iinst => seq!['I' as u8, 'I' as u8, 'N' as u8, 'S' as u8, 'T' as u8],
            Label::Imax => seq!['I' as u8, 'M' as u8, 'A' as u8, 'X' as u8],
            Label::Papp => seq!['P' as u8, 'A' as u8, 'P' as u8, 'P' as u8],
            Label::Hhphc => seq!['H' as u8, 'H' as u8, 'P' as u8, 'H' as u8, 'C' as u8],
            Label::Motdetat => seq!['M' as u8, 'O' as u8, 'T' as u8, 'D' as u8, 'E' as u8, 'T' as u8, 'A' as u8, 'T' as u8],
        }
    }

    /// The format of the label's value.
    pub open spec fn spec_format(self) -> Format {
        match self {
            Label::Adco => Format::Digits { width: 12 },
            Label::Optarif => Format::Text,
            Label::Isousc => Format::Digits { width: 2 },
            Label::Hchc => Format::Digits { width: 9 },
            Label::Hchp => Format::Digits { width: 9 },
            Label::Bbrhcjb => Format::Digits { width: 9 },
            Label::Bbrhpjb => Format::Digits { width: 9 },
            Label::Bbrhcjw => Format::Digits { width: 9 },
            Label::Bbrhpjw => Format::Digits { width: 9 },
            Label::Bbrhcjr => Format::Digits { width: 9 },
            Label::Bbrhpjr => Format::Digits { width: 9 },
            Label::Ptec => Format::Text,
            Label::Demain => Format::Text,
            Label::Iinst => Format::Digits { width: 3 },
            Label::Imax => Format::Digits { width: 3 },
            Label::Papp => Format::Digits { width: 5 },
            Label::Hhphc => Format::Text,
            Label::Motdetat => Format::Text,
        }
    }

    /// Whether `value` is well-formed for this label: of the fixed width and
    /// all digits, or text that is not empty once trimmed.
    pub open spec fn accepts(self, value: Seq<u8>) -> bool {
        match self.spec_format() {
            Format::Digits { width } => value.len() == width && is_digits(value),
            Format::Text => text_of(value) is Some,
        }
    }

    /// The label as it is spelled on the wire.
    pub fn name_bytes(self) -> (r: &'static [u8])
        ensures
            r@ == self.name(),
    {
        match self {
            Label::Adco => {
                let r: &'static [u8] = &['A' as u8, 'D' as u8, 'C' as u8, 'O' as u8];
                assert(r@ =~= self.name());
                r
            },
            Label::Optarif => {
                let r: &'static [u8] = &['O' as u8, 'P' as u8, 'T' as u8, 'A' as u8, 'R' as u8, 'I' as u8, 'F' as u8];
                assert(r@ =~= self.name());
                r
            },
            Label::Isousc => {
                let r: &'static [u8] = &['I' as u8, 'S' as u8, 'O' as u8, 'U' as u8, 'S' as u8, 'C' as u8];
                assert(r@ =~= self.name());
                r
            },
            Label::Hchc => {
                let r: &'static [u8] = &['H' as u8, 'C' as u8, 'H' as u8, 'C' as u8];
                assert(r@ =~= self.name());
                r
            },
            Label::Hchp => {
                let r: &'static [u8] = &['H' as u8, 'C' as u8, 'H' as u8, 'P' as u8];
                assert(r@ =~= self.name());
                r
            },
            Label::Bbrhcjb => {
                let r: &'static [u8] = &['B' as u8, 'B' as u8, 'R' as u8, 'H' as u8, 'C' as u8, 'J' as u8, 'B' as u8];
                assert(r@ =~= self.name());
                r
            },
            Label::Bbrhpjb => {
                let r: &'static [u8] = &['B' as u8, 'B' as u8, 'R' as u8, 'H' as u8, 'P' as u8, 'J' as u8, 'B' as u8];
                assert(r@ =~= self.name());
                r
            },
            Label::Bbrhcjw => {
                let r: &'static [u8] = &['B' as u8, 'B' as u8, 'R' as u8, 'H' as u8, 'C' as u8, 'J' as u8, 'W' as u8];
                assert(r@ =~= self.name());
                r
            },
            Label::Bbrhpjw => {
                let r: &'static [u8] = &['B' as u8, 'B' as u8, 'R' as u8, 'H' as u8, 'P' as u8, 'J' as u8, 'W' as u8];
                assert(r@ =~= self.name());
                r
            },
            Label::Bbrhcjr => {
                let r: &'static [u8] = &['B' as u8, 'B' as u8, 'R' as u8, 'H' as u8, 'C' as u8, 'J' as u8, 'R' as u8];
                assert(r@ =~= self.name());
                r
            },
            Label::Bbrhpjr => {
                let r: &'static [u8] = &['B' as u8, 'B' as u8, 'R' as u8, 'H' as u8, 'P' as u8, 'J' as u8, 'R' as u8];
                assert(r@ =~= self.name());
                r
            },
            Label::Ptec => {
                let r: &'static [u8] = &['P' as u8, 'T' as u8, 'E' as u8, 'C' as u8];
                assert(r@ =~= self.name());
                r
            },
            Label::Demain => {
                let r: &'static [u8] = &['D' as u8, 'E' as u8, 'M' as u8, 'A' as u8, 'I' as u8, 'N' as u8];
                assert(r@ =~= self.name());
                r
            },
            Label::Iinst => {
                let r: &'static [u8] = &['I' as u8, 'I' as u8, 'N' as u8, 'S' as u8, 'T' as u8];
                assert(r@ =~= self.name());
                r
            },
            Label::Imax => {
                let r: &'static [u8] = &['I' as u8, 'M' as u8, 'A' as u8, 'X' as u8];
                assert(r@ =~= self.name());
                r
            },
            Label::Papp => {
                let r: &'static [u8] = &['P' as u8, 'A' as u8, 'P' as u8, 'P' as u8];
                assert(r@ =~= self.name());
                r
            },
            Label::Hhphc => {
                let r: &'static [u8] = &['H' as u8, 'H' as u8, 'P' as u8, 'H' as u8, 'C' as u8];
                assert(r@ =~= self.name());
                r
            },
            Label::Motdetat => {
                let r: &'static [u8] = &['M' as u8, 'O' as u8, 'T' as u8, 'D' as u8, 'E' as u8, 'T' as u8, 'A' as u8, 'T' as u8];
                assert(r@ =~= self.name());
                r
            },
        }
    }

    /// Whether `value` is well-formed for this label.
    pub fn accepts_bytes(self, value: &[u8]) -> (r: bool)
        ensures
            r == self.accepts(value@),
    {
        match self.format() {
            Format::Digits { width } => value.len() == width && all_digits(value),
            Format::Text => trim(value).len() > 0,
        }
    }

    /// The format of the label's value.
    #[verifier::when_used_as_spec(spec_format)]
    pub fn format(self) -> (r: Format)
        ensures
            r == self.spec_format(),
    {
        match self {
            Label::Adco => Format::Digits { width: 12 },
            Label::Optarif => Format::Text,
            Label::Isousc => Format::Digits { width: 2 },
            Label::Hchc => Format::Digits { width: 9 },
            Label::Hchp => Format::Digits { width: 9 },
            Label::Bbrhcjb => Format::Digits { width: 9 },
            Label::Bbrhpjb => Format::Digits { width: 9 },
            Label::Bbrhcjw => Format::Digits { width: 9 },
            Label::Bbrhpjw => Format::Digits { width: 9 },
            Label::Bbrhcjr => Format::Digits { width: 9 },
            Label::Bbrhpjr => Format::Digits { width: 9 },
            Label::Ptec => Format::Text,
            Label::Demain => Format::Text,
            Label::Iinst => Format::Digits { width: 3 },
            Label::Imax => Format::Digits { width: 3 },
            Label::Papp => Format::Digits { width: 5 },
            Label::Hhphc => Format::Text,
            Label::Motdetat => Format::Text,
        }
    }
}

/// What tells the spelling of one label from that of every other: its
/// length and the bytes at places 0, 1, 3, 4 and 6, where it has them.
spec fn fingerprint(name: Seq<u8>) -> (nat, u8, u8, u8, u8, u8) {
    (
        name.len(),
        name[0],
        name[1],
        name[3],
        if name.len() > 4 {
            name[4]
        } else {
            0
        },
        if name.len() > 6 {
            name[6]
        } else {
            0
        },
    )
}

/// No two labels are spelled alike.
pub proof fn lemma_names_differ(a: Label, b: Label)
    requires
        a != b,
    ensures
        a.name() != b.name(),
{
    assert(fingerprint(a.name()) != fingerprint(b.name()));
}

/// The spelling of a label is not empty and holds capital letters only.
pub proof fn lemma_name_is_capitals(l: Label)
    ensures
        l.name().len() > 0,
        forall|i: int| 0 <= i < l.name().len() ==> 'A' as u8 <= #[trigger] l.name()[i] <= 'Z' as u8,
{
}

} // verus!
