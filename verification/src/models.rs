//! Readings: what a frame holds, as typed values.
//!
//! A reading comes in one of two variants, which differ in their index
//! counters. Every reading carries the meter's identifier and the tariff
//! period in force. The other fields are carried where the frame gave them.

use vstd::prelude::*;
use vstd::utf8::encode_utf8;
use crate::builder::{build_record, build_spec};
use crate::diagnostic::{Diagnostic, DiagnosticView};
use crate::group::{parse_frame, parse_frame_spec};
use crate::label::Label;
use crate::value::{is_digits, is_trimmed, pow10};

verus! {


/// The shape of a reading, chosen by the labels that a frame holds.
#[derive(Clone, Copy, Debug, PartialEq, Eq, Structural)]
pub enum Variant {
    /// Two index counters, off-peak and peak. The frame must hold the
    /// meter's identifier, the two counters and the tariff period.
    Base,
    /// Six index counters, off-peak and peak for each of three day colours,
    /// and the colour of the next day. The frame must hold the full set of
    /// sixteen groups that a meter on this tariff sends.
    Tempo,
}

impl Variant {
    /// The labels that a frame of this variant must hold, each with a usable
    /// value.
    pub open spec fn mandatory(self) -> Seq<Label> {
        match self {
            Variant::Base => seq![Label::Adco, Label::Hchc, Label::Hchp, Label::Ptec],
            Variant::Tempo => seq![
                Label::Adco,
                Label::Optarif,
                Label::Isousc,
                Label::Bbrhcjb,
                Label::Bbrhpjb,
                Label::Bbrhcjw,
                Label::Bbrhpjw,
                Label::Bbrhcjr,
                Label::Bbrhpjr,
                Label::Ptec,
                Label::Demain,
                Label::Iinst,
                Label::Imax,
                Label::Papp,
                Label::Hhphc,
                Label::Motdetat,
            ],
        }
    }

    /// The labels that a frame of this variant must hold.
    pub fn mandatory_labels(self) -> (r: &'static [Label])
        ensures
            r@ == self.mandatory(),
    {
        match self {
            Variant::Base => {
                let r: &'static [Label] = &[Label::Adco, Label::Hchc, Label::Hchp, Label::Ptec];
                assert(r@ =~= self.mandatory());
                r
            },
            Variant::Tempo => {
                let r: &'static [Label] = &[
                    Label::Adco,
                    Label::Optarif,
                    Label::Isousc,
                    Label::Bbrhcjb,
                    Label::Bbrhpjb,
                    Label::Bbrhcjw,
                    Label::Bbrhpjw,
                    Label::Bbrhcjr,
                    Label::Bbrhpjr,
                    Label::Ptec,
                    Label::Demain,
                    Label::Iinst,
                    Label::Imax,
                    Label::Papp,
                    Label::Hhphc,
                    Label::Motdetat,
                ];
                assert(r@ =~= self.mandatory());
                r
            },
        }
    }
}

/// The index counters of a reading, by variant.
#[derive(Clone, Debug, PartialEq, Eq)]
pub enum Tariff {
    Base { hchc: u64, hchp: u64 },
    Tempo { hcjb: u64, hpjb: u64, hcjw: u64, hpjw: u64, hcjr: u64, hpjr: u64, demain: Vec<u8> },
}

/// The mathematical model of a [`Tariff`].
pub enum TariffView {
    Base { hchc: nat, hchp: nat },
    Tempo { hcjb: nat, hpjb: nat, hcjw: nat, hpjw: nat, hcjr: nat, hpjr: nat, demain: Seq<u8> },
}

impl View for Tariff {
    type V = TariffView;

    open spec fn view(&self) -> TariffView {
        match self {
            Tariff::Base { hchc, hchp } => TariffView::Base {
                hchc: *hchc as nat,
                hchp: *hchp as nat,
            },
            Tariff::Tempo { hcjb, hpjb, hcjw, hpjw, hcjr, hpjr, demain } => TariffView::Tempo {
                hcjb: *hcjb as nat,
                hpjb: *hpjb as nat,
                hcjw: *hcjw as nat,
                hpjw: *hpjw as nat,
                hcjr: *hcjr as nat,
                hpjr: *hpjr as nat,
                demain: demain@,
            },
        }
    }
}

impl TariffView {
    /// The variant that these counters belong to.
    pub open spec fn variant(self) -> Variant {
        match self {
            TariffView::Base { .. } => Variant::Base,
            TariffView::Tempo { .. } => Variant::Tempo,
        }
    }
}

impl Tariff {
    /// The variant that these counters belong to.
    pub fn variant(&self) -> (v: Variant)
        ensures
            v == self@.variant(),
    {
        match self {
            Tariff::Base { .. } => Variant::Base,
            Tariff::Tempo { .. } => Variant::Tempo,
        }
    }
}

/// What one frame holds: a reading as the meter sent it, without the time at
/// which it was captured.
///
/// The fields that are options are mandatory in the Tempo variant only. A
/// reading of the Base variant carries those that its frame gave with a
/// well-formed value.
#[derive(Clone, Debug, PartialEq, Eq)]
pub struct NewRecord {
    /// The meter's identifier: twelve decimal digits.
    pub adco: Vec<u8>,
    /// The tariff option.
    pub optarif: Option<Vec<u8>>,
    /// The subscribed current, in amperes.
    pub isousc: Option<u8>,
    /// The index counters, in watt-hours.
    pub tariff: Tariff,
    /// The tariff period in force.
    pub ptec: Vec<u8>,
    /// The instantaneous current, in amperes.
    pub iinst: Option<u16>,
    /// The maximal current, in amperes.
    pub imax: Option<u16>,
    /// The apparent power, in volt-amperes.
    pub papp: Option<u32>,
    /// The hourly schedule.
    pub hhphc: Option<Vec<u8>>,
    /// The meter's status word.
    pub motdetat: Option<Vec<u8>>,
}

/// The mathematical model of a [`NewRecord`].
pub struct NewRecordView {
    pub adco: Seq<u8>,
    pub optarif: Option<Seq<u8>>,
    pub isousc: Option<nat>,
    pub tariff: TariffView,
    pub ptec: Seq<u8>,
    pub iinst: Option<nat>,
    pub imax: Option<nat>,
    pub papp: Option<nat>,
    pub hhphc: Option<Seq<u8>>,
    pub motdetat: Option<Seq<u8>>,
}

/// The model of an optional text.
pub open spec fn text_view(t: Option<Vec<u8>>) -> Option<Seq<u8>> {
    match t {
        Some(v) => Some(v@),
        None => None,
    }
}

impl TariffView {
    /// Whether each counter fits its nine digits and the text is trimmed.
    pub open spec fn wf(self) -> bool {
        match self {
            TariffView::Base { hchc, hchp } => hchc < pow10(9) && hchp < pow10(9),
            TariffView::Tempo { hcjb, hpjb, hcjw, hpjw, hcjr, hpjr, demain } => {
                &&& hcjb < pow10(9)
                &&& hpjb < pow10(9)
                &&& hcjw < pow10(9)
                &&& hpjw < pow10(9)
                &&& hcjr < pow10(9)
                &&& hpjr < pow10(9)
                &&& is_trimmed(demain)
            },
        }
    }
}

/// Whether an optional text, if there is one, is trimmed.
pub open spec fn trimmed_if_some(t: Option<Seq<u8>>) -> bool {
    t matches Some(s) ==> is_trimmed(s)
}

/// Whether an optional number, if there is one, is below `bound`.
pub open spec fn below_if_some(n: Option<nat>, bound: nat) -> bool {
    n matches Some(v) ==> v < bound
}

impl NewRecordView {
    /// Whether every field that a frame need not hold is there.
    pub open spec fn is_full(self) -> bool {
        &&& self.optarif is Some
        &&& self.isousc is Some
        &&& self.iinst is Some
        &&& self.imax is Some
        &&& self.papp is Some
        &&& self.hhphc is Some
        &&& self.motdetat is Some
    }

    /// What holds of every reading that the builder makes: the meter's
    /// identifier is twelve digits, each number fits the digit width of its
    /// label, each text is non-empty and trimmed, and a reading of the
    /// Tempo variant is full.
    pub open spec fn wf(self) -> bool {
        &&& self.tariff is Tempo ==> self.is_full()
        &&& self.adco.len() == 12
        &&& is_digits(self.adco)
        &&& trimmed_if_some(self.optarif)
        &&& below_if_some(self.isousc, pow10(2))
        &&& self.tariff.wf()
        &&& is_trimmed(self.ptec)
        &&& below_if_some(self.iinst, pow10(3))
        &&& below_if_some(self.imax, pow10(3))
        &&& below_if_some(self.papp, pow10(5))
        &&& trimmed_if_some(self.hhphc)
        &&& trimmed_if_some(self.motdetat)
    }
}

impl View for NewRecord {
    type V = NewRecordView;

    open spec fn view(&self) -> NewRecordView {
        NewRecordView {
            adco: self.adco@,
            optarif: text_view(self.optarif),
            isousc: match self.isousc {
                Some(n) => Some(n as nat),
                None => None,
            },
            tariff: self.tariff@,
            ptec: self.ptec@,
            iinst: match self.iinst {
                Some(n) => Some(n as nat),
                None => None,
            },
            imax: match self.imax {
                Some(n) => Some(n as nat),
                None => None,
            },
            papp: match self.papp {
                Some(n) => Some(n as nat),
                None => None,
            },
            hhphc: text_view(self.hhphc),
            motdetat: text_view(self.motdetat),
        }
    }
}

/// A reading together with the time at which it was captured.
///
/// The time is not on the wire: the caller supplies it.
#[derive(Clone, Debug, PartialEq, Eq)]
pub struct Record {
    /// The capture time, in seconds since the Unix epoch, UTC.
    pub dt_utc: i64,
    /// What the frame held.
    pub reading: NewRecord,
}

/// The mathematical model of a [`Record`].
pub struct RecordView {
    pub dt_utc: i64,
    pub reading: NewRecordView,
}

impl View for Record {
    type V = RecordView;

    open spec fn view(&self) -> RecordView {
        RecordView { dt_utc: self.dt_utc, reading: self.reading@ }
    }
}

/// What a frame's payload gives: the reading that its groups give, or the
/// reason for which the frame is rejected.
pub open spec fn reading_of_payload(payload: Seq<u8>, strict: bool) -> Result<
    NewRecordView,
    DiagnosticView,
> {
    build_spec(parse_frame_spec(payload).groups, strict)
}

impl NewRecord {
    /// Decodes the payload of one frame: what stood between the start marker
    /// and the end marker.
    ///
    /// Diagnostics on single lines are not handed out here; see
    /// [`crate::decoder::decode_frame`] for those.
    pub fn from_bytes(payload: &[u8], strict: bool) -> (r: Result<NewRecord, Diagnostic>)
        ensures
            match r {
                Ok(reading) => reading_of_payload(payload@, strict) == Ok::<
                    NewRecordView,
                    DiagnosticView,
                >(reading@),
                Err(d) => reading_of_payload(payload@, strict) == Err::<
                    NewRecordView,
                    DiagnosticView,
                >(d@),
            },
            r matches Ok(reading) ==> reading@.wf(),
    {
        let parsed = parse_frame(payload);
        build_record(parsed.groups.as_slice(), strict)
    }

    /// Decodes the payload of one frame, given as text, with advisory
    /// checksums.
    ///
    /// Returns the reading if the bytes of `string` give one, and `None` if
    /// the frame is rejected.
    pub fn from_string(string: String) -> (r: Option<NewRecord>)
        ensures
            match r {
                Some(reading) => reading_of_payload(encode_utf8(string@), false) == Ok::<
                    NewRecordView,
                    DiagnosticView,
                >(reading@),
                None => reading_of_payload(encode_utf8(string@), false) is Err,
            },
            r matches Some(reading) ==> reading@.wf(),
    {
        match NewRecord::from_bytes(string.as_str().as_bytes(), false) {
            Ok(reading) => Some(reading),
            Err(_) => None,
        }
    }
}

impl Record {
    /// Stamps a reading with the time at which it was captured.
    pub fn new(dt_utc: i64, reading: NewRecord) -> (r: Record)
        ensures
            r@ == (RecordView { dt_utc, reading: reading@ }),
    {
        Record { dt_utc, reading }
    }

    /// Decodes the payload of one frame, given as text, with advisory
    /// checksums, and stamps the reading with `dt_utc`.
    pub fn from_string(string: String, dt_utc: i64) -> (r: Option<Record>)
        ensures
            match r {
                Some(record) => reading_of_payload(encode_utf8(string@), false) == Ok::<
                    NewRecordView,
                    DiagnosticView,
                >(record@.reading) && record@.dt_utc == dt_utc,
                None => reading_of_payload(encode_utf8(string@), false) is Err,
            },
            r matches Some(record) ==> record@.reading.wf(),
    {
        match NewRecord::from_string(string) {
            Some(reading) => Some(Record::new(dt_utc, reading)),
            None => None,
        }
    }
}

} // verus!
