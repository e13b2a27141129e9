//! The record builder: from the groups of one frame to a reading.
//!
//! A frame gives a reading only if it holds every mandatory label of one
//! variant and each of them has a usable value. Anything less rejects the
//! whole frame: a reading with a malformed mandatory field is not a
//! trustworthy sample. Labels outside the vocabulary are passed over, so
//! that a meter which sends more than is known here can still be read.

use vstd::prelude::*;
use vstd::slice::slice_to_vec;
use crate::bytes::slice_eq;
use crate::diagnostic::{Diagnostic, DiagnosticView};
use crate::group::{group_views, Group, GroupView};
use crate::label::{Format, Label};
use crate::models::{
    below_if_some, text_view, trimmed_if_some, NewRecord, NewRecordView, Tariff, TariffView,
    Variant,
};
use crate::value::{
    decimal_value, lemma_decimal_value_bound, lemma_text_is_trimmed, parse_number, parse_text,
    pow10, trim_control,
};

verus! {

/// The first group of `groups` that carries the label `name`.
pub open spec fn lookup(groups: Seq<GroupView>, name: Seq<u8>) -> Option<GroupView>
    decreases groups.len(),
{
    if groups.len() == 0 {
        None
    } else if groups.first().label == name {
        Some(groups.first())
    } else {
        lookup(groups.drop_first(), name)
    }
}

/// Whether some group of `groups` carries `label`.
pub open spec fn carries(groups: Seq<GroupView>, label: Label) -> bool {
    lookup(groups, label.name()) is Some
}

/// Whether `groups` holds every mandatory label of `variant`.
pub open spec fn holds_all(groups: Seq<GroupView>, variant: Variant) -> bool {
    forall|i: int|
        0 <= i < variant.mandatory().len() ==> carries(groups, #[trigger] variant.mandatory()[i])
}

/// The variant that `groups` matches. The larger label set is tried first.
pub open spec fn variant_of(groups: Seq<GroupView>) -> Option<Variant> {
    if holds_all(groups, Variant::Tempo) {
        Some(Variant::Tempo)
    } else if holds_all(groups, Variant::Base) {
        Some(Variant::Base)
    } else {
        None
    }
}

/// The value that `groups` gives for `label`, if there is a usable one.
///
/// The first group that carries the label decides. Its value is usable if it
/// is well-formed for the label and, in strict mode, its checksum matched.
pub open spec fn usable_value(groups: Seq<GroupView>, label: Label, strict: bool) -> Option<
    Seq<u8>,
> {
    match lookup(groups, label.name()) {
        Some(g) => if label.accepts(g.value) && (g.valid || !strict) {
            Some(g.value)
        } else {
            None
        },
        None => None,
    }
}

/// The number that `groups` gives for a label with a digit format.
pub open spec fn number_field(groups: Seq<GroupView>, label: Label, strict: bool) -> Option<nat> {
    match usable_value(groups, label, strict) {
        Some(v) => Some(decimal_value(v)),
        None => None,
    }
}

/// The text that `groups` gives for a label: digits as they stand, free text
/// with its ends trimmed.
pub open spec fn text_field(groups: Seq<GroupView>, label: Label, strict: bool) -> Option<
    Seq<u8>,
> {
    match usable_value(groups, label, strict) {
        Some(v) => Some(
            match label.spec_format() {
                Format::Digits { .. } => v,
                Format::Text => trim_control(v),
            },
        ),
        None => None,
    }
}

/// The mandatory labels of `variant` for which `groups` gives no usable
/// value, in the order of [`Variant::mandatory`].
pub open spec fn offending(groups: Seq<GroupView>, variant: Variant, strict: bool) -> Seq<Label> {
    variant.mandatory().filter(|l: Label| usable_value(groups, l, strict) is None)
}

/// The index counters that `groups` gives for `variant`.
pub open spec fn tariff_of(groups: Seq<GroupView>, variant: Variant, strict: bool) -> TariffView {
    match variant {
        Variant::Base => TariffView::Base {
            hchc: number_field(groups, Label::Hchc, strict).unwrap(),
            hchp: number_field(groups, Label::Hchp, strict).unwrap(),
        },
        Variant::Tempo => TariffView::Tempo {
            hcjb: number_field(groups, Label::Bbrhcjb, strict).unwrap(),
            hpjb: number_field(groups, Label::Bbrhpjb, strict).unwrap(),
            hcjw: number_field(groups, Label::Bbrhcjw, strict).unwrap(),
            hpjw: number_field(groups, Label::Bbrhpjw, strict).unwrap(),
            hcjr: number_field(groups, Label::Bbrhcjr, strict).unwrap(),
            hpjr: number_field(groups, Label::Bbrhpjr, strict).unwrap(),
            demain: text_field(groups, Label::Demain, strict).unwrap(),
        },
    }
}

/// The reading that `groups` gives for `variant`, all mandatory fields being
/// usable. A field that is not mandatory is `None` unless the frame gives a
/// usable value for it.
pub open spec fn reading_of(groups: Seq<GroupView>, variant: Variant, strict: bool) -> NewRecordView {
    NewRecordView {
        adco: text_field(groups, Label::Adco, strict).unwrap(),
        optarif: text_field(groups, Label::Optarif, strict),
        isousc: number_field(groups, Label::Isousc, strict),
        tariff: tariff_of(groups, variant, strict),
        ptec: text_field(groups, Label::Ptec, strict).unwrap(),
        iinst: number_field(groups, Label::Iinst, strict),
        imax: number_field(groups, Label::Imax, strict),
        papp: number_field(groups, Label::Papp, strict),
        hhphc: text_field(groups, Label::Hhphc, strict),
        motdetat: text_field(groups, Label::Motdetat, strict),
    }
}

/// What the groups of one frame give: a reading, or the reason for which the
/// frame is rejected.
///
/// - If `groups` holds the full mandatory label set of no variant, the frame
///   is of unknown variant.
/// - Otherwise, if some mandatory label of the matched variant has no usable
///   value, the frame is incomplete, and the diagnostic names each such
///   label.
/// - Otherwise the frame gives a reading.
pub open spec fn build_spec(groups: Seq<GroupView>, strict: bool) -> Result<
    NewRecordView,
    DiagnosticView,
> {
    match variant_of(groups) {
        None => Err(DiagnosticView::UnknownVariant),
        Some(variant) => {
            let labels = offending(groups, variant, strict);
            if labels.len() > 0 {
                Err(DiagnosticView::IncompleteFrame { labels })
            } else {
                Ok(reading_of(groups, variant, strict))
            }
        },
    }
}

/// A number read from a field is below ten to the width of its label.
pub proof fn lemma_number_field_bound(
    groups: Seq<GroupView>,
    label: Label,
    width: usize,
    strict: bool,
)
    requires
        label.spec_format() == (Format::Digits { width }),
    ensures
        below_if_some(number_field(groups, label, strict), pow10(width as nat)),
{
    if let Some(v) = usable_value(groups, label, strict) {
        lemma_decimal_value_bound(v);
    }
}

/// A text read from a field with a text format is trimmed.
pub proof fn lemma_text_field_trimmed(groups: Seq<GroupView>, label: Label, strict: bool)
    requires
        label.spec_format() == Format::Text,
    ensures
        trimmed_if_some(text_field(groups, label, strict)),
{
    if let Some(v) = usable_value(groups, label, strict) {
        lemma_text_is_trimmed(v);
    }
}

/// Every reading that the builder makes is well-formed.
pub proof fn lemma_reading_is_well_formed(groups: Seq<GroupView>, strict: bool)
    ensures
        build_spec(groups, strict) matches Ok(reading) ==> reading.wf(),
{
    if let Ok(reading) = build_spec(groups, strict) {
        let variant = variant_of(groups).unwrap();
        assert forall|i: int| 0 <= i < variant.mandatory().len() implies usable_value(
            groups,
            #[trigger] variant.mandatory()[i],
            strict,
        ) is Some by {
            lemma_none_offending(groups, variant, strict, i);
        }
        lemma_text_field_trimmed(groups, Label::Optarif, strict);
        lemma_text_field_trimmed(groups, Label::Ptec, strict);
        lemma_text_field_trimmed(groups, Label::Demain, strict);
        lemma_text_field_trimmed(groups, Label::Hhphc, strict);
        lemma_text_field_trimmed(groups, Label::Motdetat, strict);
        lemma_number_field_bound(groups, Label::Isousc, 2, strict);
        lemma_number_field_bound(groups, Label::Iinst, 3, strict);
        lemma_number_field_bound(groups, Label::Imax, 3, strict);
        lemma_number_field_bound(groups, Label::Papp, 5, strict);
        lemma_number_field_bound(groups, Label::Hchc, 9, strict);
        lemma_number_field_bound(groups, Label::Hchp, 9, strict);
        lemma_number_field_bound(groups, Label::Bbrhcjb, 9, strict);
        lemma_number_field_bound(groups, Label::Bbrhpjb, 9, strict);
        lemma_number_field_bound(groups, Label::Bbrhcjw, 9, strict);
        lemma_number_field_bound(groups, Label::Bbrhpjw, 9, strict);
        lemma_number_field_bound(groups, Label::Bbrhcjr, 9, strict);
        lemma_number_field_bound(groups, Label::Bbrhpjr, 9, strict);
        assert(variant.mandatory()[0] == Label::Adco);
        match variant {
            Variant::Base => {
                assert(variant.mandatory()[1] == Label::Hchc);
                assert(variant.mandatory()[2] == Label::Hchp);
                assert(variant.mandatory()[3] == Label::Ptec);
            },
            Variant::Tempo => {
                assert(variant.mandatory()[1] == Label::Optarif);
                assert(variant.mandatory()[2] == Label::Isousc);
                assert(variant.mandatory()[3] == Label::Bbrhcjb);
                assert(variant.mandatory()[4] == Label::Bbrhpjb);
                assert(variant.mandatory()[5] == Label::Bbrhcjw);
                assert(variant.mandatory()[6] == Label::Bbrhpjw);
                assert(variant.mandatory()[7] == Label::Bbrhcjr);
                assert(variant.mandatory()[8] == Label::Bbrhpjr);
                assert(variant.mandatory()[9] == Label::Ptec);
                assert(variant.mandatory()[10] == Label::Demain);
                assert(variant.mandatory()[11] == Label::Iinst);
                assert(variant.mandatory()[12] == Label::Imax);
                assert(variant.mandatory()[13] == Label::Papp);
                assert(variant.mandatory()[14] == Label::Hhphc);
                assert(variant.mandatory()[15] == Label::Motdetat);
            },
        }
    }
}

/// What is found under a label is the first group that carries it, and
/// nothing is found only if no group carries it.
pub proof fn lemma_lookup_is_first(groups: Seq<GroupView>, name: Seq<u8>)
    ensures
        match lookup(groups, name) {
            Some(g) => exists|k: int|
                0 <= k < groups.len() && #[trigger] groups[k] == g && g.label == name
                    && forall|j: int| 0 <= j < k ==> (#[trigger] groups[j]).label != name,
            None => forall|k: int| 0 <= k < groups.len() ==> (#[trigger] groups[k]).label != name,
        },
    decreases groups.len(),
{
    if groups.len() > 0 {
        let rest = groups.drop_first();
        if groups.first().label == name {
            assert(groups[0] == groups.first());
        } else {
            lemma_lookup_is_first(rest, name);
            match lookup(rest, name) {
                Some(g) => {
                    let k = choose|k: int|
                        0 <= k < rest.len() && #[trigger] rest[k] == g && g.label == name
                            && forall|j: int| 0 <= j < k ==> (#[trigger] rest[j]).label != name;
                    assert(groups[k + 1] == g);
                    assert forall|j: int| 0 <= j < k + 1 implies (#[trigger] groups[j]).label
                        != name by {
                        if j > 0 {
                            assert(groups[j] == rest[j - 1]);
                        }
                    }
                },
                None => {
                    assert forall|k: int| 0 <= k < groups.len() implies (#[trigger] groups[k]).label
                        != name by {
                        if k > 0 {
                            assert(groups[k] == rest[k - 1]);
                        }
                    }
                },
            }
        }
    }
}

/// A group whose label none of the groups before it carries is the one
/// that is found under that label.
pub proof fn lemma_lookup_finds(groups: Seq<GroupView>, k: int)
    requires
        0 <= k < groups.len(),
        forall|j: int| 0 <= j < k ==> (#[trigger] groups[j]).label != groups[k].label,
    ensures
        lookup(groups, groups[k].label) == Some(groups[k]),
    decreases k,
{
    if k > 0 {
        let rest = groups.drop_first();
        assert(groups[0].label != groups[k].label);
        assert forall|j: int| 0 <= j < k - 1 implies (#[trigger] rest[j]).label != rest[k
            - 1].label by {
            assert(rest[j] == groups[j + 1]);
        }
        lemma_lookup_finds(rest, k - 1);
    }
}

/// Whether `name` is the spelling of no label of the vocabulary.
pub open spec fn unrecognized(name: Seq<u8>) -> bool {
    forall|l: Label| name != #[trigger] l.name()
}

/// A group does not change what is found under another name, wherever it is
/// put among the others.
pub proof fn lemma_lookup_skips(groups: Seq<GroupView>, i: int, g: GroupView, name: Seq<u8>)
    requires
        0 <= i <= groups.len(),
        g.label != name,
    ensures
        lookup(groups.insert(i, g), name) == lookup(groups, name),
    decreases groups.len(),
{
    let with = groups.insert(i, g);
    if i == 0 {
        assert(with.drop_first() =~= groups);
    } else {
        assert(with.first() == groups.first());
        assert(with.drop_first() =~= groups.drop_first().insert(i - 1, g));
        if groups.first().label != name {
            lemma_lookup_skips(groups.drop_first(), i - 1, g, name);
        }
    }
}

/// Whether two frames give the same group for every label of the
/// vocabulary.
pub open spec fn same_lookups(groups: Seq<GroupView>, other: Seq<GroupView>) -> bool {
    forall|l: Label| lookup(groups, #[trigger] l.name()) == lookup(other, l.name())
}

/// Frames that give the same group for a label give the same field for it.
pub proof fn lemma_same_field(
    groups: Seq<GroupView>,
    other: Seq<GroupView>,
    label: Label,
    strict: bool,
)
    requires
        same_lookups(groups, other),
    ensures
        carries(groups, label) == carries(other, label),
        usable_value(groups, label, strict) == usable_value(other, label, strict),
        number_field(groups, label, strict) == number_field(other, label, strict),
        text_field(groups, label, strict) == text_field(other, label, strict),
{
    assert(lookup(groups, label.name()) == lookup(other, label.name()));
}

/// Frames that give the same group for every label match the same variants.
pub proof fn lemma_same_variant(groups: Seq<GroupView>, other: Seq<GroupView>)
    requires
        same_lookups(groups, other),
    ensures
        variant_of(groups) == variant_of(other),
{
    assert forall|variant: Variant| holds_all(groups, variant) == holds_all(other, variant) by {
        assert forall|k: int| 0 <= k < variant.mandatory().len() implies (carries(
            groups,
            #[trigger] variant.mandatory()[k],
        ) == carries(other, variant.mandatory()[k])) by {
            lemma_same_field(groups, other, variant.mandatory()[k], false);
        }
    }
    assert(holds_all(groups, Variant::Tempo) == holds_all(other, Variant::Tempo));
    assert(holds_all(groups, Variant::Base) == holds_all(other, Variant::Base));
}

/// Frames that give the same group for every label give the same reading,
/// or are rejected for the same reason.
pub proof fn lemma_same_lookups_same_outcome(
    groups: Seq<GroupView>,
    other: Seq<GroupView>,
    strict: bool,
)
    requires
        same_lookups(groups, other),
    ensures
        build_spec(groups, strict) == build_spec(other, strict),
{
    lemma_same_variant(groups, other);
    let before = |l: Label| usable_value(groups, l, strict) is None;
    let after = |l: Label| usable_value(other, l, strict) is None;
    assert forall|l: Label| #[trigger] before(l) == after(l) by {
        lemma_same_field(groups, other, l, strict);
    }
    assert(before =~= after);
    if let Some(variant) = variant_of(groups) {
        assert(offending(groups, variant, strict) == offending(other, variant, strict));
        lemma_same_field(groups, other, Label::Adco, strict);
        lemma_same_field(groups, other, Label::Optarif, strict);
        lemma_same_field(groups, other, Label::Isousc, strict);
        lemma_same_field(groups, other, Label::Hchc, strict);
        lemma_same_field(groups, other, Label::Hchp, strict);
        lemma_same_field(groups, other, Label::Bbrhcjb, strict);
        lemma_same_field(groups, other, Label::Bbrhpjb, strict);
        lemma_same_field(groups, other, Label::Bbrhcjw, strict);
        lemma_same_field(groups, other, Label::Bbrhpjw, strict);
        lemma_same_field(groups, other, Label::Bbrhcjr, strict);
        lemma_same_field(groups, other, Label::Bbrhpjr, strict);
        lemma_same_field(groups, other, Label::Ptec, strict);
        lemma_same_field(groups, other, Label::Demain, strict);
        lemma_same_field(groups, other, Label::Iinst, strict);
        lemma_same_field(groups, other, Label::Imax, strict);
        lemma_same_field(groups, other, Label::Papp, strict);
        lemma_same_field(groups, other, Label::Hhphc, strict);
        lemma_same_field(groups, other, Label::Motdetat, strict);
        assert(tariff_of(groups, variant, strict) == tariff_of(other, variant, strict));
        assert(reading_of(groups, variant, strict) == reading_of(other, variant, strict));
    }
}

/// Forward compatibility: a group with a label that the vocabulary does not
/// know is ignored. Wherever it stands in the frame, the frame gives what it
/// gives without it.
pub proof fn lemma_unrecognized_label_is_ignored(
    groups: Seq<GroupView>,
    i: int,
    g: GroupView,
    strict: bool,
)
    requires
        0 <= i <= groups.len(),
        unrecognized(g.label),
    ensures
        build_spec(groups.insert(i, g), strict) == build_spec(groups, strict),
{
    let with = groups.insert(i, g);
    assert forall|l: Label| lookup(with, #[trigger] l.name()) == lookup(groups, l.name()) by {
        lemma_lookup_skips(groups, i, g, l.name());
    }
    lemma_same_lookups_same_outcome(with, groups, strict);
}

/// Without groups no variant is matched.
pub proof fn lemma_no_groups_no_variant(strict: bool)
    ensures
        build_spec(Seq::empty(), strict) == Err::<NewRecordView, DiagnosticView>(
            DiagnosticView::UnknownVariant,
        ),
{
    let groups = Seq::<GroupView>::empty();
    assert(!carries(groups, Variant::Tempo.mandatory()[0]));
    assert(!carries(groups, Variant::Base.mandatory()[0]));
}

/// Strict all-or-nothing: if the frame matches a variant and one mandatory
/// label of that variant has no usable value, the frame gives no reading,
/// whatever the other labels hold. It is rejected as incomplete, and the
/// diagnostic names the label.
pub proof fn lemma_all_or_nothing(groups: Seq<GroupView>, strict: bool, variant: Variant, i: int)
    requires
        variant_of(groups) == Some(variant),
        0 <= i < variant.mandatory().len(),
        usable_value(groups, variant.mandatory()[i], strict) is None,
    ensures
        build_spec(groups, strict) is Err,
        build_spec(groups, strict)->Err_0 is IncompleteFrame,
        build_spec(groups, strict)->Err_0->labels.contains(variant.mandatory()[i]),
{
    let unusable = |l: Label| usable_value(groups, l, strict) is None;
    variant.mandatory().lemma_filter_contains(unusable, i);
}

/// Finds the first group that carries the label `name`.
pub fn find<'a>(groups: &'a [Group], name: &[u8]) -> (r: Option<&'a Group>)
    ensures
        match r {
            Some(g) => lookup(group_views(groups@), name@) == Some(g@),
            None => lookup(group_views(groups@), name@) is None,
        },
{
    let ghost views = group_views(groups@);
    let mut i: usize = 0;
    assert(views.skip(0) == views);
    while i < groups.len()
        invariant
            i <= groups.len(),
            views == group_views(groups@),
            lookup(views, name@) == lookup(views.skip(i as int), name@),
        decreases groups.len() - i,
    {
        let g = &groups[i];
        assert(views.skip(i as int).first() == g@);
        if slice_eq(g.label.as_slice(), name) {
            return Some(g);
        }
        assert(views.skip(i as int).drop_first() == views.skip(i + 1));
        i += 1;
    }
    None
}

/// Finds the group that gives `label` its value, if the value is usable.
fn usable<'a>(groups: &'a [Group], label: Label, strict: bool) -> (r: Option<&'a Group>)
    ensures
        match r {
            Some(g) => usable_value(group_views(groups@), label, strict) == Some(g@.value),
            None => usable_value(group_views(groups@), label, strict) is None,
        },
{
    match find(groups, label.name_bytes()) {
        Some(g) => if label.accepts_bytes(g.value.as_slice()) && (g.valid || !strict) {
            Some(g)
        } else {
            None
        },
        None => None,
    }
}

/// Reads the number that the frame gives for a label with a digit format.
fn read_number(groups: &[Group], label: Label, width: usize, strict: bool) -> (r: Option<u64>)
    requires
        label.spec_format() == (Format::Digits { width }),
        width <= 19,
    ensures
        match r {
            Some(n) => number_field(group_views(groups@), label, strict) == Some(n as nat) && n
                < pow10(width as nat),
            None => number_field(group_views(groups@), label, strict) is None,
        },
{
    match usable(groups, label, strict) {
        Some(g) => parse_number(g.value.as_slice(), width),
        None => None,
    }
}

/// Reads the text that the frame gives for a label.
fn read_text(groups: &[Group], label: Label, strict: bool) -> (r: Option<Vec<u8>>)
    ensures
        text_view(r) == text_field(group_views(groups@), label, strict),
{
    match usable(groups, label, strict) {
        Some(g) => match label.format() {
            Format::Digits { .. } => Some(slice_to_vec(g.value.as_slice())),
            Format::Text => parse_text(g.value.as_slice()),
        },
        None => None,
    }
}

/// Whether the frame holds every mandatory label of `variant`.
fn holds_all_labels(groups: &[Group], variant: Variant) -> (r: bool)
    ensures
        r == holds_all(group_views(groups@), variant),
{
    let labels = variant.mandatory_labels();
    let mut i: usize = 0;
    while i < labels.len()
        invariant
            i <= labels.len(),
            labels@ == variant.mandatory(),
            forall|j: int| 0 <= j < i ==> carries(group_views(groups@), #[trigger] labels@[j]),
        decreases labels.len() - i,
    {
        if find(groups, labels[i].name_bytes()).is_none() {
            return false;
        }
        i += 1;
    }
    true
}

/// Selects the variant of a frame by the labels that it holds.
///
/// Returns `None` if the frame holds the full mandatory label set of no
/// variant.
pub fn detect_variant(groups: &[Group]) -> (r: Option<Variant>)
    ensures
        r == variant_of(group_views(groups@)),
{
    if holds_all_labels(groups, Variant::Tempo) {
        Some(Variant::Tempo)
    } else if holds_all_labels(groups, Variant::Base) {
        Some(Variant::Base)
    } else {
        None
    }
}

/// Lists the mandatory labels of `variant` that have no usable value.
pub fn offending_labels(groups: &[Group], variant: Variant, strict: bool) -> (r: Vec<Label>)
    ensures
        r@ == offending(group_views(groups@), variant, strict),
{
    let labels = variant.mandatory_labels();
    let ghost views = group_views(groups@);
    let ghost unusable = |l: Label| usable_value(views, l, strict) is None;
    let mut bad: Vec<Label> = Vec::new();
    let mut i: usize = 0;
    proof {
        reveal(Seq::filter);
        assert(labels@.take(0).filter(unusable) == Seq::<Label>::empty());
    }
    while i < labels.len()
        invariant
            i <= labels.len(),
            labels@ == variant.mandatory(),
            views == group_views(groups@),
            unusable == |l: Label| usable_value(views, l, strict) is None,
            bad@ == labels@.take(i as int).filter(unusable),
        decreases labels.len() - i,
    {
        let label = labels[i];
        proof {
            reveal(Seq::filter);
            assert(labels@.take(i + 1).drop_last() == labels@.take(i as int));
            assert(labels@.take(i + 1).last() == label);
        }
        if usable(groups, label, strict).is_none() {
            bad.push(label);
        }
        i += 1;
    }
    assert(labels@.take(labels.len() as int) == labels@);
    bad
}

/// Where no mandatory label offends, each has a usable value.
pub proof fn lemma_none_offending(groups: Seq<GroupView>, variant: Variant, strict: bool, i: int)
    requires
        offending(groups, variant, strict).len() == 0,
        0 <= i < variant.mandatory().len(),
    ensures
        usable_value(groups, variant.mandatory()[i], strict) is Some,
{
    let unusable = |l: Label| usable_value(groups, l, strict) is None;
    let labels = variant.mandatory();
    if unusable(labels[i]) {
        labels.lemma_filter_contains(unusable, i);
    }
}

/// Where each mandatory label has a usable value, none offends.
pub proof fn lemma_all_usable(groups: Seq<GroupView>, variant: Variant, strict: bool)
    requires
        forall|i: int|
            0 <= i < variant.mandatory().len() ==> usable_value(
                groups,
                #[trigger] variant.mandatory()[i],
                strict,
            ) is Some,
    ensures
        offending(groups, variant, strict).len() == 0,
{
    let unusable = |l: Label| usable_value(groups, l, strict) is None;
    let labels = variant.mandatory();
    let bad = labels.filter(unusable);
    if bad.len() > 0 {
        labels.lemma_filter_pred(unusable, 0);
        assert(bad.contains(bad[0]));
        labels.lemma_filter_contains_rev(unusable, bad[0]);
        let i = choose|i: int| 0 <= i < labels.len() && labels[i] == bad[0];
        assert(usable_value(groups, labels[i], strict) is Some);
    }
}

/// Reads the index counters of a frame whose mandatory labels are all usable.
fn read_tariff(groups: &[Group], variant: Variant, strict: bool) -> (r: Tariff)
    requires
        offending(group_views(groups@), variant, strict).len() == 0,
    ensures
        r@ == tariff_of(group_views(groups@), variant, strict),
{
    let ghost views = group_views(groups@);
    match variant {
        Variant::Base => {
            proof {
                lemma_none_offending(views, variant, strict, 1);
                lemma_none_offending(views, variant, strict, 2);
            }
            let hchc = read_number(groups, Label::Hchc, 9, strict);
            let hchp = read_number(groups, Label::Hchp, 9, strict);
            Tariff::Base { hchc: hchc.unwrap(), hchp: hchp.unwrap() }
        },
        Variant::Tempo => {
            proof {
                lemma_none_offending(views, variant, strict, 3);
                lemma_none_offending(views, variant, strict, 4);
                lemma_none_offending(views, variant, strict, 5);
                lemma_none_offending(views, variant, strict, 6);
                lemma_none_offending(views, variant, strict, 7);
                lemma_none_offending(views, variant, strict, 8);
                lemma_none_offending(views, variant, strict, 10);
            }
            let hcjb = read_number(groups, Label::Bbrhcjb, 9, strict);
            let hpjb = read_number(groups, Label::Bbrhpjb, 9, strict);
            let hcjw = read_number(groups, Label::Bbrhcjw, 9, strict);
            let hpjw = read_number(groups, Label::Bbrhpjw, 9, strict);
            let hcjr = read_number(groups, Label::Bbrhcjr, 9, strict);
            let hpjr = read_number(groups, Label::Bbrhpjr, 9, strict);
            let demain = read_text(groups, Label::Demain, strict);
            Tariff::Tempo {
                hcjb: hcjb.unwrap(),
                hpjb: hpjb.unwrap(),
                hcjw: hcjw.unwrap(),
                hpjw: hpjw.unwrap(),
                hcjr: hcjr.unwrap(),
                hpjr: hpjr.unwrap(),
                demain: demain.unwrap(),
            }
        },
    }
}

/// Reads the fields of a frame whose mandatory labels are all usable.
fn read_fields(groups: &[Group], variant: Variant, strict: bool) -> (r: NewRecord)
    requires
        offending(group_views(groups@), variant, strict).len() == 0,
    ensures
        r@ == reading_of(group_views(groups@), variant, strict),
{
    let ghost views = group_views(groups@);
    proof {
        lemma_none_offending(views, variant, strict, 0);
        assert(variant.mandatory()[0] == Label::Adco);
        match variant {
            Variant::Base => {
                lemma_none_offending(views, variant, strict, 3);
                assert(variant.mandatory()[3] == Label::Ptec);
            },
            Variant::Tempo => {
                lemma_none_offending(views, variant, strict, 9);
                assert(variant.mandatory()[9] == Label::Ptec);
            },
        }
        assert(pow10(2) == 100 && pow10(3) == 1000 && pow10(5) == 100_000) by {
            reveal_with_fuel(pow10, 6);
        }
    }
    let adco = read_text(groups, Label::Adco, strict);
    let ptec = read_text(groups, Label::Ptec, strict);
    let isousc = match read_number(groups, Label::Isousc, 2, strict) {
        Some(n) => Some(n as u8),
        None => None,
    };
    let iinst = match read_number(groups, Label::Iinst, 3, strict) {
        Some(n) => Some(n as u16),
        None => None,
    };
    let imax = match read_number(groups, Label::Imax, 3, strict) {
        Some(n) => Some(n as u16),
        None => None,
    };
    let papp = match read_number(groups, Label::Papp, 5, strict) {
        Some(n) => Some(n as u32),
        None => None,
    };
    NewRecord {
        adco: adco.unwrap(),
        optarif: read_text(groups, Label::Optarif, strict),
        isousc,
        tariff: read_tariff(groups, variant, strict),
        ptec: ptec.unwrap(),
        iinst,
        imax,
        papp,
        hhphc: read_text(groups, Label::Hhphc, strict),
        motdetat: read_text(groups, Label::Motdetat, strict),
    }
}

/// Builds a reading from the groups of one frame.
///
/// With `strict` set, a group whose checksum did not match gives no usable
/// value. Without it, checksums are advisory and such a group counts like
/// any other.
pub fn build_record(groups: &[Group], strict: bool) -> (r: Result<NewRecord, Diagnostic>)
    ensures
        match r {
            Ok(reading) => build_spec(group_views(groups@), strict) == Ok::<
                NewRecordView,
                DiagnosticView,
            >(reading@),
            Err(d) => build_spec(group_views(groups@), strict) == Err::<
                NewRecordView,
                DiagnosticView,
            >(d@),
        },
        r matches Ok(reading) ==> reading@.wf(),
{
    proof {
        lemma_reading_is_well_formed(group_views(groups@), strict);
    }
    match detect_variant(groups) {
        None => Err(Diagnostic::UnknownVariant),
        Some(variant) => {
            let labels = offending_labels(groups, variant, strict);
            if labels.len() > 0 {
                Err(Diagnostic::IncompleteFrame { labels })
            } else {
                Ok(read_fields(groups, variant, strict))
            }
        },
    }
}

} // verus!
