//! Groups: the label/value/checksum lines of a frame.
//!
//! On the wire a group is a line feed, a label, one space, a value, an
//! optional space, the checksum byte and a carriage return. Label and value
//! are tokens: non-empty runs of bytes free of space, carriage return and
//! line feed. Some transmitters leave out the space before the checksum
//! byte; both spellings are read.

use vstd::prelude::*;
use vstd::slice::{slice_subrange, slice_to_vec};
use crate::checksum::{checksum, checksum_of};
use crate::diagnostic::{diagnostic_views, Diagnostic, DiagnosticView};
use crate::wire::{CR, LF, SP};

verus! {

/// One label/value pair of a frame, with the checksum byte that came with it
/// and the verdict of the checksum test.
#[derive(Clone, Debug, PartialEq, Eq)]
pub struct Group {
    pub label: Vec<u8>,
    pub value: Vec<u8>,
    /// The checksum byte as transmitted.
    pub checksum: u8,
    /// Whether the transmitted checksum is the one computed from label and
    /// value. A mismatch marks the group; it does not remove it.
    pub valid: bool,
}

/// The mathematical model of a [`Group`].
pub struct GroupView {
    pub label: Seq<u8>,
    pub value: Seq<u8>,
    pub checksum: u8,
    pub valid: bool,
}

impl View for Group {
    type V = GroupView;

    open spec fn view(&self) -> GroupView {
        GroupView {
            label: self.label@,
            value: self.value@,
            checksum: self.checksum,
            valid: self.valid,
        }
    }
}

impl GroupView {
    /// The group with this label, value and transmitted checksum, marked
    /// with the verdict of the checksum test.
    pub open spec fn checked(label: Seq<u8>, value: Seq<u8>, checksum: u8) -> GroupView {
        GroupView { label, value, checksum, valid: checksum == checksum_of(label, value) }
    }
}

/// The models of a sequence of groups.
pub open spec fn group_views(s: Seq<Group>) -> Seq<GroupView> {
    Seq::new(s.len(), |i: int| s[i]@)
}

impl Group {
    /// Makes a group and classifies its checksum.
    pub fn new(label: Vec<u8>, value: Vec<u8>, checksum_byte: u8) -> (g: Group)
        ensures
            g@ == GroupView::checked(label@, value@, checksum_byte),
    {
        let valid = checksum(label.as_slice(), value.as_slice()) == checksum_byte;
        Group { label, value, checksum: checksum_byte, valid }
    }
}

/// Checksum determinism: the verdict that a group carries is a function of
/// its label, its value and its checksum byte. Two groups that agree in
/// these agree in their verdict, whenever and however each was checked.
pub proof fn lemma_verdict_is_determined(
    label: Seq<u8>,
    value: Seq<u8>,
    checksum: u8,
    g: GroupView,
    h: GroupView,
)
    requires
        g == GroupView::checked(label, value, checksum),
        h == GroupView::checked(label, value, checksum),
    ensures
        g.valid == h.valid,
        g.valid == (checksum == checksum_of(label, value)),
{
}

/// Whether `b` may stand in a token.
pub open spec fn is_token_byte(b: u8) -> bool {
    b != SP && b != CR && b != LF
}

/// Whether `s` is a token: not empty, and free of space, carriage return and
/// line feed.
pub open spec fn is_token(s: Seq<u8>) -> bool {
    s.len() > 0 && forall|i: int| 0 <= i < s.len() ==> is_token_byte(#[trigger] s[i])
}

/// The length of the longest prefix of `s` that holds no space.
pub open spec fn spaceless_prefix_len(s: Seq<u8>) -> nat
    decreases s.len(),
{
    if s.len() > 0 && s.first() != SP {
        1 + spaceless_prefix_len(s.drop_first())
    } else {
        0
    }
}

/// The group that a line holds, if the line has the shape of a group.
///
/// `line` is what follows a line feed, up to the next line feed or the end of
/// the frame. It must end in the checksum byte and a carriage return. What
/// precedes the checksum byte is the label, up to the first space, and the
/// value. A space that ends the value part is the separator before the
/// checksum byte and does not belong to the value.
pub open spec fn parse_line_spec(line: Seq<u8>) -> Option<GroupView> {
    let n = line.len() as int;
    if n < 2 || line[n - 1] != CR {
        None
    } else {
        let body = line.take(n - 2);
        let k = spaceless_prefix_len(body) as int;
        if k >= body.len() {
            None
        } else {
            let label = body.take(k);
            let rest = body.skip(k + 1);
            let value = if rest.len() >= 2 && rest.last() == SP {
                rest.drop_last()
            } else {
                rest
            };
            if is_token(label) && is_token(value) {
                Some(GroupView::checked(label, value, line[n - 2]))
            } else {
                None
            }
        }
    }
}

/// A group as it is written on the wire, after the line feed that opens it:
/// the label, a space, the value, a space unless the transmitter leaves it
/// out, the checksum byte and a carriage return.
pub open spec fn line_of(label: Seq<u8>, value: Seq<u8>, spaced: bool, checksum: u8) -> Seq<u8> {
    label + seq![SP] + value + (if spaced {
        seq![SP]
    } else {
        Seq::empty()
    }) + seq![checksum, CR]
}

/// Where the first space of `s` stands, the spaceless prefix ends.
pub proof fn lemma_spaceless_prefix(s: Seq<u8>, k: int)
    requires
        0 <= k <= s.len(),
        forall|j: int| 0 <= j < k ==> #[trigger] s[j] != SP,
        k < s.len() ==> s[k] == SP,
    ensures
        spaceless_prefix_len(s) == k,
    decreases k,
{
    if k > 0 {
        lemma_spaceless_prefix(s.drop_first(), k - 1);
    }
}

/// The spaceless prefix holds no space, and a space follows it unless it
/// is all of `s`.
pub proof fn lemma_spaceless_prefix_ends(s: Seq<u8>)
    ensures
        spaceless_prefix_len(s) <= s.len(),
        forall|j: int| 0 <= j < spaceless_prefix_len(s) ==> #[trigger] s[j] != SP,
        spaceless_prefix_len(s) < s.len() ==> s[spaceless_prefix_len(s) as int] == SP,
    decreases s.len(),
{
    if s.len() > 0 && s.first() != SP {
        let t = s.drop_first();
        lemma_spaceless_prefix_ends(t);
        assert forall|j: int| 0 <= j < spaceless_prefix_len(s) implies #[trigger] s[j] != SP by {
            if j > 0 {
                assert(s[j] == t[j - 1]);
            }
        }
    }
}

/// Reading what was written: a line written from a label and a value that
/// are tokens, with or without the space before the checksum byte, reads
/// back as that label, that value and that checksum byte.
pub proof fn lemma_parse_line_of(label: Seq<u8>, value: Seq<u8>, spaced: bool, checksum: u8)
    requires
        is_token(label),
        is_token(value),
    ensures
        parse_line_spec(line_of(label, value, spaced, checksum)) == Some(
            GroupView::checked(label, value, checksum),
        ),
{
    let line = line_of(label, value, spaced, checksum);
    let n = line.len() as int;
    let body = line.take(n - 2);
    let k = label.len() as int;
    assert forall|j: int| 0 <= j < k implies #[trigger] body[j] != SP by {
        assert(body[j] == label[j]);
        assert(is_token_byte(label[j]));
    }
    assert(body[k] == SP);
    lemma_spaceless_prefix(body, k);
    assert(body.take(k) =~= label);
    let rest = body.skip(k + 1);
    if spaced {
        assert(rest =~= value.push(SP));
        assert(rest.drop_last() =~= value);
    } else {
        assert(rest =~= value);
        assert(is_token_byte(value[value.len() - 1]));
    }
}

/// Reading only what has the shape: a line that reads as a group is that
/// group written out, with or without the space before the checksum byte,
/// and the group's label and value are tokens.
pub proof fn lemma_parse_line_shape(line: Seq<u8>)
    requires
        parse_line_spec(line) is Some,
    ensures
        is_token(parse_line_spec(line)->0.label),
        is_token(parse_line_spec(line)->0.value),
        parse_line_spec(line)->0.valid == (parse_line_spec(line)->0.checksum == checksum_of(
            parse_line_spec(line)->0.label,
            parse_line_spec(line)->0.value,
        )),
        exists|spaced: bool|
            line == #[trigger] line_of(
                parse_line_spec(line)->0.label,
                parse_line_spec(line)->0.value,
                spaced,
                parse_line_spec(line)->0.checksum,
            ),
{
    let g = parse_line_spec(line)->0;
    let n = line.len() as int;
    let body = line.take(n - 2);
    lemma_spaceless_prefix_ends(body);
    let k = spaceless_prefix_len(body) as int;
    let rest = body.skip(k + 1);
    let spaced = rest.len() >= 2 && rest.last() == SP;
    assert(line =~= line_of(g.label, g.value, spaced, g.checksum));
}

/// Whether `s` is a token.
pub fn is_token_bytes(s: &[u8]) -> (r: bool)
    ensures
        r == is_token(s@),
{
    if s.len() == 0 {
        return false;
    }
    let mut i: usize = 0;
    while i < s.len()
        invariant
            i <= s.len(),
            forall|j: int| 0 <= j < i ==> is_token_byte(#[trigger] s@[j]),
        decreases s.len() - i,
    {
        let b: u8 = s[i];
        if b == SP || b == CR || b == LF {
            return false;
        }
        i += 1;
    }
    true
}

/// Reads one line of a frame as a group.
///
/// Returns `None` if the line does not have the shape of a group.
pub fn parse_line(line: &[u8]) -> (r: Option<Group>)
    ensures
        match r {
            Some(g) => parse_line_spec(line@) == Some(g@),
            None => parse_line_spec(line@) is None,
        },
{
    let n: usize = line.len();
    if n < 2 || line[n - 1] != CR {
        return None;
    }
    let body = slice_subrange(line, 0, n - 2);
    let mut k: usize = 0;
    assert(body@.skip(0) == body@);
    while k < body.len() && body[k] != SP
        invariant
            k <= body.len(),
            spaceless_prefix_len(body@) == k + spaceless_prefix_len(body@.skip(k as int)),
        decreases body.len() - k,
    {
        assert(body@.skip(k as int).drop_first() == body@.skip(k + 1));
        k += 1;
    }
    if k >= body.len() {
        return None;
    }
    let label = slice_subrange(body, 0, k);
    let rest = slice_subrange(body, k + 1, body.len());
    let value = if rest.len() >= 2 && rest[rest.len() - 1] == SP {
        slice_subrange(rest, 0, rest.len() - 1)
    } else {
        rest
    };
    if is_token_bytes(label) && is_token_bytes(value) {
        Some(Group::new(slice_to_vec(label), slice_to_vec(value), line[n - 2]))
    } else {
        None
    }
}

/// The lines of a frame's payload: the pieces that its line feeds part.
///
/// A payload with `k` line feeds has `k + 1` lines. Line 0 is what precedes
/// the first line feed.
pub open spec fn split_lines(payload: Seq<u8>) -> Seq<Seq<u8>>
    decreases payload.len(),
{
    if payload.len() == 0 {
        seq![Seq::empty()]
    } else {
        let before = split_lines(payload.drop_last());
        if payload.last() == LF {
            before.push(Seq::empty())
        } else {
            before.drop_last().push(before.last().push(payload.last()))
        }
    }
}

/// The payload whose lines are `lines`: the lines with a line feed between
/// each two of them.
pub open spec fn join_lines(lines: Seq<Seq<u8>>) -> Seq<u8>
    decreases lines.len(),
{
    if lines.len() == 0 {
        Seq::empty()
    } else if lines.len() == 1 {
        lines[0]
    } else {
        join_lines(lines.drop_last()) + seq![LF] + lines.last()
    }
}

/// Whether `line` holds no line feed.
pub open spec fn line_feed_free(line: Seq<u8>) -> bool {
    forall|i: int| 0 <= i < line.len() ==> #[trigger] line[i] != LF
}

/// The lines of a payload hold no line feed, and joined by line feeds they
/// give the payload back.
pub proof fn lemma_split_then_join(payload: Seq<u8>)
    ensures
        split_lines(payload).len() >= 1,
        forall|k: int|
            0 <= k < split_lines(payload).len() ==> line_feed_free(#[trigger] split_lines(payload)[k]),
        join_lines(split_lines(payload)) == payload,
    decreases payload.len(),
{
    if payload.len() > 0 {
        let before = split_lines(payload.drop_last());
        lemma_split_then_join(payload.drop_last());
        let lines = split_lines(payload);
        if payload.last() == LF {
            assert(lines.drop_last() =~= before);
            assert(join_lines(lines) =~= payload);
        } else {
            let grown = before.last().push(payload.last());
            assert(lines.last() == grown);
            assert(lines.drop_last() =~= before.drop_last());
            if before.len() == 1 {
                assert(join_lines(lines) =~= payload);
            } else {
                assert(join_lines(lines) =~= join_lines(before).push(payload.last()));
                assert(join_lines(lines) =~= payload);
            }
            assert forall|k: int| 0 <= k < lines.len() implies line_feed_free(
                #[trigger] lines[k],
            ) by {
                if k < lines.len() - 1 {
                    assert(lines[k] == before[k]);
                } else {
                    assert(line_feed_free(before.last()));
                }
            }
        }
    }
}

/// Bytes that are no line feeds lengthen the last line.
pub proof fn lemma_split_lines_extend(payload: Seq<u8>, tail: Seq<u8>)
    requires
        line_feed_free(tail),
    ensures
        split_lines(payload).len() >= 1,
        split_lines(payload + tail) == split_lines(payload).drop_last().push(
            split_lines(payload).last() + tail,
        ),
    decreases tail.len(),
{
    lemma_split_then_join(payload);
    let lines = split_lines(payload);
    if tail.len() == 0 {
        assert(payload + tail =~= payload);
        assert(lines.last() + tail =~= lines.last());
        assert(lines.drop_last().push(lines.last()) =~= lines);
    } else {
        lemma_split_lines_extend(payload, tail.drop_last());
        assert((payload + tail).drop_last() =~= payload + tail.drop_last());
        assert(tail[tail.len() - 1] != LF);
        let before = split_lines(payload + tail.drop_last());
        assert(before.last().push(tail.last()) =~= lines.last() + tail);
        assert(before.drop_last() =~= lines.drop_last());
    }
}

/// Splitting is the inverse of joining: lines that hold no line feed are
/// the lines of the payload that they make.
pub proof fn lemma_join_then_split(lines: Seq<Seq<u8>>)
    requires
        lines.len() >= 1,
        forall|k: int| 0 <= k < lines.len() ==> line_feed_free(#[trigger] lines[k]),
    ensures
        split_lines(join_lines(lines)) == lines,
    decreases lines.len(),
{
    if lines.len() == 1 {
        let empty = Seq::<u8>::empty();
        lemma_split_lines_extend(empty, lines[0]);
        assert(empty + lines[0] =~= lines[0]);
        assert(split_lines(empty) =~= seq![empty]);
        assert(split_lines(lines[0]) =~= lines);
    } else {
        let init = lines.drop_last();
        assert forall|k: int| 0 <= k < init.len() implies line_feed_free(#[trigger] init[k]) by {
            assert(init[k] == lines[k]);
        }
        lemma_join_then_split(init);
        let opened = join_lines(init) + seq![LF];
        assert(opened.drop_last() =~= join_lines(init));
        assert(split_lines(opened) == init.push(Seq::empty()));
        assert(line_feed_free(lines[lines.len() - 1]));
        lemma_split_lines_extend(opened, lines.last());
        assert(Seq::<u8>::empty() + lines.last() =~= lines.last());
        assert(init.push(Seq::empty()).drop_last() =~= init);
        assert(init.push(lines.last()) =~= lines);
    }
}

/// The groups of a frame, and what was met while reading them.
#[derive(Clone, Debug, PartialEq, Eq)]
pub struct Parsed {
    /// The well-formed groups, in the order of their lines.
    pub groups: Vec<Group>,
    /// A diagnostic for each malformed line and for each checksum mismatch,
    /// in the order of their lines.
    pub diagnostics: Vec<Diagnostic>,
}

/// The mathematical model of a [`Parsed`].
pub struct ParsedView {
    pub groups: Seq<GroupView>,
    pub diagnostics: Seq<DiagnosticView>,
}

impl View for Parsed {
    type V = ParsedView;

    open spec fn view(&self) -> ParsedView {
        ParsedView {
            groups: group_views(self.groups@),
            diagnostics: diagnostic_views(self.diagnostics@),
        }
    }
}

/// What the line with number `k` adds to what the lines before it gave.
///
/// Line 0 was not opened by a line feed. If it is empty there is nothing to
/// report; otherwise it is malformed. Any other line either gives a group,
/// with a diagnostic if its checksum does not match, or is malformed and
/// skipped.
pub open spec fn line_step(before: ParsedView, k: int, line: Seq<u8>) -> ParsedView {
    if k == 0 {
        if line.len() == 0 {
            before
        } else {
            ParsedView {
                groups: before.groups,
                diagnostics: before.diagnostics.push(DiagnosticView::GroupSyntax { line: 0 }),
            }
        }
    } else {
        match parse_line_spec(line) {
            Some(g) => ParsedView {
                groups: before.groups.push(g),
                diagnostics: if g.valid {
                    before.diagnostics
                } else {
                    before.diagnostics.push(DiagnosticView::ChecksumMismatch { line: k as usize })
                },
            },
            None => ParsedView {
                groups: before.groups,
                diagnostics: before.diagnostics.push(
                    DiagnosticView::GroupSyntax { line: k as usize },
                ),
            },
        }
    }
}

/// What a sequence of lines gives, read in order.
pub open spec fn parse_lines(lines: Seq<Seq<u8>>) -> ParsedView
    decreases lines.len(),
{
    if lines.len() == 0 {
        ParsedView { groups: Seq::empty(), diagnostics: Seq::empty() }
    } else {
        line_step(parse_lines(lines.drop_last()), lines.len() - 1, lines.last())
    }
}

/// What a frame's payload gives: its lines, read in order.
pub open spec fn parse_frame_spec(payload: Seq<u8>) -> ParsedView {
    parse_lines(split_lines(payload))
}

/// Reads the line with number `k` and adds what it gives to `parsed`.
fn absorb_line(parsed: &mut Parsed, k: usize, line: &[u8])
    ensures
        final(parsed)@ == line_step(old(parsed)@, k as int, line@),
{
    let ghost before = parsed@;
    if k == 0 {
        if line.len() != 0 {
            parsed.diagnostics.push(Diagnostic::GroupSyntax { line: 0 });
            assert(parsed@.diagnostics =~= before.diagnostics.push(
                DiagnosticView::GroupSyntax { line: 0 },
            ));
            assert(parsed@.groups =~= before.groups);
        }
    } else {
        match parse_line(line) {
            Some(g) => {
                let valid = g.valid;
                let ghost gv = g@;
                parsed.groups.push(g);
                assert(parsed@.groups =~= before.groups.push(gv));
                if !valid {
                    parsed.diagnostics.push(Diagnostic::ChecksumMismatch { line: k });
                    assert(parsed@.diagnostics =~= before.diagnostics.push(
                        DiagnosticView::ChecksumMismatch { line: k },
                    ));
                } else {
                    assert(parsed@.diagnostics =~= before.diagnostics);
                }
            },
            None => {
                parsed.diagnostics.push(Diagnostic::GroupSyntax { line: k });
                assert(parsed@.diagnostics =~= before.diagnostics.push(
                    DiagnosticView::GroupSyntax { line: k },
                ));
                assert(parsed@.groups =~= before.groups);
            },
        }
    }
}

/// Splits a frame's payload into its groups.
///
/// The payload is what stood between the start marker and the end marker. A
/// line that is not a group is reported and skipped; the lines after it are
/// still read.
pub fn parse_frame(payload: &[u8]) -> (r: Parsed)
    ensures
        r@ == parse_frame_spec(payload@),
{
    let n: usize = payload.len();
    let mut parsed = Parsed { groups: Vec::new(), diagnostics: Vec::new() };
    let mut start: usize = 0;
    let mut k: usize = 0;
    let mut i: usize = 0;
    let ghost mut done: Seq<Seq<u8>> = Seq::empty();
    assert(parsed@.groups =~= Seq::empty());
    assert(parsed@.diagnostics =~= Seq::empty());
    assert(payload@.subrange(0, 0) =~= Seq::empty());
    assert(split_lines(payload@.take(0)) =~= done.push(Seq::empty()));
    while i < n
        invariant
            n == payload.len(),
            k <= start <= i <= n,
            k == done.len(),
            split_lines(payload@.take(i as int)) == done.push(
                payload@.subrange(start as int, i as int),
            ),
            parsed@ == parse_lines(done),
        decreases n - i,
    {
        let ghost line = payload@.subrange(start as int, i as int);
        proof {
            assert(payload@.take(i + 1).drop_last() == payload@.take(i as int));
            assert(done.push(line).drop_last() == done);
        }
        if payload[i] == LF {
            absorb_line(&mut parsed, k, slice_subrange(payload, start, i));
            proof {
                done = done.push(line);
                assert(payload@.subrange(i + 1, i + 1) =~= Seq::empty());
            }
            start = i + 1;
            k += 1;
        } else {
            assert(payload@.subrange(start as int, i + 1) =~= line.push(payload@[i as int]));
        }
        i += 1;
    }
    absorb_line(&mut parsed, k, slice_subrange(payload, start, n));
    proof {
        let line = payload@.subrange(start as int, n as int);
        assert(payload@.take(n as int) == payload@);
        assert(done.push(line).drop_last() == done);
    }
    parsed
}

/// The payload that writes `groups` in order, each opened by a line feed
/// and with the space before its checksum byte.
pub open spec fn write_groups(groups: Seq<GroupView>) -> Seq<u8>
    decreases groups.len(),
{
    if groups.len() == 0 {
        Seq::empty()
    } else {
        write_groups(groups.drop_last()) + seq![LF] + line_of(
            groups.last().label,
            groups.last().value,
            true,
            groups.last().checksum,
        )
    }
}

/// Whether a group can be written and read back: its label and value are
/// tokens, its checksum byte is no line feed, and its verdict is that of the
/// checksum test.
pub open spec fn writable(g: GroupView) -> bool {
    &&& is_token(g.label)
    &&& is_token(g.value)
    &&& g.checksum != LF
    &&& g == GroupView::checked(g.label, g.value, g.checksum)
}

/// The diagnostics that reading `groups` back gives: one for each group
/// whose checksum does not match, with the number of its line.
pub open spec fn mismatches(groups: Seq<GroupView>) -> Seq<DiagnosticView>
    decreases groups.len(),
{
    if groups.len() == 0 {
        Seq::empty()
    } else if groups.last().valid {
        mismatches(groups.drop_last())
    } else {
        mismatches(groups.drop_last()).push(
            DiagnosticView::ChecksumMismatch { line: groups.len() as usize },
        )
    }
}

/// The lines of the payload that writes `groups`: an empty line 0, and then
/// one line for each group.
pub open spec fn written_lines(groups: Seq<GroupView>) -> Seq<Seq<u8>> {
    Seq::new(
        groups.len() + 1,
        |k: int|
            if k == 0 {
                Seq::empty()
            } else {
                line_of(groups[k - 1].label, groups[k - 1].value, true, groups[k - 1].checksum)
            },
    )
}

/// The payload that writes `groups` is its lines, joined by line feeds.
proof fn lemma_write_is_join(groups: Seq<GroupView>)
    ensures
        write_groups(groups) == join_lines(written_lines(groups)),
    decreases groups.len(),
{
    let lines = written_lines(groups);
    if groups.len() > 0 {
        lemma_write_is_join(groups.drop_last());
        assert(lines.drop_last() =~= written_lines(groups.drop_last()));
    }
}

/// What is written is read back: the payload that writes groups with
/// tokens for label and value gives these groups, in order, no malformed
/// line, and a diagnostic for each checksum that does not match.
pub proof fn lemma_parse_written(groups: Seq<GroupView>)
    requires
        forall|i: int| 0 <= i < groups.len() ==> writable(#[trigger] groups[i]),
        groups.len() < usize::MAX,
    ensures
        parse_frame_spec(write_groups(groups)) == (ParsedView {
            groups,
            diagnostics: mismatches(groups),
        }),
{
    let lines = written_lines(groups);
    lemma_write_is_join(groups);
    assert forall|k: int| 0 <= k < lines.len() implies line_feed_free(#[trigger] lines[k]) by {
        if k > 0 {
            let g = groups[k - 1];
            assert(writable(g));
            let line = lines[k];
            assert forall|j: int| 0 <= j < line.len() implies #[trigger] line[j] != LF by {
                if j < g.label.len() {
                    assert(is_token_byte(g.label[j]));
                } else if g.label.len() < j <= g.label.len() + g.value.len() {
                    assert(is_token_byte(g.value[j - g.label.len() - 1]));
                }
            }
        }
    }
    lemma_join_then_split(lines);
    lemma_parse_written_lines(groups);
}

/// The lines that write `groups` give these groups.
proof fn lemma_parse_written_lines(groups: Seq<GroupView>)
    requires
        forall|i: int| 0 <= i < groups.len() ==> writable(#[trigger] groups[i]),
        groups.len() < usize::MAX,
    ensures
        parse_lines(written_lines(groups)) == (ParsedView {
            groups,
            diagnostics: mismatches(groups),
        }),
    decreases groups.len(),
{
    let lines = written_lines(groups);
    if groups.len() == 0 {
        assert(lines.drop_last() =~= Seq::empty());
        assert(lines.last() == lines[0]);
        assert(parse_lines(lines.drop_last()) == (ParsedView {
            groups: Seq::empty(),
            diagnostics: Seq::empty(),
        }));
        assert(parse_lines(lines).groups =~= groups);
    } else {
        let init = groups.drop_last();
        assert forall|i: int| 0 <= i < init.len() implies writable(#[trigger] init[i]) by {
            assert(init[i] == groups[i]);
        }
        lemma_parse_written_lines(init);
        assert(lines.drop_last() =~= written_lines(init));
        let g = groups.last();
        assert(writable(g));
        lemma_parse_line_of(g.label, g.value, true, g.checksum);
        assert(init.push(g) =~= groups);
    }
}

} // verus!
