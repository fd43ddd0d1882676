//! The syllabus text format: one unit per line, written as
//! `Subject >>> Unit >>> topic, topic, ...`, grouped into subjects by
//! adjacency.

use vstd::prelude::*;
use vstd::slice::slice_subrange;
use crate::outline::{
    all_units, topic_count, topic_count_of_units, topics_not_blank, unit_count,
    unit_topics_not_blank, SubjectOutline, UnitOutline,
};
use crate::text::{
    chars_of, is_blank, lemma_pieces_total_len, lemma_total_len_bounds_part,
    lemma_trimmed_empty_iff_blank, lemma_trimmed_ends, pieces, slices_view, split, string_of,
    total_len, trim, trimmed,
};

verus! {

/// A unit read from one line of syllabus text.
#[derive(Debug, Clone)]
pub struct ParsedUnit {
    pub unit_name: String,
    pub topics: Vec<String>,
}

/// A subject with the units of a run of adjacent lines that name it.
#[derive(Debug, Clone)]
pub struct ParsedSyllabusEntry {
    pub subject_name: String,
    pub units: Vec<ParsedUnit>,
}

impl DeepView for ParsedUnit {
    type V = UnitOutline;

    open spec fn deep_view(&self) -> UnitOutline {
        UnitOutline { name: self.unit_name@, topics: self.topics.deep_view() }
    }
}

impl DeepView for ParsedSyllabusEntry {
    type V = SubjectOutline;

    open spec fn deep_view(&self) -> SubjectOutline {
        SubjectOutline { name: self.subject_name@, units: self.units.deep_view() }
    }
}

/// What separates the lines of a syllabus.
pub open spec fn line_break() -> Seq<char> {
    seq!['\n']
}

/// What separates subject, unit and topics within a line.
pub open spec fn delimiter() -> Seq<char> {
    seq!['>', '>', '>']
}

/// What separates the topics of a unit.
pub open spec fn topic_separator() -> Seq<char> {
    seq![',']
}

/// The error text for a line with fewer than two segments.
pub open spec fn invalid_format_message() -> Seq<char> {
    "Invalid format. Expected: 'Subject Name >>> Unit Name >>> topic1, topic2, topic3'"@
}

/// The error text for a syllabus without any entry.
pub open spec fn no_entries_message() -> Seq<char> {
    "No valid entries parsed from syllabus"@
}

/// Each part trimmed, and the parts that are then empty left out.
pub open spec fn trimmed_nonempty(parts: Seq<Seq<char>>) -> Seq<Seq<char>> {
    parts.map_values(|p: Seq<char>| trimmed(p)).filter(|p: Seq<char>| p.len() > 0)
}

/// The lines of `text` that hold anything but whitespace, each trimmed.
pub open spec fn content_lines(text: Seq<char>) -> Seq<Seq<char>> {
    trimmed_nonempty(pieces(text, line_break()))
}

/// The segments of a line between delimiters, each trimmed.
pub open spec fn segments(line: Seq<char>) -> Seq<Seq<char>> {
    pieces(line, delimiter()).map_values(|p: Seq<char>| trimmed(p))
}

/// A line names an entry when it has at least a subject and a unit.
pub open spec fn is_entry_line(line: Seq<char>) -> bool {
    segments(line).len() >= 2
}

/// Every line names an entry.
pub open spec fn all_entry_lines(lines: Seq<Seq<char>>) -> bool {
    forall|i: int| 0 <= i < lines.len() ==> is_entry_line(#[trigger] lines[i])
}

/// The topics written in a comma-separated field: trimmed, empty ones dropped.
pub open spec fn topics_in(field: Seq<char>) -> Seq<Seq<char>> {
    trimmed_nonempty(pieces(field, topic_separator()))
}

/// The subject that an entry line names: its first segment.
pub open spec fn line_subject(line: Seq<char>) -> Seq<char> {
    segments(line)[0]
}

/// The unit that an entry line describes: the second segment is its name, the
/// third, where there is one, lists its topics. Further segments are ignored.
pub open spec fn line_unit(line: Seq<char>) -> UnitOutline {
    let parts = segments(line);
    UnitOutline {
        name: parts[1],
        topics: topics_in(
            if parts.len() > 2 {
                parts[2]
            } else {
                Seq::empty()
            },
        ),
    }
}

/// The groups so far with one more line: the unit joins the last group when
/// that group has the line's subject, and opens a new group otherwise.
pub open spec fn with_line(groups: Seq<SubjectOutline>, subject: Seq<char>, unit: UnitOutline) -> Seq<
    SubjectOutline,
> {
    if groups.len() > 0 && groups.last().name == subject {
        groups.drop_last().push(
            SubjectOutline { name: subject, units: groups.last().units.push(unit) },
        )
    } else {
        groups.push(SubjectOutline { name: subject, units: seq![unit] })
    }
}

/// The entry lines grouped by adjacency: a subject is compared with that of
/// the line just before only, so a name that comes back later opens a second
/// group.
pub open spec fn grouped(lines: Seq<Seq<char>>) -> Seq<SubjectOutline>
    decreases lines.len(),
{
    if lines.len() == 0 {
        Seq::empty()
    } else {
        with_line(grouped(lines.drop_last()), line_subject(lines.last()), line_unit(lines.last()))
    }
}

/// What parsing `text` yields: the grouped outline, or the error text.
pub open spec fn parsed(text: Seq<char>) -> Result<Seq<SubjectOutline>, Seq<char>> {
    let lines = content_lines(text);
    if !all_entry_lines(lines) {
        Err(invalid_format_message())
    } else if lines.len() == 0 {
        Err(no_entries_message())
    } else {
        Ok(grouped(lines))
    }
}

/// A syllabus that parses has at least one subject, and none of its topics
/// is empty or made of whitespace only.
pub proof fn lemma_parsed_is_nonempty_and_clean(text: Seq<char>)
    ensures
        parsed(text) matches Ok(outline) ==> outline.len() > 0 && topics_not_blank(outline),
{
    let lines = content_lines(text);
    lemma_grouped_len(lines);
    lemma_grouped_topics_not_blank(lines);
}

/// Grouping yields no subject for no line, and at least one otherwise.
pub proof fn lemma_grouped_len(lines: Seq<Seq<char>>)
    ensures
        lines.len() == 0 <==> grouped(lines).len() == 0,
        grouped(lines).len() <= lines.len(),
    decreases lines.len(),
{
    if lines.len() > 0 {
        lemma_grouped_len(lines.drop_last());
    }
}

/// Every group holds at least one unit, and neighbouring groups differ in
/// their subject.
pub proof fn lemma_grouped_shape(lines: Seq<Seq<char>>)
    ensures
        forall|i: int|
            0 <= i < grouped(lines).len() ==> (#[trigger] grouped(lines)[i]).units.len() > 0,
        forall|i: int|
            0 < i < grouped(lines).len() ==> grouped(lines)[i - 1].name != (#[trigger] grouped(
                lines,
            )[i]).name,
        lines.len() > 0 ==> grouped(lines).last().name == line_subject(lines.last()),
    decreases lines.len(),
{
    if lines.len() > 0 {
        lemma_grouped_shape(lines.drop_last());
        lemma_grouped_len(lines.drop_last());
    }
}

/// Each line contributes exactly one unit, and the units stay in the order
/// of the lines: read group after group, they are the units of the lines.
pub proof fn lemma_grouped_units_in_order(lines: Seq<Seq<char>>)
    ensures
        all_units(grouped(lines)) == lines.map_values(|line: Seq<char>| line_unit(line)),
    decreases lines.len(),
{
    let units = lines.map_values(|line: Seq<char>| line_unit(line));
    if lines.len() == 0 {
        assert(all_units(grouped(lines)) =~= units);
    } else {
        let rest = lines.drop_last();
        let before = grouped(rest);
        let after = grouped(lines);
        let unit = line_unit(lines.last());
        lemma_grouped_units_in_order(rest);
        assert(rest.map_values(|line: Seq<char>| line_unit(line)).push(unit) =~= units);
        if before.len() > 0 && before.last().name == line_subject(lines.last()) {
            assert(after.drop_last() =~= before.drop_last());
            assert(all_units(after) =~= all_units(before).push(unit));
        } else {
            assert(after.drop_last() =~= before);
            assert(all_units(after) =~= all_units(before).push(unit));
        }
    }
}

/// The groups hold as many units as there are lines.
pub proof fn lemma_grouped_unit_count(lines: Seq<Seq<char>>)
    ensures
        unit_count(grouped(lines)) == lines.len(),
    decreases lines.len(),
{
    if lines.len() > 0 {
        let before = grouped(lines.drop_last());
        lemma_grouped_unit_count(lines.drop_last());
        let after = grouped(lines);
        if before.len() > 0 && before.last().name == line_subject(lines.last()) {
            assert(after.drop_last() == before.drop_last());
        } else {
            assert(after.drop_last() == before);
        }
    }
}

/// The topics of a comma-separated field are never blank.
pub proof fn lemma_topics_in_not_blank(field: Seq<char>)
    ensures
        forall|k: int| 0 <= k < topics_in(field).len() ==> !is_blank(#[trigger] topics_in(field)[k]),
{
    let parts = pieces(field, topic_separator());
    let cleaned = parts.map_values(|p: Seq<char>| trimmed(p));
    let keep = |p: Seq<char>| p.len() > 0;
    assert forall|k: int| 0 <= k < topics_in(field).len() implies !is_blank(
        #[trigger] topics_in(field)[k],
    ) by {
        let t = topics_in(field)[k];
        cleaned.lemma_filter_pred(keep, k);
        assert(cleaned.filter(keep).contains(t));
        cleaned.lemma_filter_contains_rev(keep, t);
        let j = choose|j: int| 0 <= j < cleaned.len() && cleaned[j] == t;
        assert(t == trimmed(parts[j]));
        crate::text::lemma_trimmed_idempotent(parts[j]);
        lemma_trimmed_empty_iff_blank(t);
    }
}

/// No topic of a grouped outline is blank.
pub proof fn lemma_grouped_topics_not_blank(lines: Seq<Seq<char>>)
    ensures
        topics_not_blank(grouped(lines)),
    decreases lines.len(),
{
    if lines.len() > 0 {
        let before = grouped(lines.drop_last());
        lemma_grouped_topics_not_blank(lines.drop_last());
        let unit = line_unit(lines.last());
        let parts = segments(lines.last());
        lemma_topics_in_not_blank(
            if parts.len() > 2 {
                parts[2]
            } else {
                Seq::empty()
            },
        );
        assert(unit_topics_not_blank(unit));
        let after = grouped(lines);
        assert forall|i: int, j: int|
            0 <= i < after.len() && 0 <= j < after[i].units.len() implies unit_topics_not_blank(
            #[trigger] after[i].units[j],
        ) by {
            if i < after.len() - 1 {
                assert(after[i] == before[i]);
                assert(unit_topics_not_blank(before[i].units[j]));
            } else if before.len() > 0 && before.last().name == line_subject(lines.last()) {
                if j < before.last().units.len() {
                    assert(after[i].units[j] == before.last().units[j]);
                    assert(unit_topics_not_blank(before[before.len() - 1].units[j]));
                }
            }
        }
    }
}

/// Trimming and dropping empty parts leaves no more parts than there are
/// characters in them, and no more characters than there were.
pub proof fn lemma_trimmed_nonempty_size(parts: Seq<Seq<char>>)
    ensures
        trimmed_nonempty(parts).len() <= total_len(trimmed_nonempty(parts)),
        total_len(trimmed_nonempty(parts)) <= total_len(parts),
    decreases parts.len(),
{
    if parts.len() == 0 {
        reveal(Seq::filter);
        assert(trimmed_nonempty(parts) =~= Seq::<Seq<char>>::empty());
    } else {
        let rest = parts.drop_last();
        lemma_trimmed_nonempty_size(rest);
        lemma_trimmed_nonempty_push(rest, parts.last());
        assert(rest.push(parts.last()) =~= parts);
        lemma_trimmed_ends(parts.last());
        if trimmed(parts.last()).len() > 0 {
            assert(trimmed_nonempty(parts).drop_last() =~= trimmed_nonempty(rest));
        }
    }
}

/// A line lists no more topics than it has characters.
pub proof fn lemma_line_topics_size(line: Seq<char>)
    ensures
        line_unit(line).topics.len() <= line.len(),
{
    let raw = pieces(line, delimiter());
    let parts = segments(line);
    lemma_pieces_total_len(line, delimiter(), 0);
    let field = if parts.len() > 2 {
        parts[2]
    } else {
        Seq::<char>::empty()
    };
    if parts.len() > 2 {
        lemma_total_len_bounds_part(raw, 2);
        lemma_trimmed_ends(raw[2]);
    }
    lemma_pieces_total_len(field, topic_separator(), 0);
    lemma_trimmed_nonempty_size(pieces(field, topic_separator()));
}

/// Adding a line to the groups adds the topics of its unit, and nothing else.
pub proof fn lemma_with_line_topic_count(
    groups: Seq<SubjectOutline>,
    subject: Seq<char>,
    unit: UnitOutline,
)
    ensures
        topic_count(with_line(groups, subject, unit)) == topic_count(groups) + unit.topics.len(),
{
    let after = with_line(groups, subject, unit);
    if groups.len() > 0 && groups.last().name == subject {
        assert(after.drop_last() =~= groups.drop_last());
        let units = groups.last().units.push(unit);
        assert(units.drop_last() =~= groups.last().units);
    } else {
        assert(after.drop_last() =~= groups);
        let units = seq![unit];
        assert(units.drop_last() =~= Seq::<UnitOutline>::empty());
        assert(topic_count_of_units(units.drop_last()) == 0);
    }
}

/// The groups hold no more topics than the lines have characters.
pub proof fn lemma_grouped_topic_count(lines: Seq<Seq<char>>)
    ensures
        topic_count(grouped(lines)) <= total_len(lines),
    decreases lines.len(),
{
    if lines.len() > 0 {
        lemma_grouped_topic_count(lines.drop_last());
        lemma_line_topics_size(lines.last());
        lemma_with_line_topic_count(
            grouped(lines.drop_last()),
            line_subject(lines.last()),
            line_unit(lines.last()),
        );
    }
}

/// A syllabus that parses has no more subjects, units or topics than its
/// text has characters.
pub proof fn lemma_parsed_size(text: Seq<char>)
    ensures
        parsed(text) matches Ok(outline) ==> outline.len() <= text.len() && unit_count(outline)
            <= text.len() && topic_count(outline) <= text.len(),
{
    let raw = pieces(text, line_break());
    let lines = content_lines(text);
    lemma_pieces_total_len(text, line_break(), 0);
    lemma_trimmed_nonempty_size(raw);
    lemma_grouped_len(lines);
    lemma_grouped_unit_count(lines);
    lemma_grouped_topic_count(lines);
}

proof fn lemma_trimmed_nonempty_push(parts: Seq<Seq<char>>, p: Seq<char>)
    ensures
        trimmed_nonempty(parts.push(p)) == if trimmed(p).len() > 0 {
            trimmed_nonempty(parts).push(trimmed(p))
        } else {
            trimmed_nonempty(parts)
        },
{
    reveal(Seq::filter);
    let clean = |p: Seq<char>| trimmed(p);
    let all = parts.push(p).map_values(clean);
    assert(all.drop_last() =~= parts.map_values(clean));
}

proof fn lemma_trimmed_nonempty_split(parts: Seq<Seq<char>>, k: int)
    requires
        0 <= k <= parts.len(),
    ensures
        trimmed_nonempty(parts) == trimmed_nonempty(parts.take(k)) + trimmed_nonempty(
            parts.skip(k),
        ),
{
    let clean = |p: Seq<char>| trimmed(p);
    let keep = |p: Seq<char>| p.len() > 0;
    let a = parts.take(k).map_values(clean);
    let b = parts.skip(k).map_values(clean);
    assert(parts.map_values(clean) =~= a + b);
    Seq::filter_distributes_over_add(a, b, keep);
}

fn line_break_chars() -> (v: Vec<char>)
    ensures
        v@ == line_break(),
{
    let mut v: Vec<char> = Vec::new();
    v.push('\n');
    assert(v@ =~= line_break());
    v
}

fn delimiter_chars() -> (v: Vec<char>)
    ensures
        v@ == delimiter(),
{
    let mut v: Vec<char> = Vec::new();
    v.push('>');
    v.push('>');
    v.push('>');
    assert(v@ =~= delimiter());
    v
}

fn topic_separator_chars() -> (v: Vec<char>)
    ensures
        v@ == topic_separator(),
{
    let mut v: Vec<char> = Vec::new();
    v.push(',');
    assert(v@ =~= topic_separator());
    v
}

/// The topics listed in a comma-separated field.
pub fn parse_topics(field: &[char]) -> (topics: Vec<String>)
    ensures
        topics.deep_view() == topics_in(field@),
{
    let separator = topic_separator_chars();
    let parts = split(field, separator.as_slice());
    let ghost all = slices_view(parts@);
    let mut topics: Vec<String> = Vec::new();
    let mut i: usize = 0;
    assert(all.take(0) =~= Seq::<Seq<char>>::empty());
    assert(trimmed_nonempty(Seq::<Seq<char>>::empty()) =~= Seq::<Seq<char>>::empty()) by {
        reveal(Seq::filter);
    }
    assert(topics.deep_view() =~= Seq::<Seq<char>>::empty());
    while i < parts.len()
        invariant
            i <= parts.len(),
            all == slices_view(parts@),
            topics.deep_view() == trimmed_nonempty(all.take(i as int)),
        decreases parts.len() - i,
    {
        let topic = trim(parts[i]);
        proof {
            lemma_trimmed_nonempty_push(all.take(i as int), parts[i as int]@);
            assert(all.take(i + 1) =~= all.take(i as int).push(parts[i as int]@));
        }
        if topic.len() > 0 {
            let ghost before = topics.deep_view();
            let name = string_of(topic);
            topics.push(name);
            assert(topics.deep_view() =~= before.push(name@));
        }
        i = i + 1;
    }
    assert(all.take(parts.len() as int) =~= all);
    topics
}

/// The subject and the unit that a trimmed line names, if it names any.
pub fn parse_line(line: &[char]) -> (r: Option<(String, ParsedUnit)>)
    ensures
        match r {
            Some((subject, unit)) => is_entry_line(line@) && subject@ == line_subject(line@)
                && unit.deep_view() == line_unit(line@),
            None => !is_entry_line(line@),
        },
{
    let delim = delimiter_chars();
    let parts = split(line, delim.as_slice());
    assert(segments(line@).len() == parts.len());
    if parts.len() < 2 {
        return None;
    }
    assert(segments(line@)[0] == trimmed(parts[0]@));
    assert(segments(line@)[1] == trimmed(parts[1]@));
    let subject = string_of(trim(parts[0]));
    let unit_name = string_of(trim(parts[1]));
    let field = if parts.len() > 2 {
        assert(segments(line@)[2] == trimmed(parts[2]@));
        trim(parts[2])
    } else {
        slice_subrange(line, 0, 0)
    };
    assert(parts.len() <= 2 ==> field@ =~= Seq::<char>::empty());
    let topics = parse_topics(field);
    Some((subject, ParsedUnit { unit_name, topics }))
}

/// Adds the unit of one more line to the groups.
fn push_line(entries: &mut Vec<ParsedSyllabusEntry>, subject: String, unit: ParsedUnit)
    ensures
        final(entries).deep_view() == with_line(
            old(entries).deep_view(),
            subject@,
            unit.deep_view(),
        ),
{
    let ghost before = entries.deep_view();
    let ghost added = unit.deep_view();
    match entries.pop() {
        Some(last) => {
            let ghost rest = entries.deep_view();
            assert(rest =~= before.drop_last());
            assert(last.deep_view() == before.last());
            if last.subject_name == subject {
                let mut last = last;
                let ghost units_before = last.units.deep_view();
                last.units.push(unit);
                assert(last.units.deep_view() =~= units_before.push(added));
                let ghost joined = last.deep_view();
                entries.push(last);
                assert(entries.deep_view() =~= rest.push(joined));
            } else {
                let ghost kept = last.deep_view();
                entries.push(last);
                assert(entries.deep_view() =~= before);
                let mut units: Vec<ParsedUnit> = Vec::new();
                units.push(unit);
                assert(units.deep_view() =~= seq![added]);
                let entry = ParsedSyllabusEntry { subject_name: subject, units };
                let ghost opened = entry.deep_view();
                entries.push(entry);
                assert(entries.deep_view() =~= before.push(opened));
            }
        },
        None => {
            assert(before =~= Seq::<SubjectOutline>::empty());
            let mut units: Vec<ParsedUnit> = Vec::new();
            units.push(unit);
            assert(units.deep_view() =~= seq![added]);
            let entry = ParsedSyllabusEntry { subject_name: subject, units };
            let ghost opened = entry.deep_view();
            entries.push(entry);
            assert(entries.deep_view() =~= before.push(opened));
        },
    }
}

/// Parses syllabus text into subjects with their units and topics.
///
/// Blank lines are skipped. Every other line must hold at least a subject and
/// a unit, separated by `>>>`; one line that does not fails the whole parse.
/// A text without any such line fails too.
pub fn parse_syllabus(input: &str) -> (result: Result<Vec<ParsedSyllabusEntry>, String>)
    ensures
        match parsed(input@) {
            Ok(outline) => result matches Ok(entries) && entries.deep_view() == outline,
            Err(message) => result matches Err(e) && e@ == message,
        },
        result matches Ok(entries) ==> entries.len() > 0 && topics_not_blank(entries.deep_view()),
{
    let chars = chars_of(input);
    let newline = line_break_chars();
    let raw_lines = split(chars.as_slice(), newline.as_slice());
    let ghost raw = slices_view(raw_lines@);
    let mut entries: Vec<ParsedSyllabusEntry> = Vec::new();
    let mut i: usize = 0;
    proof {
        assert(raw.take(0) =~= Seq::<Seq<char>>::empty());
        assert(trimmed_nonempty(Seq::<Seq<char>>::empty()) =~= Seq::<Seq<char>>::empty()) by {
            reveal(Seq::filter);
        }
        assert(entries.deep_view() =~= Seq::<SubjectOutline>::empty());
    }
    while i < raw_lines.len()
        invariant
            i <= raw_lines.len(),
            raw == slices_view(raw_lines@),
            raw == pieces(input@, line_break()),
            all_entry_lines(trimmed_nonempty(raw.take(i as int))),
            entries.deep_view() == grouped(trimmed_nonempty(raw.take(i as int))),
        decreases raw_lines.len() - i,
    {
        let line = trim(raw_lines[i]);
        let ghost seen = trimmed_nonempty(raw.take(i as int));
        proof {
            lemma_trimmed_nonempty_push(raw.take(i as int), raw_lines[i as int]@);
            assert(raw.take(i + 1) =~= raw.take(i as int).push(raw_lines[i as int]@));
        }
        if line.len() > 0 {
            let ghost now = seen.push(line@);
            assert(now.drop_last() =~= seen);
            match parse_line(line) {
                Some((subject, unit)) => {
                    push_line(&mut entries, subject, unit);
                },
                None => {
                    proof {
                        lemma_trimmed_nonempty_split(raw, i + 1);
                        let all = content_lines(input@);
                        assert(all[seen.len() as int] == line@);
                        assert(!is_entry_line(all[seen.len() as int]));
                    }
                    return Err(
                        "Invalid format. Expected: 'Subject Name >>> Unit Name >>> topic1, topic2, topic3'".to_owned(),
                    );
                },
            }
        }
        i = i + 1;
    }
    proof {
        assert(raw.take(raw_lines.len() as int) =~= raw);
        lemma_grouped_len(content_lines(input@));
        lemma_parsed_is_nonempty_and_clean(input@);
    }
    if entries.len() == 0 {
        return Err("No valid entries parsed from syllabus".to_owned());
    }
    Ok(entries)
}

} // verus!
