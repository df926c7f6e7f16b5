//! # Amrpt format
//!
//! Structured reports made of titled sections. Section data is held as JSON text.

use crate::json::{
    compact_json, json_accepts, json_compact_text, json_elements, json_members, json_pretty_text, json_str_content, pretty, quote, read_elements,
    read_members, read_str,
};
use crate::keyed::StrMap;
use crate::text::{append_text, string_of};
use crate::time::{utc_display_text, Timestamp};
use crate::{AmandaError, AmandaMetadata};
use vstd::prelude::*;

verus! {

/// Kind of a report section, which decides how its data is rendered.
#[derive(Debug, Clone, Copy, PartialEq, Eq, Structural)]
pub enum SectionType {
    Table,
    Text,
    Metrics,
    Chart,
    List,
}

/// Report section with data.
#[derive(Debug, PartialEq)]
pub struct ReportSection {
    /// Section title.
    pub title: String,
    /// Section type (table, text, chart, ...).
    pub section_type: SectionType,
    /// Section data, as JSON text.
    pub data: String,
    /// Optional metadata for this section.
    pub metadata: Option<StrMap<String>>,
}

#[derive(Debug, PartialEq)]
pub struct ReportMetadata {
    pub amanda: AmandaMetadata,
    pub report_type: String,
    pub title: String,
    pub description: Option<String>,
    pub start_time: Option<Timestamp>,
    pub end_time: Option<Timestamp>,
}

/// Structured report.
#[derive(Debug, PartialEq)]
pub struct Report {
    pub metadata: ReportMetadata,
    pub sections: Vec<ReportSection>,
}

/// A section with the given parts and no metadata.
pub open spec fn plain_section(title: Seq<char>, kind: SectionType, data: Seq<char>, s: ReportSection) -> bool {
    &&& s.title@ == title
    &&& s.section_type == kind
    &&& s.data@ == data
    &&& s.metadata is None
}

/// The rule of sixty `=` that frames the report header.
pub open spec fn rule() -> Seq<char> {
    Seq::new(60, |i: int| '=')
}

/// The report header: title, type and creation time between two rules.
pub open spec fn header_text(m: ReportMetadata) -> Seq<char> {
    rule() + "\n"@ + "  "@ + m.title@ + "\n"@ + "  Type: "@ + m.report_type@ + "\n"@ + "  Generated: "@
        + utc_display_text(m.amanda.created_at@.0, m.amanda.created_at@.1) + "\n"@ + rule() + "\n\n"@
}

/// One `  key: value` line per member.
pub open spec fn members_text(ms: Seq<(Seq<char>, Seq<char>)>) -> Seq<char>
    decreases ms.len(),
{
    if ms.len() == 0 {
        Seq::empty()
    } else {
        members_text(ms.drop_last()) + "  "@ + ms.last().0 + ": "@ + ms.last().1 + "\n"@
    }
}

/// How a list item is shown: a JSON string by its content, anything else as JSON.
pub open spec fn item_text(item: Seq<char>) -> Seq<char> {
    match json_str_content(item) {
        Some(s) => s,
        None => item,
    }
}

/// One `  - item` line per element.
pub open spec fn list_text(items: Seq<Seq<char>>) -> Seq<char>
    decreases items.len(),
{
    if items.len() == 0 {
        Seq::empty()
    } else {
        list_text(items.drop_last()) + "  - "@ + item_text(items.last()) + "\n"@
    }
}

/// The body of a section. For a chart over an object, the bars are drawn by the
/// caller and passed in as `chart`.
pub open spec fn body_text(s: ReportSection, chart: Seq<char>) -> Seq<char> {
    match s.section_type {
        SectionType::Text => match json_str_content(s.data@) {
            Some(t) => t + "\n"@,
            None => Seq::empty(),
        },
        SectionType::Metrics => match json_members(s.data@) {
            Some(ms) => members_text(ms),
            None => Seq::empty(),
        },
        SectionType::List => match json_elements(s.data@) {
            Some(items) => list_text(items),
            None => Seq::empty(),
        },
        SectionType::Chart => match json_members(s.data@) {
            Some(_) => chart,
            None => json_pretty_text(s.data@) + "\n"@,
        },
        SectionType::Table => json_pretty_text(s.data@) + "\n"@,
    }
}

/// A section: `## title`, its body, and a blank line.
pub open spec fn section_text(s: ReportSection, chart: Seq<char>) -> Seq<char> {
    "## "@ + s.title@ + "\n"@ + body_text(s, chart) + "\n"@
}

/// The chart bars given for section `i`, or nothing.
pub open spec fn chart_at(charts: Seq<String>, i: int) -> Seq<char> {
    if 0 <= i < charts.len() {
        charts[i]@
    } else {
        Seq::empty()
    }
}

/// The sections in order, section `i` drawing on the chart bars given for it.
pub open spec fn sections_text(ss: Seq<ReportSection>, charts: Seq<String>) -> Seq<char>
    decreases ss.len(),
{
    if ss.len() == 0 {
        Seq::empty()
    } else {
        sections_text(ss.drop_last(), charts) + section_text(ss.last(), chart_at(charts, ss.len() - 1))
    }
}

/// The plain-text rendering of a report.
pub open spec fn report_text(r: Report, charts: Seq<String>) -> Seq<char> {
    header_text(r.metadata) + sections_text(r.sections@, charts)
}

fn append_rule(v: &mut Vec<char>)
    ensures
        final(v)@ == old(v)@ + rule(),
{
    let ghost start = v@;
    for i in 0..60
        invariant
            v@ == start + Seq::new(i as nat, |k: int| '='),
    {
        v.push('=');
        assert(v@ =~= start + Seq::new((i + 1) as nat, |k: int| '='));
    }
}

fn append_members(v: &mut Vec<char>, ms: &Vec<(String, String)>)
    ensures
        final(v)@ == old(v)@ + members_text(crate::json::pair_views(ms@)),
{
    let ghost start = v@;
    let n = ms.len();
    for i in 0..n
        invariant
            n == ms@.len(),
            v@ == start + members_text(crate::json::pair_views(ms@.take(i as int))),
    {
        append_text(v, "  ");
        append_text(v, ms[i].0.as_str());
        append_text(v, ": ");
        append_text(v, ms[i].1.as_str());
        append_text(v, "\n");
        let ghost p = crate::json::pair_views(ms@.take(i + 1));
        assert(p.drop_last() =~= crate::json::pair_views(ms@.take(i as int)));
        assert(v@ =~= start + members_text(p));
    }
    assert(ms@.take(n as int) =~= ms@);
}

fn append_items(v: &mut Vec<char>, items: &Vec<String>)
    ensures
        final(v)@ == old(v)@ + list_text(crate::json::string_views(items@)),
{
    let ghost start = v@;
    let n = items.len();
    for i in 0..n
        invariant
            n == items@.len(),
            v@ == start + list_text(crate::json::string_views(items@.take(i as int))),
    {
        append_text(v, "  - ");
        match read_str(items[i].as_str()) {
            Some(s) => append_text(v, s.as_str()),
            None => append_text(v, items[i].as_str()),
        }
        append_text(v, "\n");
        let ghost p = crate::json::string_views(items@.take(i + 1));
        assert(p.drop_last() =~= crate::json::string_views(items@.take(i as int)));
        assert(v@ =~= start + list_text(p));
    }
    assert(items@.take(n as int) =~= items@);
}

fn append_body(v: &mut Vec<char>, s: &ReportSection, chart: &str)
    ensures
        final(v)@ == old(v)@ + body_text(*s, chart@),
{
    match s.section_type {
        SectionType::Text => {
            match read_str(s.data.as_str()) {
                Some(t) => {
                    append_text(v, t.as_str());
                    append_text(v, "\n");
                },
                None => {
                    assert(v@ =~= old(v)@ + body_text(*s, chart@));
                },
            }
        },
        SectionType::Metrics => {
            match read_members(s.data.as_str()) {
                Some(ms) => append_members(v, &ms),
                None => {
                    assert(v@ =~= old(v)@ + body_text(*s, chart@));
                },
            }
        },
        SectionType::List => {
            match read_elements(s.data.as_str()) {
                Some(items) => append_items(v, &items),
                None => {
                    assert(v@ =~= old(v)@ + body_text(*s, chart@));
                },
            }
        },
        SectionType::Chart => {
            match read_members(s.data.as_str()) {
                Some(_) => append_text(v, chart),
                None => {
                    let p = pretty(s.data.as_str());
                    append_text(v, p.as_str());
                    append_text(v, "\n");
                },
            }
        },
        SectionType::Table => {
            let p = pretty(s.data.as_str());
            append_text(v, p.as_str());
            append_text(v, "\n");
        },
    }
}

/// What `add_text` stores, `render_text` prints: a text section shows its title,
/// then the text.
pub proof fn lemma_text_section_shows_text(s: ReportSection, text: Seq<char>, chart: Seq<char>)
    requires
        s.section_type == SectionType::Text,
        json_str_content(s.data@) == Some(text),
    ensures
        section_text(s, chart) == "## "@ + s.title@ + "\n"@ + text + "\n"@ + "\n"@,
{
}

/// The rendering starts with the header and shows each section after the ones
/// before it.
pub proof fn lemma_render_extends(r: Report, more: ReportSection, charts: Seq<String>)
    ensures
        sections_text(r.sections@.push(more), charts) == sections_text(r.sections@, charts)
            + section_text(more, chart_at(charts, r.sections@.len() as int)),
{
    assert(r.sections@.push(more).drop_last() =~= r.sections@);
}

/// The line a metric is shown on: `  key: value`.
pub open spec fn member_line(m: (Seq<char>, Seq<char>)) -> Seq<char> {
    "  "@ + m.0 + ": "@ + m.1 + "\n"@
}

/// `needle` occurs in `hay` at some position.
pub open spec fn occurs_at(hay: Seq<char>, needle: Seq<char>, off: int) -> bool {
    0 <= off && off + needle.len() <= hay.len() && hay.subrange(off, off + needle.len()) == needle
}

/// `needle` occurs in `hay`.
pub open spec fn shows(hay: Seq<char>, needle: Seq<char>) -> bool {
    exists|off: int| #[trigger] occurs_at(hay, needle, off)
}

proof fn lemma_shows_within(a: Seq<char>, b: Seq<char>, c: Seq<char>, needle: Seq<char>)
    requires
        shows(b, needle),
    ensures
        shows(a + b + c, needle),
{
    let off = choose|off: int| #[trigger] occurs_at(b, needle, off);
    let h = a + b + c;
    assert(h.subrange(a.len() + off, a.len() + off + needle.len()) =~= b.subrange(off, off + needle.len()));
    assert(occurs_at(h, needle, a.len() + off));
}

/// Metrics are listed in order, one line per member: adding a member adds its line at
/// the end, and the lines of two runs of members are those of the first, then those of
/// the second.
pub proof fn lemma_members_text_lines(ms: Seq<(Seq<char>, Seq<char>)>, more: Seq<(Seq<char>, Seq<char>)>, m: (Seq<char>, Seq<char>))
    ensures
        members_text(ms.push(m)) == members_text(ms) + member_line(m),
        members_text(ms + more) == members_text(ms) + members_text(more),
        members_text(seq![m]) == member_line(m),
    decreases more.len(),
{
    assert(ms.push(m).drop_last() =~= ms);
    assert(seq![m].drop_last() =~= Seq::<(Seq<char>, Seq<char>)>::empty());
    assert(seq![m].last() == m);
    assert(members_text(Seq::<(Seq<char>, Seq<char>)>::empty()) == Seq::<char>::empty());
    assert(members_text(seq![m]) =~= Seq::<char>::empty() + "  "@ + m.0 + ": "@ + m.1 + "\n"@);
    assert(members_text(seq![m]) =~= member_line(m));
    if more.len() == 0 {
        assert(ms + more =~= ms);
    } else {
        lemma_members_text_lines(ms, more.drop_last(), m);
        assert((ms + more).drop_last() =~= ms + more.drop_last());
        assert((ms + more).last() == more.last());
    }
}

/// Every member of a metrics object is shown on a line of its own.
pub proof fn lemma_every_member_shown(ms: Seq<(Seq<char>, Seq<char>)>, i: int)
    requires
        0 <= i < ms.len(),
    ensures
        shows(members_text(ms), member_line(ms[i])),
{
    let a = ms.take(i);
    let b = ms.skip(i + 1);
    assert(ms =~= a + seq![ms[i]] + b);
    lemma_members_text_lines(a, seq![ms[i]], ms[i]);
    lemma_members_text_lines(a + seq![ms[i]], b, ms[i]);
    let line = member_line(ms[i]);
    assert(line.subrange(0, line.len() as int) =~= line);
    assert(occurs_at(line, line, 0));
    lemma_shows_within(members_text(a), line, members_text(b), line);
}

proof fn lemma_section_shown(ss: Seq<ReportSection>, charts: Seq<String>, j: int, needle: Seq<char>)
    requires
        0 <= j < ss.len(),
        shows(section_text(ss[j], chart_at(charts, j)), needle),
    ensures
        shows(sections_text(ss, charts), needle),
    decreases ss.len(),
{
    let t = ss.drop_last();
    let last = section_text(ss.last(), chart_at(charts, ss.len() - 1));
    if j == ss.len() - 1 {
        lemma_shows_within(sections_text(t, charts), last, Seq::empty(), needle);
        assert(sections_text(t, charts) + last + Seq::<char>::empty() =~= sections_text(ss, charts));
    } else {
        assert(t[j] == ss[j]);
        lemma_section_shown(t, charts, j, needle);
        lemma_shows_within(Seq::empty(), sections_text(t, charts), last, needle);
        assert(Seq::<char>::empty() + sections_text(t, charts) + last =~= sections_text(ss, charts));
    }
}

/// The rendering of a report shows every metric of every metrics section on a line of
/// its own, `  key: value`.
pub proof fn lemma_rendering_shows_metrics(r: Report, charts: Seq<String>, j: int, ms: Seq<(Seq<char>, Seq<char>)>, i: int)
    requires
        0 <= j < r.sections@.len(),
        r.sections@[j].section_type == SectionType::Metrics,
        json_members(r.sections@[j].data@) == Some(ms),
        0 <= i < ms.len(),
    ensures
        shows(report_text(r, charts), member_line(ms[i])),
{
    let s = r.sections@[j];
    let chart = chart_at(charts, j);
    lemma_every_member_shown(ms, i);
    lemma_shows_within("## "@ + s.title@ + "\n"@, body_text(s, chart), "\n"@, member_line(ms[i]));
    lemma_section_shown(r.sections@, charts, j, member_line(ms[i]));
    lemma_shows_within(header_text(r.metadata), sections_text(r.sections@, charts), Seq::empty(), member_line(ms[i]));
    assert(header_text(r.metadata) + sections_text(r.sections@, charts) + Seq::<char>::empty() =~= report_text(r, charts));
}

/// The line a list item is shown on: `  - item`.
pub open spec fn item_line(item: Seq<char>) -> Seq<char> {
    "  - "@ + item_text(item) + "\n"@
}

/// Lists are shown in order, one line per element: adding an element adds its line at
/// the end, and the lines of two runs of elements are those of the first, then those of
/// the second.
pub proof fn lemma_list_text_lines(items: Seq<Seq<char>>, more: Seq<Seq<char>>, x: Seq<char>)
    ensures
        list_text(items.push(x)) == list_text(items) + item_line(x),
        list_text(items + more) == list_text(items) + list_text(more),
        list_text(seq![x]) == item_line(x),
    decreases more.len(),
{
    assert(items.push(x).drop_last() =~= items);
    assert(seq![x].drop_last() =~= Seq::<Seq<char>>::empty());
    assert(seq![x].last() == x);
    assert(list_text(Seq::<Seq<char>>::empty()) == Seq::<char>::empty());
    assert(list_text(seq![x]) =~= Seq::<char>::empty() + "  - "@ + item_text(x) + "\n"@);
    assert(list_text(seq![x]) =~= item_line(x));
    if more.len() == 0 {
        assert(items + more =~= items);
    } else {
        lemma_list_text_lines(items, more.drop_last(), x);
        assert((items + more).drop_last() =~= items + more.drop_last());
        assert((items + more).last() == more.last());
    }
}

/// The rendering of a report shows every element of every list section on a line of
/// its own, `  - item`.
pub proof fn lemma_rendering_shows_list_items(r: Report, charts: Seq<String>, j: int, items: Seq<Seq<char>>, i: int)
    requires
        0 <= j < r.sections@.len(),
        r.sections@[j].section_type == SectionType::List,
        json_elements(r.sections@[j].data@) == Some(items),
        0 <= i < items.len(),
    ensures
        shows(report_text(r, charts), item_line(items[i])),
{
    let s = r.sections@[j];
    let chart = chart_at(charts, j);
    let a = items.take(i);
    let b = items.skip(i + 1);
    assert(items =~= a + seq![items[i]] + b);
    lemma_list_text_lines(a, seq![items[i]], items[i]);
    lemma_list_text_lines(a + seq![items[i]], b, items[i]);
    let line = item_line(items[i]);
    assert(line.subrange(0, line.len() as int) =~= line);
    assert(occurs_at(line, line, 0));
    lemma_shows_within(list_text(a), line, list_text(b), line);
    lemma_shows_within("## "@ + s.title@ + "\n"@, body_text(s, chart), "\n"@, line);
    lemma_section_shown(r.sections@, charts, j, line);
    lemma_shows_within(header_text(r.metadata), sections_text(r.sections@, charts), Seq::empty(), line);
    assert(header_text(r.metadata) + sections_text(r.sections@, charts) + Seq::<char>::empty() =~= report_text(r, charts));
}

/// The rendering of a report shows its title and type, and each section's title as a
/// `## title` line.
pub proof fn lemma_rendering_shows_titles(r: Report, charts: Seq<String>, j: int)
    ensures
        shows(report_text(r, charts), "  "@ + r.metadata.title@ + "\n"@),
        shows(report_text(r, charts), "  Type: "@ + r.metadata.report_type@ + "\n"@),
        0 <= j < r.sections@.len() ==> shows(report_text(r, charts), "## "@ + r.sections@[j].title@ + "\n"@),
{
    let m = r.metadata;
    let h = header_text(m);
    let t = "  "@ + m.title@ + "\n"@;
    let ty = "  Type: "@ + m.report_type@ + "\n"@;
    let rest = "  Generated: "@ + utc_display_text(m.amanda.created_at@.0, m.amanda.created_at@.1) + "\n"@ + rule() + "\n\n"@;
    let whole = report_text(r, charts);
    let tail = sections_text(r.sections@, charts);
    assert(whole =~= (rule() + "\n"@) + t + (ty + rest + tail));
    assert(t.subrange(0, t.len() as int) =~= t);
    assert(occurs_at(t, t, 0));
    lemma_shows_within(rule() + "\n"@, t, ty + rest + tail, t);
    assert(whole =~= (rule() + "\n"@ + t) + ty + (rest + tail));
    assert(ty.subrange(0, ty.len() as int) =~= ty);
    assert(occurs_at(ty, ty, 0));
    lemma_shows_within(rule() + "\n"@ + t, ty, rest + tail, ty);
    if 0 <= j < r.sections@.len() {
        let s = r.sections@[j];
        let chart = chart_at(charts, j);
        let line = "## "@ + s.title@ + "\n"@;
        assert(line.subrange(0, line.len() as int) =~= line);
        assert(occurs_at(line, line, 0));
        lemma_shows_within(Seq::empty(), line, body_text(s, chart) + "\n"@, line);
        assert(Seq::<char>::empty() + line + (body_text(s, chart) + "\n"@) =~= section_text(s, chart));
        lemma_section_shown(r.sections@, charts, j, line);
        lemma_shows_within(h, tail, Seq::empty(), line);
        assert(h + tail + Seq::<char>::empty() =~= whole);
    }
}

impl Report {
    /// A new report of type `report_type` titled `title`, started now.
    pub fn new(generator: String, hostname: Option<String>, report_type: String, title: String) -> (r: Self)
        ensures
            r.metadata.amanda.generator == generator,
            r.metadata.amanda.hostname == hostname,
            r.metadata.amanda.version@ == crate::FORMAT_VERSION@,
            r.metadata.report_type == report_type,
            r.metadata.title == title,
            r.metadata.description is None,
            r.metadata.start_time is Some,
            r.metadata.end_time is None,
            r.sections@.len() == 0,
    {
        Report {
            metadata: ReportMetadata {
                amanda: AmandaMetadata::new(generator, hostname),
                report_type,
                title,
                description: None,
                start_time: Some(Timestamp::now()),
                end_time: None,
            },
            sections: Vec::new(),
        }
    }

    /// Appends a section.
    pub fn add_section(&mut self, section: ReportSection) -> (r: &mut Self)
        ensures
            r.sections@ == old(self).sections@.push(section),
            r.metadata == old(self).metadata,
            *final(self) == *final(r),
    {
        self.sections.push(section);
        self
    }

    /// Appends a table section whose rows are the JSON array in the text `rows`, held in
    /// compact form; text that is not JSON is refused with a serialization error and the
    /// report is left as it was.
    pub fn add_table(&mut self, title: String, rows: String) -> (r: Result<&mut Self, AmandaError>)
        ensures
            r is Ok <==> json_accepts(rows@),
            r matches Ok(m) ==> {
                &&& m.sections@.len() == old(self).sections@.len() + 1
                &&& m.sections@.drop_last() == old(self).sections@
                &&& plain_section(title@, SectionType::Table, json_compact_text(rows@), m.sections@.last())
                &&& m.metadata == old(self).metadata
                &&& *final(self) == *final(m)
            },
            r matches Err(e) ==> e is Serialization && *final(self) == *old(self),
    {
        let data = match compact_json(rows.as_str()) {
            Ok(compact) => compact,
            Err(message) => return Err(AmandaError::Serialization(message)),
        };
        let ghost before = self.sections@;
        self.sections.push(ReportSection { title, section_type: SectionType::Table, data, metadata: None });
        assert(self.sections@.drop_last() =~= before);
        Ok(self)
    }

    /// Appends a metrics section whose data is the JSON object in the text `metrics`
    /// (metric names with their values), held in compact form, or JSON `null` where
    /// `metrics` is not JSON.
    pub fn add_metrics(&mut self, title: String, metrics: String) -> (r: &mut Self)
        ensures
            r.sections@.len() == old(self).sections@.len() + 1,
            r.sections@.drop_last() == old(self).sections@,
            plain_section(
                title@,
                SectionType::Metrics,
                if json_accepts(metrics@) { json_compact_text(metrics@) } else { "null"@ },
                r.sections@.last(),
            ),
            r.metadata == old(self).metadata,
            *final(self) == *final(r),
    {
        let data = match compact_json(metrics.as_str()) {
            Ok(compact) => compact,
            Err(_) => "null".to_string(),
        };
        let ghost before = self.sections@;
        self.sections.push(ReportSection { title, section_type: SectionType::Metrics, data, metadata: None });
        assert(self.sections@.drop_last() =~= before);
        self
    }

    /// Appends a text section holding `text`.
    pub fn add_text(&mut self, title: String, text: &str) -> (r: &mut Self)
        ensures
            r.sections@.len() == old(self).sections@.len() + 1,
            r.sections@.drop_last() == old(self).sections@,
            plain_section(title@, SectionType::Text, crate::json::json_string_text(text@), r.sections@.last()),
            json_str_content(r.sections@.last().data@) == Some(text@),
            r.metadata == old(self).metadata,
            *final(self) == *final(r),
    {
        let ghost before = self.sections@;
        let data = quote(text);
        self.sections.push(ReportSection { title, section_type: SectionType::Text, data, metadata: None });
        assert(self.sections@.drop_last() =~= before);
        self
    }

    /// Marks the report finished now.
    pub fn finalize(&mut self) -> (r: &mut Self)
        ensures
            r.metadata.end_time is Some,
            r.metadata.amanda == old(self).metadata.amanda,
            r.metadata.report_type == old(self).metadata.report_type,
            r.metadata.title == old(self).metadata.title,
            r.metadata.description == old(self).metadata.description,
            r.metadata.start_time == old(self).metadata.start_time,
            r.sections == old(self).sections,
            *final(self) == *final(r),
    {
        self.metadata.end_time = Some(Timestamp::now());
        self
    }

    /// Renders the report as plain text. `charts[i]` holds the bars drawn for section
    /// `i` when it is a chart over an object (bars are computed in floating point by the
    /// caller); it is not read for other sections.
    pub fn render_text(&self, charts: &Vec<String>) -> (r: String)
        ensures
            r@ == report_text(*self, charts@),
    {
        let mut v: Vec<char> = Vec::new();
        append_rule(&mut v);
        append_text(&mut v, "\n");
        append_text(&mut v, "  ");
        append_text(&mut v, self.metadata.title.as_str());
        append_text(&mut v, "\n");
        append_text(&mut v, "  Type: ");
        append_text(&mut v, self.metadata.report_type.as_str());
        append_text(&mut v, "\n");
        append_text(&mut v, "  Generated: ");
        let created = self.metadata.amanda.created_at.display_text();
        append_text(&mut v, created.as_str());
        append_text(&mut v, "\n");
        append_rule(&mut v);
        append_text(&mut v, "\n\n");
        let ghost head = v@;
        assert(head =~= header_text(self.metadata));
        let n = self.sections.len();
        for i in 0..n
            invariant
                n == self.sections@.len(),
                head == header_text(self.metadata),
                v@ == head + sections_text(self.sections@.take(i as int), charts@),
        {
            let s = &self.sections[i];
            append_text(&mut v, "## ");
            append_text(&mut v, s.title.as_str());
            append_text(&mut v, "\n");
            if i < charts.len() {
                append_body(&mut v, s, charts[i].as_str());
            } else {
                proof {
                    reveal_strlit("");
                }
                append_body(&mut v, s, "");
            }
            append_text(&mut v, "\n");
            let ghost t = self.sections@.take(i + 1);
            assert(t.drop_last() =~= self.sections@.take(i as int));
            assert(v@ =~= head + sections_text(t, charts@));
        }
        assert(self.sections@.take(n as int) =~= self.sections@);
        string_of(&v)
    }
}

} // verus!
