//! Reading iCalendar events.
//!
//! Shares its line format with vCard — see `contentline` — so what is left here
//! is the part that is genuinely calendar-shaped: nested components, and times
//! that come in four different kinds.
//!
//! **Nesting is not optional to handle.** A VCALENDAR holds VTIMEZONE blocks
//! beside its events, and a VEVENT holds VALARM blocks inside it. Matching
//! BEGIN and END naively finds four components where there is one event, and
//! the alarm's own properties overwrite the event's.
//!
//! **Times are deliberately not resolved.** What arrives is kept as it was
//! written, labelled with which of the four kinds it is, so a caller can
//! decide knowingly. Recurrence is kept raw for the same reason.

use vstd::prelude::*;
use crate::contentline::{
    param_has, param_values, parse_property, property_spec, unescape_chars, unescape_spec,
    unfold, unfold_spec, Property, PropertyView,
};
use crate::text::{
    chars_of, chars_eq, copy_chars, ends_with, eq_ic, eq_ignore_case, has_prefix, join_with,
    slice_chars, split_chars, split_on, starts_with, string_of, trim, trim_chars, upper_chars,
    upper_seq, views,
};

verus! {

/// When something happens, as the calendar wrote it.
#[derive(Debug, Clone, PartialEq, Eq)]
pub enum When {
    /// A whole day, with no time on it: `VALUE=DATE`. Stored as `YYYYMMDD`.
    AllDay(String),
    /// An instant, already in UTC: the value ended in `Z`.
    Utc(String),
    /// A local time in a named zone. The zone is kept, not resolved.
    Zoned { local: String, tzid: String },
    /// A local time with no zone at all — "floating".
    Floating(String),
}

pub enum WhenView {
    AllDay(Seq<char>),
    Utc(Seq<char>),
    Zoned(Seq<char>, Seq<char>),
    Floating(Seq<char>),
}

impl When {
    pub open spec fn view(&self) -> WhenView {
        match self {
            When::AllDay(v) => WhenView::AllDay(v@),
            When::Utc(v) => WhenView::Utc(v@),
            When::Zoned { local, tzid } => WhenView::Zoned(local@, tzid@),
            When::Floating(v) => WhenView::Floating(v@),
        }
    }

    /// A value that sorts correctly within one calendar: the time as written,
    /// without its zone. Not an instant, and not comparable across zones.
    pub fn sort_key(&self) -> (r: &str)
        ensures
            r@ == match self.view() {
                WhenView::AllDay(v) => v,
                WhenView::Utc(v) => v,
                WhenView::Zoned(local, _) => local,
                WhenView::Floating(v) => v,
            },
    {
        match self {
            When::AllDay(v) | When::Utc(v) | When::Floating(v) => v.as_str(),
            When::Zoned { local, .. } => local.as_str(),
        }
    }

    pub fn is_all_day(&self) -> (r: bool)
        ensures
            r == (self.view() is AllDay),
    {
        match self {
            When::AllDay(_) => true,
            _ => false,
        }
    }
}

#[derive(Debug, Clone, Default, PartialEq, Eq)]
pub struct Event {
    pub uid: String,
    pub summary: String,
    pub location: Option<String>,
    pub description: Option<String>,
    pub start: Option<When>,
    /// Absent when the event carried a DURATION instead, or nothing at all.
    pub end: Option<When>,
    /// `DURATION`, verbatim, when that is what the event used.
    pub duration: Option<String>,
    /// The recurrence rule as written. Kept rather than expanded.
    pub rrule: Option<String>,
    /// Set on the single occurrence that overrides a recurring series.
    pub recurrence_id: Option<String>,
    /// True when the event says it is cancelled; it still exists and still
    /// shows, because a cancelled meeting is information.
    pub cancelled: bool,
}

pub struct EventView {
    pub uid: Seq<char>,
    pub summary: Seq<char>,
    pub location: Option<Seq<char>>,
    pub description: Option<Seq<char>>,
    pub start: Option<WhenView>,
    pub end: Option<WhenView>,
    pub duration: Option<Seq<char>>,
    pub rrule: Option<Seq<char>>,
    pub recurrence_id: Option<Seq<char>>,
    pub cancelled: bool,
}

pub open spec fn ov(o: Option<String>) -> Option<Seq<char>> {
    match o {
        Some(s) => Some(s@),
        None => None,
    }
}

pub open spec fn owv(o: Option<When>) -> Option<WhenView> {
    match o {
        Some(w) => Some(w.view()),
        None => None,
    }
}

impl Event {
    pub open spec fn view(&self) -> EventView {
        EventView {
            uid: self.uid@,
            summary: self.summary@,
            location: ov(self.location),
            description: ov(self.description),
            start: owv(self.start),
            end: owv(self.end),
            duration: ov(self.duration),
            rrule: ov(self.rrule),
            recurrence_id: ov(self.recurrence_id),
            cancelled: self.cancelled,
        }
    }
}

pub open spec fn empty_event() -> EventView {
    EventView {
        uid: Seq::empty(),
        summary: Seq::empty(),
        location: None,
        description: None,
        start: None,
        end: None,
        duration: None,
        rrule: None,
        recurrence_id: None,
        cancelled: false,
    }
}

/// The lines of a text as `str::lines` yields them: split at line feeds, a
/// carriage return just before a line feed dropped, and a final empty line
/// (after a trailing line feed, or of an empty text) not counted.
pub open spec fn lines_spec(s: Seq<char>) -> Seq<Seq<char>> {
    let p = split_on(s, '\n');
    let init = p.drop_last().map_values(|l: Seq<char>| crate::contentline::strip_cr(l));
    if p.last().len() == 0 {
        init
    } else {
        init.push(p.last())
    }
}

/// One component and the lines belonging to it.
pub struct ComponentView {
    pub name: Seq<char>,
    pub lines: Seq<Seq<char>>,
}

pub struct SplitState {
    pub out: Seq<ComponentView>,
    pub depth: nat,
    pub current: Option<ComponentView>,
}

pub open spec fn keep_line(st: SplitState, line: Seq<char>) -> SplitState {
    match st.current {
        Some(c) => SplitState {
            out: st.out,
            depth: st.depth,
            current: Some(ComponentView { name: c.name, lines: c.lines.push(line) }),
        },
        None => st,
    }
}

/// One line read by the component splitter. Only the outermost BEGIN starts
/// a component and only the matching END finishes it; every other line,
/// nested BEGIN and END lines included, belongs to the open component.
pub open spec fn split_step(st: SplitState, line: Seq<char>) -> SplitState {
    let upper = upper_seq(trim(line));
    if starts_with(upper, "BEGIN:"@) {
        if st.depth + 1 == 1 {
            SplitState {
                out: st.out,
                depth: 1,
                current: Some(
                    ComponentView { name: trim(upper.skip("BEGIN:"@.len() as int)), lines: seq![] },
                ),
            }
        } else {
            keep_line(SplitState { out: st.out, depth: st.depth + 1, current: st.current }, line)
        }
    } else if starts_with(upper, "END:"@) {
        let d: nat = if st.depth > 0 {
            (st.depth - 1) as nat
        } else {
            0
        };
        if d == 0 {
            SplitState {
                out: match st.current {
                    Some(c) => st.out.push(c),
                    None => st.out,
                },
                depth: 0,
                current: None,
            }
        } else {
            keep_line(SplitState { out: st.out, depth: d, current: st.current }, line)
        }
    } else {
        keep_line(st, line)
    }
}

pub open spec fn split_steps(lines: Seq<Seq<char>>) -> SplitState
    decreases lines.len(),
{
    if lines.len() == 0 {
        SplitState { out: seq![], depth: 0, current: None }
    } else {
        split_step(split_steps(lines.drop_last()), lines.last())
    }
}

/// The top-level components of the lines, nesting kept inside them; an
/// unterminated component is still returned with what it holds.
pub open spec fn components_spec(lines: Seq<Seq<char>>) -> Seq<ComponentView> {
    let st = split_steps(lines);
    match st.current {
        Some(c) => st.out.push(c),
        None => st.out,
    }
}

pub open spec fn set_value(ev: EventView, name: Seq<char>, p: PropertyView, value: Seq<char>) -> EventView {
    if name == "uid"@ {
        EventView { uid: value, ..ev }
    } else if name == "summary"@ {
        EventView { summary: value, ..ev }
    } else if name == "location"@ {
        EventView { location: Some(value), ..ev }
    } else if name == "description"@ {
        EventView { description: Some(value), ..ev }
    } else if name == "rrule"@ {
        EventView { rrule: Some(value), ..ev }
    } else if name == "recurrence-id"@ {
        EventView { recurrence_id: Some(value), ..ev }
    } else if name == "status"@ {
        EventView { cancelled: eq_ic(value, "CANCELLED"@), ..ev }
    } else if name == "duration"@ {
        EventView { duration: Some(value), ..ev }
    } else if name == "dtstart"@ {
        EventView { start: Some(when_spec(p, value)), ..ev }
    } else if name == "dtend"@ {
        EventView { end: Some(when_spec(p, value)), ..ev }
    } else {
        ev
    }
}

/// Which of the four kinds a time is: `VALUE=DATE` is a whole day, a value
/// ending in `Z` is UTC, a `TZID` parameter names a zone (kept in its own
/// case), and anything else floats.
pub open spec fn when_spec(p: PropertyView, value: Seq<char>) -> WhenView {
    if param_has(p.params, "value"@, "DATE"@) {
        WhenView::AllDay(value)
    } else if value.len() > 0 && value.last() == 'Z' {
        WhenView::Utc(value)
    } else {
        match param_values(p.params, "tzid"@) {
            Some(vs) if vs.len() > 0 => WhenView::Zoned(value, vs[0]),
            _ => WhenView::Floating(value),
        }
    }
}

pub struct ReadState {
    pub ev: EventView,
    pub depth: nat,
}

/// One line of an event. Lines inside a nested component (an alarm) are
/// skipped; so are lines that are not properties and empty values.
pub open spec fn read_step(st: ReadState, line: Seq<char>) -> ReadState {
    let upper = upper_seq(trim(line));
    if starts_with(upper, "BEGIN:"@) {
        ReadState { ev: st.ev, depth: st.depth + 1 }
    } else if starts_with(upper, "END:"@) {
        ReadState {
            ev: st.ev,
            depth: if st.depth > 0 {
                (st.depth - 1) as nat
            } else {
                0
            },
        }
    } else if st.depth > 0 {
        st
    } else {
        match property_spec(line) {
            Some(p) => {
                let value = trim(unescape_spec(p.value));
                if value.len() == 0 {
                    st
                } else {
                    ReadState { ev: set_value(st.ev, p.name, p, value), depth: st.depth }
                }
            },
            None => st,
        }
    }
}

pub open spec fn read_steps(lines: Seq<Seq<char>>) -> ReadState
    decreases lines.len(),
{
    if lines.len() == 0 {
        ReadState { ev: empty_event(), depth: 0 }
    } else {
        read_step(read_steps(lines.drop_last()), lines.last())
    }
}

/// The value a top-level `STATUS` line gives, when the line is one.
pub open spec fn status_value(line: Seq<char>) -> Option<Seq<char>> {
    let upper = upper_seq(trim(line));
    if starts_with(upper, "BEGIN:"@) || starts_with(upper, "END:"@) {
        None
    } else {
        match property_spec(line) {
            Some(p) => if p.name == "status"@ && trim(unescape_spec(p.value)).len() > 0 {
                Some(trim(unescape_spec(p.value)))
            } else {
                None
            },
            None => None,
        }
    }
}

/// A `STATUS` line of the event itself decides whether the event is
/// cancelled: it is exactly when the status is `CANCELLED`, in any case, so a
/// confirmed or tentative event is never shown as cancelled.
pub proof fn lemma_status_decides_cancelled(st: ReadState, line: Seq<char>)
    requires
        st.depth == 0,
        status_value(line) is Some,
    ensures
        read_step(st, line).ev.cancelled == eq_ic(status_value(line)->0, "CANCELLED"@),
        eq_ic(status_value(line)->0, "CONFIRMED"@) ==> !read_step(st, line).ev.cancelled,
        eq_ic(status_value(line)->0, "TENTATIVE"@) ==> !read_step(st, line).ev.cancelled,
{
    reveal_strlit("CANCELLED");
    reveal_strlit("CONFIRMED");
    reveal_strlit("TENTATIVE");
    reveal_strlit("status");
    reveal_strlit("uid");
    reveal_strlit("summary");
    reveal_strlit("location");
    reveal_strlit("description");
    reveal_strlit("rrule");
    reveal_strlit("recurrence-id");
    let v = status_value(line)->0;
    let p = property_spec(line)->0;
    assert(p.name == "status"@);
    assert("status"@ != "uid"@ && "status"@ != "summary"@ && "status"@ != "location"@);
    assert("status"@ != "description"@ && "status"@ != "rrule"@ && "status"@ != "recurrence-id"@);
    assert(set_value(st.ev, p.name, p, v).cancelled == eq_ic(v, "CANCELLED"@));
    assert(read_step(st, line).ev == set_value(st.ev, p.name, p, v));
    if eq_ic(v, "CONFIRMED"@) && eq_ic(v, "CANCELLED"@) {
        assert(crate::text::lower_seq("CONFIRMED"@)[1] == crate::text::lower_seq("CANCELLED"@)[1]);
        assert(crate::text::lower('O') as u32 == 111);
        assert(crate::text::lower('A') as u32 == 97);
    }
    if eq_ic(v, "TENTATIVE"@) && eq_ic(v, "CANCELLED"@) {
        assert(crate::text::lower_seq("TENTATIVE"@)[0] == crate::text::lower_seq("CANCELLED"@)[0]);
        assert(crate::text::lower('T') as u32 == 116);
        assert(crate::text::lower('C') as u32 == 99);
    }
}

/// No other line touches the cancelled flag: not a property of another name,
/// not a line inside a nested component, not a `BEGIN` or `END`.
pub proof fn lemma_other_lines_keep_cancelled(st: ReadState, line: Seq<char>)
    requires
        st.depth > 0 || status_value(line) is None,
    ensures
        read_step(st, line).ev.cancelled == st.ev.cancelled,
{
}

/// An event none of whose own lines carries a `STATUS` is not cancelled.
pub proof fn lemma_cancelled_needs_a_status(lines: Seq<Seq<char>>)
    requires
        forall|k: int| 0 <= k < lines.len() ==> (#[trigger] status_value(lines[k])) is None,
    ensures
        !read_steps(lines).ev.cancelled,
    decreases lines.len(),
{
    if lines.len() > 0 {
        let init = lines.drop_last();
        assert forall|k: int| 0 <= k < init.len() implies (#[trigger] status_value(init[k])) is None by {
            assert(init[k] == lines[k]);
        }
        lemma_cancelled_needs_a_status(init);
        assert(status_value(lines[lines.len() - 1]) is None);
        lemma_other_lines_keep_cancelled(read_steps(init), lines.last());
    }
}

/// The property a line of the event itself gives, when it is one with a
/// non-blank value.
pub open spec fn event_property(line: Seq<char>) -> Option<PropertyView> {
    let upper = upper_seq(trim(line));
    if starts_with(upper, "BEGIN:"@) || starts_with(upper, "END:"@) {
        None
    } else {
        match property_spec(line) {
            Some(p) => if trim(unescape_spec(p.value)).len() > 0 {
                Some(p)
            } else {
                None
            },
            None => None,
        }
    }
}

/// Lines inside a nested component (an alarm, say) never touch the event:
/// an alarm's own `SUMMARY` or `DESCRIPTION` does not overwrite the event's.
pub proof fn lemma_nested_lines_leave_the_event(st: ReadState, line: Seq<char>)
    requires
        st.depth > 0,
    ensures
        read_step(st, line).ev == st.ev,
{
}

/// A line of the event sets the one field its property names, to the
/// line's unescaped, trimmed value, and leaves every other field as it was;
/// a property the event does not read changes nothing.
pub proof fn lemma_event_line_sets_its_field(st: ReadState, line: Seq<char>)
    requires
        st.depth == 0,
        event_property(line) is Some,
    ensures
        ({
            let p = event_property(line)->0;
            let v = trim(unescape_spec(p.value));
            let ev = st.ev;
            let out = read_step(st, line).ev;
            &&& p.name == "uid"@ ==> out == EventView { uid: v, ..ev }
            &&& p.name == "summary"@ ==> out == EventView { summary: v, ..ev }
            &&& p.name == "location"@ ==> out == EventView { location: Some(v), ..ev }
            &&& p.name == "description"@ ==> out == EventView { description: Some(v), ..ev }
            &&& p.name == "rrule"@ ==> out == EventView { rrule: Some(v), ..ev }
            &&& p.name == "recurrence-id"@ ==> out == EventView { recurrence_id: Some(v), ..ev }
            &&& p.name == "duration"@ ==> out == EventView { duration: Some(v), ..ev }
            &&& p.name == "dtstart"@ ==> (out.start matches Some(w) && out == EventView {
                start: Some(w),
                ..ev
            })
            &&& p.name == "dtend"@ ==> (out.end matches Some(w) && out == EventView { end: Some(w), ..ev })
            &&& p.name == "status"@ ==> out == EventView { cancelled: out.cancelled, ..ev }
            &&& !(p.name == "uid"@ || p.name == "summary"@ || p.name == "location"@ || p.name
                == "description"@ || p.name == "rrule"@ || p.name == "recurrence-id"@ || p.name
                == "duration"@ || p.name == "dtstart"@ || p.name == "dtend"@ || p.name
                == "status"@) ==> out == ev
        }),
{
    reveal_strlit("uid");
    reveal_strlit("summary");
    reveal_strlit("location");
    reveal_strlit("description");
    reveal_strlit("rrule");
    reveal_strlit("recurrence-id");
    reveal_strlit("status");
    reveal_strlit("duration");
    reveal_strlit("dtstart");
    reveal_strlit("dtend");
    let p = event_property(line)->0;
    let v = trim(unescape_spec(p.value));
    assert(read_step(st, line).ev == set_value(st.ev, p.name, p, v));
    assert("uid"@.len() == 3 && "summary"@.len() == 7 && "location"@.len() == 8);
    assert("description"@.len() == 11 && "rrule"@.len() == 5 && "recurrence-id"@.len() == 13);
    assert("status"@.len() == 6 && "duration"@.len() == 8 && "dtstart"@.len() == 7);
    assert("dtend"@.len() == 5);
    assert("summary"@[0] != "dtstart"@[0] && "location"@[0] != "duration"@[0]);
    assert("rrule"@[0] != "dtend"@[0]);
}

/// A time is kept exactly as written and labelled with its kind: a whole
/// day under `VALUE=DATE`, UTC when it ends in `Z`, in the zone its `TZID`
/// names, and floating otherwise.
pub proof fn lemma_time_kinds(p: PropertyView, v: Seq<char>)
    ensures
        match when_spec(p, v) {
            WhenView::AllDay(x) => x == v,
            WhenView::Utc(x) => x == v,
            WhenView::Zoned(x, _) => x == v,
            WhenView::Floating(x) => x == v,
        },
        param_has(p.params, "value"@, "DATE"@) ==> when_spec(p, v) is AllDay,
        !param_has(p.params, "value"@, "DATE"@) && v.len() > 0 && v.last() == 'Z' ==> when_spec(
            p,
            v,
        ) is Utc,
        !param_has(p.params, "value"@, "DATE"@) && !(v.len() > 0 && v.last() == 'Z') ==> (
        param_values(p.params, "tzid"@) matches Some(vs) ==> (vs.len() > 0 ==> when_spec(p, v)
            == WhenView::Zoned(v, vs[0]))),
        when_spec(p, v) is Floating <==> (!param_has(p.params, "value"@, "DATE"@) && !(v.len() > 0
            && v.last() == 'Z') && !(param_values(p.params, "tzid"@) matches Some(vs) && vs.len() > 0)),
{
}

/// The event a component's lines describe, if it has a start and a UID.
pub open spec fn event_spec(lines: Seq<Seq<char>>) -> Option<EventView> {
    let ev = read_steps(lines).ev;
    if ev.start is Some && ev.uid.len() > 0 {
        Some(ev)
    } else {
        None
    }
}

pub open spec fn push_event(out: Seq<EventView>, lines: Seq<Seq<char>>) -> Seq<EventView> {
    match event_spec(lines) {
        Some(e) => out.push(e),
        None => out,
    }
}

/// The VEVENTs among components, in order.
pub open spec fn vevents(comps: Seq<ComponentView>) -> Seq<EventView>
    decreases comps.len(),
{
    if comps.len() == 0 {
        seq![]
    } else if comps.last().name == "VEVENT"@ {
        push_event(vevents(comps.drop_last()), comps.last().lines)
    } else {
        vevents(comps.drop_last())
    }
}

/// The events of the top-level components: a VEVENT directly, and the
/// VEVENTs one level inside a VCALENDAR, whose lines are re-joined and split
/// again. Anything else is passed over.
pub open spec fn events_of(comps: Seq<ComponentView>) -> Seq<EventView>
    decreases comps.len(),
{
    if comps.len() == 0 {
        seq![]
    } else {
        let out = events_of(comps.drop_last());
        let c = comps.last();
        if c.name == "VCALENDAR"@ {
            out + vevents(components_spec(lines_spec(join_with(c.lines, '\n'))))
        } else if c.name == "VEVENT"@ {
            push_event(out, c.lines)
        } else {
            out
        }
    }
}

/// What `parse` returns for a calendar text.
pub open spec fn parse_spec(raw: Seq<char>) -> Seq<EventView> {
    events_of(components_spec(lines_spec(unfold_spec(raw))))
}

pub open spec fn events_view(v: Seq<Event>) -> Seq<EventView> {
    v.map_values(|e: Event| e.view())
}

struct Component {
    name: Vec<char>,
    lines: Vec<Vec<char>>,
}

impl Component {
    spec fn view(&self) -> ComponentView {
        ComponentView { name: self.name@, lines: views(self.lines@) }
    }
}

spec fn comps_view(v: Seq<Component>) -> Seq<ComponentView> {
    v.map_values(|c: Component| c.view())
}

proof fn lemma_begin_not_end(s: Seq<char>)
    ensures
        starts_with(s, "BEGIN:"@) ==> !starts_with(s, "END:"@),
{
    reveal_strlit("BEGIN:");
    reveal_strlit("END:");
    if starts_with(s, "BEGIN:"@) && starts_with(s, "END:"@) {
        assert(s[0] == s.take(6)[0]);
        assert(s[0] == s.take(4)[0]);
    }
}

/// `str::lines`.
pub fn lines_of(v: &[char]) -> (r: Vec<Vec<char>>)
    ensures
        views(r@) == lines_spec(v@),
{
    let pieces = split_chars(v, '\n');
    proof {
        crate::text::lemma_split_nonempty(v@, '\n');
    }
    let ghost p = views(pieces@);
    let mut out: Vec<Vec<char>> = Vec::new();
    let mut i: usize = 0;
    while i + 1 < pieces.len()
        invariant
            i + 1 <= pieces.len(),
            p == views(pieces@),
            p == split_on(v@, '\n'),
            views(out@) == p.drop_last().take(i as int).map_values(
                |l: Seq<char>| crate::contentline::strip_cr(l),
            ),
        decreases pieces.len() - i,
    {
        let line = &pieces[i];
        let mut end = line.len();
        if end > 0 && line[end - 1] == '\r' {
            end = end - 1;
        }
        let l = slice_chars(line.as_slice(), 0, end);
        assert(l@ =~= crate::contentline::strip_cr(p[i as int]));
        let ghost od = views(out@);
        out.push(l);
        assert(views(out@) =~= od.push(l@));
        i += 1;
        assert(views(out@) =~= p.drop_last().take(i as int).map_values(
            |l: Seq<char>| crate::contentline::strip_cr(l),
        ));
    }
    assert(p.drop_last().take(i as int) =~= p.drop_last());
    let last = &pieces[pieces.len() - 1];
    if last.len() > 0 {
        let ghost od = views(out@);
        out.push(copy_chars(last.as_slice()));
        assert(views(out@) =~= od.push(p.last()));
    }
    out
}

fn split_components(lines: &Vec<Vec<char>>) -> (r: Vec<Component>)
    ensures
        comps_view(r@) == components_spec(views(lines@)),
{
    let begin = chars_of("BEGIN:");
    let end = chars_of("END:");
    let mut out: Vec<Component> = Vec::new();
    let mut depth: usize = 0;
    let mut current: Option<Component> = None;
    let mut i: usize = 0;
    while i < lines.len()
        invariant
            i <= lines.len(),
            begin@ == "BEGIN:"@,
            end@ == "END:"@,
            depth <= i,
            ({
                let st = split_steps(views(lines@).take(i as int));
                &&& comps_view(out@) == st.out
                &&& depth == st.depth
                &&& match current {
                    Some(c) => st.current == Some(c.view()),
                    None => st.current is None,
                }
            }),
        decreases lines.len() - i,
    {
        let ghost ls = views(lines@);
        assert(ls.take(i + 1).drop_last() =~= ls.take(i as int));
        assert(ls.take(i + 1).last() == lines@[i as int]@);
        let line = &lines[i];
        let upper = upper_chars(&trim_chars(line.as_slice()));
        let ghost st0 = split_steps(ls.take(i as int));
        proof {
            lemma_begin_not_end(upper@);
        }
        if has_prefix(&upper, &begin) {
            depth = depth + 1;
            if depth == 1 {
                let rest = slice_chars(&upper, begin.len(), upper.len());
                assert(rest@ =~= upper@.skip("BEGIN:"@.len() as int));
                let c = Component { name: trim_chars(&rest), lines: Vec::new() };
                assert(c.view().lines =~= Seq::<Seq<char>>::empty());
                current = Some(c);
                i += 1;
                continue ;
            }
        }
        if has_prefix(&upper, &end) {
            if depth > 0 {
                depth = depth - 1;
            }
            if depth == 0 {
                let taken = current;
                current = None;
                match taken {
                    Some(c) => {
                        let ghost ov = comps_view(out@);
                        let ghost cv = c.view();
                        out.push(c);
                        assert(comps_view(out@) =~= ov.push(cv));
                    },
                    None => {},
                }
                i += 1;
                continue ;
            }
        }
        let cur = current;
        current = match cur {
            Some(mut c) => {
                let ghost ol = views(c.lines@);
                c.lines.push(copy_chars(line.as_slice()));
                assert(views(c.lines@) =~= ol.push(line@));
                Some(c)
            },
            None => None,
        };
        i += 1;
    }
    assert(views(lines@).take(lines.len() as int) =~= views(lines@));
    match current {
        Some(c) => {
            let ghost ov = comps_view(out@);
            let ghost cv = c.view();
            out.push(c);
            assert(comps_view(out@) =~= ov.push(cv));
        },
        None => {},
    }
    out
}

/// Whether the characters spell the literal.
fn is_named(name: &[char], lit: &str) -> (r: bool)
    ensures
        r == (name@ == lit@),
{
    let l = chars_of(lit);
    chars_eq(name, &l)
}

fn read_when(property: &Property, value: &Vec<char>) -> (r: When)
    ensures
        r.view() == when_spec(property.view(), value@),
{
    if property.param_is("value", "DATE") {
        return When::AllDay(string_of(value));
    }
    if value.len() > 0 && value[value.len() - 1] == 'Z' {
        return When::Utc(string_of(value));
    }
    match property.params.get("tzid") {
        Some(vs) => {
            if vs.len() > 0 {
                assert(crate::contentline::strings_view(vs@)[0] == vs@[0]@);
                When::Zoned { local: string_of(value), tzid: vs[0].clone() }
            } else {
                When::Floating(string_of(value))
            }
        },
        None => When::Floating(string_of(value)),
    }
}

fn set_field(ev: &mut Event, name: &Vec<char>, property: &Property, value: &Vec<char>)
    ensures
        final(ev).view() == set_value(old(ev).view(), name@, property.view(), value@),
{
    if is_named(name, "uid") {
        ev.uid = string_of(value);
    } else if is_named(name, "summary") {
        ev.summary = string_of(value);
    } else if is_named(name, "location") {
        ev.location = Some(string_of(value));
    } else if is_named(name, "description") {
        ev.description = Some(string_of(value));
    } else if is_named(name, "rrule") {
        ev.rrule = Some(string_of(value));
    } else if is_named(name, "recurrence-id") {
        ev.recurrence_id = Some(string_of(value));
    } else if is_named(name, "status") {
        let cancelled = chars_of("CANCELLED");
        ev.cancelled = eq_ignore_case(value, &cancelled);
    } else if is_named(name, "duration") {
        ev.duration = Some(string_of(value));
    } else if is_named(name, "dtstart") {
        ev.start = Some(read_when(property, value));
    } else if is_named(name, "dtend") {
        ev.end = Some(read_when(property, value));
    }
}

fn new_event() -> (r: Event)
    ensures
        r.view() == empty_event(),
{
    let r = Event {
        uid: String::new(),
        summary: String::new(),
        location: None,
        description: None,
        start: None,
        end: None,
        duration: None,
        rrule: None,
        recurrence_id: None,
        cancelled: false,
    };
    assert(r.view().uid =~= empty_event().uid);
    assert(r.view().summary =~= empty_event().summary);
    r
}

fn read_event(lines: &Vec<Vec<char>>) -> (r: Option<Event>)
    ensures
        r matches Some(e) ==> event_spec(views(lines@)) == Some(e.view()),
        r is None ==> event_spec(views(lines@)) is None,
{
    let begin = chars_of("BEGIN:");
    let end = chars_of("END:");
    let mut ev = new_event();
    let mut depth: usize = 0;
    let mut i: usize = 0;
    while i < lines.len()
        invariant
            i <= lines.len(),
            begin@ == "BEGIN:"@,
            end@ == "END:"@,
            depth <= i,
            ev.view() == read_steps(views(lines@).take(i as int)).ev,
            depth == read_steps(views(lines@).take(i as int)).depth,
        decreases lines.len() - i,
    {
        let ghost ls = views(lines@);
        assert(ls.take(i + 1).drop_last() =~= ls.take(i as int));
        assert(ls.take(i + 1).last() == lines@[i as int]@);
        let line = &lines[i];
        let upper = upper_chars(&trim_chars(line.as_slice()));
        i += 1;
        if has_prefix(&upper, &begin) {
            depth = depth + 1;
            continue ;
        }
        if has_prefix(&upper, &end) {
            if depth > 0 {
                depth = depth - 1;
            }
            continue ;
        }
        if depth > 0 {
            continue ;
        }
        let text = string_of(line.as_slice());
        let property = match parse_property(text.as_str()) {
            Some(p) => p,
            None => {
                continue ;
            },
        };
        let raw = chars_of(property.value);
        let value = trim_chars(&unescape_chars(&raw));
        if value.len() == 0 {
            continue ;
        }
        let name = chars_of(property.name.as_str());
        set_field(&mut ev, &name, &property, &value);
    }
    assert(views(lines@).take(lines.len() as int) =~= views(lines@));
    if ev.start.is_some() && ev.uid.as_str().unicode_len() > 0 {
        Some(ev)
    } else {
        None
    }
}

fn push_read_event(out: &mut Vec<Event>, lines: &Vec<Vec<char>>)
    ensures
        events_view(final(out)@) == push_event(events_view(old(out)@), views(lines@)),
{
    match read_event(lines) {
        Some(e) => {
            let ghost ov = events_view(out@);
            let ghost evv = e.view();
            out.push(e);
            assert(events_view(out@) =~= ov.push(evv));
        },
        None => {},
    }
}

/// Reads the events in a calendar.
///
/// A VCALENDAR wrapper is unwrapped; VTIMEZONE and anything else is passed
/// over. Reminders arrive as VTODO and are not events, which is why a
/// calendar-query asks for VEVENT specifically.
pub fn parse(raw: &str) -> (r: Vec<Event>)
    ensures
        events_view(r@) == parse_spec(raw@),
{
    let unfolded = unfold(raw);
    let top = split_components(&lines_of(&chars_of(unfolded.as_str())));
    let mut events: Vec<Event> = Vec::new();
    let mut i: usize = 0;
    while i < top.len()
        invariant
            i <= top.len(),
            comps_view(top@) == components_spec(lines_spec(unfold_spec(raw@))),
            events_view(events@) == events_of(comps_view(top@).take(i as int)),
        decreases top.len() - i,
    {
        let ghost cs = comps_view(top@);
        assert(cs.take(i + 1).drop_last() =~= cs.take(i as int));
        assert(cs.take(i + 1).last() == top@[i as int].view());
        let component = &top[i];
        if is_named(&component.name, "VCALENDAR") {
            // The events are one level in. Re-splitting the inside gives them
            // as components in their own right.
            let inside = crate::text::join_chars(&component.lines, '\n');
            let inner = split_components(&lines_of(&inside));
            let ghost before = events_view(events@);
            let mut j: usize = 0;
            while j < inner.len()
                invariant
                    j <= inner.len(),
                    events_view(events@) == before + vevents(comps_view(inner@).take(j as int)),
                decreases inner.len() - j,
            {
                let ghost ics = comps_view(inner@);
                assert(ics.take(j + 1).drop_last() =~= ics.take(j as int));
                assert(ics.take(j + 1).last() == inner@[j as int].view());
                if is_named(&inner[j].name, "VEVENT") {
                    push_read_event(&mut events, &inner[j].lines);
                    proof {
                        let x = before + vevents(ics.take(j as int));
                        match event_spec(inner@[j as int].view().lines) {
                            Some(e) => {
                                assert(x.push(e) =~= before + vevents(ics.take(j as int)).push(e));
                            },
                            None => {},
                        }
                    }
                }
                j += 1;
            }
            assert(comps_view(inner@).take(inner.len() as int) =~= comps_view(inner@));
        } else if is_named(&component.name, "VEVENT") {
            push_read_event(&mut events, &component.lines);
        }
        i += 1;
    }
    assert(comps_view(top@).take(top.len() as int) =~= comps_view(top@));
    events
}

} // verus!
