//! The line format vCard and iCalendar share.
//!
//! RFC 6350 and RFC 5545 describe different things in the same syntax: lines of
//! `group.NAME;PARAM=value:content`, folded anywhere by a following space, with
//! commas and semicolons escaped inside values. Two of the rules read the wrong
//! way round and are worth naming, because getting either backwards produces
//! output that looks correct:
//!
//!   - Unfold before anything else. A long address or a base64 photo may be
//!     broken across lines at any point.
//!   - Split on unescaped separators *before* unescaping, or `ORG:A\; B`
//!     becomes `A`.

use vstd::prelude::*;
use crate::text::{
    chars_of, eq_ic, eq_ignore_case, find_first, find_last, first_index, join_with, last_index,
    lower_chars, lower_seq, push_char, slice_chars, split_chars, split_on, string_of, trim,
    trim_char, trim_char_chars, trim_chars, views, lemma_split_nonempty, lemma_split_join,
    lemma_split_without_sep, lemma_split_concat, lemma_split_append_plain,
    lemma_split_pieces_plain,
};

verus! {

/// Parameters of a property, keyed by lowercased name, each with its values
/// in the order they appeared. No key occurs twice.
#[derive(Debug, Clone, PartialEq, Eq)]
pub struct Params {
    pub entries: Vec<(String, Vec<String>)>,
}

pub type ParamsView = Seq<(Seq<char>, Seq<Seq<char>>)>;

pub open spec fn strings_view(v: Seq<String>) -> Seq<Seq<char>> {
    v.map_values(|s: String| s@)
}

impl Params {
    pub open spec fn view(&self) -> ParamsView {
        self.entries@.map_values(|e: (String, Vec<String>)| (e.0@, strings_view(e.1@)))
    }

    /// Whether `key` carries `value`, compared without ASCII case.
    pub fn has(&self, key: &str, value: &str) -> (r: bool)
        ensures
            r == param_has(self.view(), key@, value@),
    {
        match self.get(key) {
            Some(values) => {
                let want = chars_of(value);
                let ghost vs = strings_view(values@);
                let mut i: usize = 0;
                while i < values.len()
                    invariant
                        i <= values.len(),
                        vs == strings_view(values@),
                        param_values(self.view(), key@) == Some(vs),
                        want@ == value@,
                        forall|j: int| 0 <= j < i ==> !eq_ic(#[trigger] vs[j], value@),
                    decreases values.len() - i,
                {
                    let item = chars_of(values[i].as_str());
                    assert(vs[i as int] == values@[i as int]@);
                    if eq_ignore_case(&item, &want) {
                        assert(eq_ic(vs[i as int], value@));
                        assert(exists|j: int| 0 <= j < vs.len() && eq_ic(#[trigger] vs[j], value@));
                        let ghost w = param_values(self.view(), key@)->0;
                        assert(w == vs);
                        assert(eq_ic(w[i as int], value@));
                        return true;
                    }
                    i += 1;
                }
                false
            },
            None => false,
        }
    }

    /// The values given for `key`, if the key occurred.
    pub fn get(&self, key: &str) -> (r: Option<&Vec<String>>)
        ensures
            r matches Some(v) ==> param_values(self.view(), key@) == Some(strings_view(v@)),
            r is None ==> param_values(self.view(), key@) is None,
    {
        let k = chars_of(key);
        let mut i: usize = 0;
        while i < self.entries.len()
            invariant
                i <= self.entries.len(),
                k@ == key@,
                key_index(self.view(), key@) == key_index_from(self.view(), key@, i as int),
            decreases self.entries.len() - i,
        {
            let name = chars_of(self.entries[i].0.as_str());
            if crate::text::chars_eq(&name, &k) {
                assert(self.view()[i as int].0 == key@);
                return Some(&self.entries[i].1);
            }
            i += 1;
        }
        None
    }
}

/// Index of the first entry with this key.
pub open spec fn key_index_from(ps: ParamsView, key: Seq<char>, from: int) -> Option<int>
    decreases ps.len() - from,
{
    if from < 0 || from >= ps.len() {
        None
    } else if ps[from].0 == key {
        Some(from)
    } else {
        key_index_from(ps, key, from + 1)
    }
}

pub open spec fn key_index(ps: ParamsView, key: Seq<char>) -> Option<int> {
    key_index_from(ps, key, 0)
}

pub open spec fn param_values(ps: ParamsView, key: Seq<char>) -> Option<Seq<Seq<char>>> {
    match key_index(ps, key) {
        Some(i) => Some(ps[i].1),
        None => None,
    }
}

/// Whether some value of `key` equals `value`, compared without ASCII case.
pub open spec fn param_has(ps: ParamsView, key: Seq<char>, value: Seq<char>) -> bool {
    match param_values(ps, key) {
        Some(vs) => exists|i: int| 0 <= i < vs.len() && eq_ic(#[trigger] vs[i], value),
        None => false,
    }
}

/// Records one more value under `key`.
pub open spec fn add_value(ps: ParamsView, key: Seq<char>, v: Seq<char>) -> ParamsView {
    match key_index(ps, key) {
        Some(i) => ps.update(i, (key, ps[i].1.push(v))),
        None => ps.push((key, seq![v])),
    }
}

/// No key occurs twice.
pub open spec fn param_keys_unique(ps: ParamsView) -> bool {
    forall|i: int, j: int| 0 <= i < j < ps.len() ==> #[trigger] ps[i].0 != #[trigger] ps[j].0
}

proof fn lemma_key_index_from(ps: ParamsView, key: Seq<char>, from: int)
    requires
        0 <= from,
    ensures
        key_index_from(ps, key, from) matches Some(i) ==> from <= i < ps.len() && ps[i].0 == key,
        key_index_from(ps, key, from) is None ==> forall|i: int|
            from <= i < ps.len() ==> (#[trigger] ps[i]).0 != key,
    decreases ps.len() - from,
{
    if from < ps.len() && ps[from].0 != key {
        lemma_key_index_from(ps, key, from + 1);
        assert forall|i: int| from <= i < ps.len() && key_index_from(ps, key, from) is None implies (
        #[trigger] ps[i]).0 != key by {
            if i > from {
                assert(from + 1 <= i);
            }
        }
    }
}

/// Recording a value keeps every key once: a known key gets the value, an
/// unknown one a new entry at the end.
pub proof fn lemma_add_value_unique(ps: ParamsView, key: Seq<char>, v: Seq<char>)
    requires
        param_keys_unique(ps),
    ensures
        param_keys_unique(add_value(ps, key, v)),
{
    lemma_key_index_from(ps, key, 0);
    let r = add_value(ps, key, v);
    match key_index(ps, key) {
        Some(k) => {
            assert forall|i: int, j: int| 0 <= i < j < r.len() implies #[trigger] r[i].0
                != #[trigger] r[j].0 by {
                assert(ps[i].0 != ps[j].0);
                if i == k {
                    assert(r[i].0 == ps[k].0);
                }
                if j == k {
                    assert(r[j].0 == ps[k].0);
                }
            }
        },
        None => {
            assert forall|i: int, j: int| 0 <= i < j < r.len() implies #[trigger] r[i].0
                != #[trigger] r[j].0 by {
                if j == ps.len() {
                    assert(ps[i].0 != key);
                } else {
                    assert(ps[i].0 != ps[j].0);
                }
            }
        },
    }
}

proof fn lemma_add_values_unique(ps: ParamsView, key: Seq<char>, ones: Seq<Seq<char>>)
    requires
        param_keys_unique(ps),
    ensures
        param_keys_unique(add_values(ps, key, ones)),
    decreases ones.len(),
{
    if ones.len() > 0 {
        lemma_add_values_unique(ps, key, ones.drop_last());
        lemma_add_value_unique(
            add_values(ps, key, ones.drop_last()),
            key,
            clean_value(ones.last()),
        );
    }
}

/// The parameters of a property line list each key once.
pub proof fn lemma_add_parts_unique(ps: ParamsView, parts: Seq<Seq<char>>)
    requires
        param_keys_unique(ps),
    ensures
        param_keys_unique(add_parts(ps, parts)),
    decreases parts.len(),
{
    if parts.len() > 0 {
        lemma_add_parts_unique(ps, parts.drop_last());
        let kr = part_key_raw(parts.last());
        lemma_add_values_unique(add_parts(ps, parts.drop_last()), kr.0, split_unquoted_spec(kr.1, ','));
    }
}

impl Params {
    pub fn new() -> (r: Params)
        ensures
            r.view() == Seq::<(Seq<char>, Seq<Seq<char>>)>::empty(),
            param_keys_unique(r.view()),
    {
        let r = Params { entries: Vec::new() };
        assert(r.view() =~= Seq::<(Seq<char>, Seq<Seq<char>>)>::empty());
        r
    }

    /// Records `value` under `key`, after any values the key already has.
    pub fn add(&mut self, key: &[char], value: &[char])
        ensures
            final(self).view() == add_value(old(self).view(), key@, value@),
            param_keys_unique(old(self).view()) ==> param_keys_unique(final(self).view()),
    {
        proof {
            if param_keys_unique(self.view()) {
                lemma_add_value_unique(self.view(), key@, value@);
            }
        }
        let ghost ps = self.view();
        let mut i: usize = 0;
        while i < self.entries.len()
            invariant
                i <= self.entries.len(),
                self.view() == ps,
                ps == old(self).view(),
                key_index(ps, key@) == key_index_from(ps, key@, i as int),
            decreases self.entries.len() - i,
        {
            let name = chars_of(self.entries[i].0.as_str());
            if crate::text::chars_eq(&name, key) {
                assert(ps[i as int].0 == key@);
                assert(key_index(ps, key@) == Some(i as int));
                let (k, mut vals) = self.entries.remove(i);
                let ghost old_vals = vals@;
                vals.push(string_of(value));
                assert(strings_view(vals@) =~= strings_view(old_vals).push(value@));
                self.entries.insert(i, (k, vals));
                assert(self.view() =~= ps.update(i as int, (key@, ps[i as int].1.push(value@))));
                assert(add_value(ps, key@, value@) == ps.update(
                    i as int,
                    (key@, ps[i as int].1.push(value@)),
                ));
                assert(ps == old(self).view());
                return;
            }
            i += 1;
        }
        let mut vals: Vec<String> = Vec::new();
        vals.push(string_of(value));
        assert(strings_view(vals@) =~= seq![value@]);
        self.entries.push((string_of(key), vals));
        assert(self.view() =~= ps.push((key@, seq![value@])));
    }
}

/// A parameter value with its surrounding quotes and whitespace removed.
pub open spec fn clean_value(one: Seq<char>) -> Seq<char> {
    trim(trim_char(one, '"'))
}

/// Adds the non-empty cleaned values to `key`, in order.
pub open spec fn add_values(ps: ParamsView, key: Seq<char>, ones: Seq<Seq<char>>) -> ParamsView
    decreases ones.len(),
{
    if ones.len() == 0 {
        ps
    } else {
        let p = add_values(ps, key, ones.drop_last());
        let c = clean_value(ones.last());
        if c.len() > 0 {
            add_value(p, key, c)
        } else {
            p
        }
    }
}

/// A parameter's key and its raw values: `KEY=values` gives the lowercased
/// key, and a bare word is shorthand for a `type` value.
pub open spec fn part_key_raw(part: Seq<char>) -> (Seq<char>, Seq<char>) {
    match first_index(part, '=') {
        Some(k) => (lower_seq(part.take(k)), part.skip(k + 1)),
        None => (seq!['t', 'y', 'p', 'e'], part),
    }
}

/// The parameters the given `;`-separated parts add.
pub open spec fn add_parts(ps: ParamsView, parts: Seq<Seq<char>>) -> ParamsView
    decreases parts.len(),
{
    if parts.len() == 0 {
        ps
    } else {
        let p = add_parts(ps, parts.drop_last());
        let kr = part_key_raw(parts.last());
        add_values(p, kr.0, split_unquoted_spec(kr.1, ','))
    }
}

/// The colon at `i` is the first one outside double quotes.
pub open spec fn is_name_end(line: Seq<char>, i: int) -> bool {
    &&& 0 <= i < line.len()
    &&& line[i] == ':'
    &&& !in_quotes(line.take(i))
    &&& forall|j: int| 0 <= j < i ==> !(line[j] == ':' && !in_quotes(#[trigger] line.take(j)))
}

/// What `parse_property` reads from a line: everything before the first
/// unquoted colon is the name and parameters, everything after it the value.
/// The name part is the first `;`-separated piece; a group prefix ends at its
/// last dot. A line with no such colon, or a blank name, is no property.
pub open spec fn property_spec(line: Seq<char>) -> Option<PropertyView> {
    if exists|i: int| is_name_end(line, i) {
        let i = choose|i: int| is_name_end(line, i);
        let parts = split_unquoted_spec(line.take(i), ';');
        let name_part = parts[0];
        let gn = match last_index(name_part, '.') {
            Some(k) => (Some(lower_seq(name_part.take(k))), name_part.skip(k + 1)),
            None => (None, name_part),
        };
        if trim(gn.1).len() == 0 {
            None
        } else {
            Some(
                PropertyView {
                    name: lower_seq(trim(gn.1)),
                    params: add_parts(Seq::empty(), parts.skip(1)),
                    group: gn.0,
                    value: line.skip(i + 1),
                },
            )
        }
    } else {
        None
    }
}

proof fn lemma_name_end_unique(line: Seq<char>, i: int, j: int)
    requires
        is_name_end(line, i),
        is_name_end(line, j),
    ensures
        i == j,
{
    if i < j {
        assert(line.take(i) == line.take(i));
    } else if j < i {
        assert(line.take(j) == line.take(j));
    }
}

fn add_values_exec(params: &mut Params, key: &[char], ones: &Vec<Vec<char>>)
    ensures
        final(params).view() == add_values(old(params).view(), key@, views(ones@)),
{
    let mut i: usize = 0;
    while i < ones.len()
        invariant
            i <= ones.len(),
            params.view() == add_values(old(params).view(), key@, views(ones@).take(i as int)),
        decreases ones.len() - i,
    {
        let ghost before = views(ones@).take(i as int);
        assert(views(ones@).take(i + 1).drop_last() =~= before);
        assert(views(ones@).take(i + 1).last() == ones@[i as int]@);
        let stripped = trim_char_chars(ones[i].as_slice(), '"');
        let cleaned = trim_chars(&stripped);
        if cleaned.len() > 0 {
            params.add(key, &cleaned);
        }
        i += 1;
    }
    assert(views(ones@).take(ones.len() as int) =~= views(ones@));
}

fn part_key_raw_exec(part: &[char]) -> (r: (Vec<char>, Vec<char>))
    ensures
        (r.0@, r.1@) == part_key_raw(part@),
{
    match find_first(part, '=') {
        Some(k) => {
            let key = slice_chars(part, 0, k);
            let raw = slice_chars(part, k + 1, part.len());
            assert(key@ =~= part@.take(k as int));
            assert(raw@ =~= part@.skip(k + 1));
            (lower_chars(&key), raw)
        },
        None => {
            let mut key: Vec<char> = Vec::new();
            key.push('t');
            key.push('y');
            key.push('p');
            key.push('e');
            assert(key@ =~= seq!['t', 'y', 'p', 'e']);
            (key, crate::text::copy_chars(part))
        },
    }
}

/// One property line, after unfolding.
pub struct Property<'a> {
    /// Lowercased and trimmed, with any group prefix removed.
    pub name: String,
    /// Lowercased keys; values keep their case because labels are text.
    pub params: Params,
    /// The group this property belonged to, if any, lowercased.
    pub group: Option<String>,
    /// Exactly as it appeared, still escaped.
    pub value: &'a str,
}

/// What `parse_property` makes of a line.
pub struct PropertyView {
    pub name: Seq<char>,
    pub params: ParamsView,
    pub group: Option<Seq<char>>,
    pub value: Seq<char>,
}

impl<'a> Property<'a> {
    pub open spec fn view(&self) -> PropertyView {
        PropertyView {
            name: self.name@,
            params: self.params.view(),
            group: match self.group {
                Some(g) => Some(g@),
                None => None,
            },
            value: self.value@,
        }
    }

    /// The first value of a parameter, lowercased.
    pub fn param(&self, key: &str) -> (r: Option<String>)
        ensures
            r matches Some(s) ==> param_values(self.params.view(), key@) matches Some(vs) && vs.len()
                > 0 && s@ == lower_seq(vs[0]),
            r is None ==> !(param_values(self.params.view(), key@) matches Some(vs) && vs.len()
                > 0),
    {
        match self.params.get(key) {
            Some(values) => {
                if values.len() > 0 {
                    assert(strings_view(values@)[0] == values@[0]@);
                    let v = chars_of(values[0].as_str());
                    Some(string_of(&lower_chars(&v)))
                } else {
                    None
                }
            },
            None => None,
        }
    }

    /// Whether a parameter carries a value, compared without case.
    pub fn param_is(&self, key: &str, value: &str) -> (r: bool)
        ensures
            r == param_has(self.params.view(), key@, value@),
    {
        self.params.has(key, value)
    }

}

/// Where the name and parameters end: the first colon outside quotes.
fn find_name_end(v: &Vec<char>) -> (r: Option<usize>)
    ensures
        r matches Some(i) ==> is_name_end(v@, i as int),
        r is None ==> forall|k: int| !is_name_end(v@, k),
{
    let mut quoted = false;
    let mut i: usize = 0;
    while i < v.len()
        invariant
            i <= v.len(),
            quoted == in_quotes(v@.take(i as int)),
            forall|j: int| 0 <= j < i ==> !(v@[j] == ':' && !in_quotes(#[trigger] v@.take(j))),
        decreases v.len() - i,
    {
        if v[i] == ':' && !quoted {
            return Some(i);
        }
        if v[i] == '"' {
            quoted = !quoted;
        }
        assert(v@.take(i + 1).drop_last() =~= v@.take(i as int));
        i += 1;
    }
    None
}

/// Splits `group.NAME;PARAM=a,b;FLAG:value`.
pub fn parse_property(line: &str) -> (r: Option<Property<'_>>)
    ensures
        r matches Some(p) ==> property_spec(line@) == Some(p.view()),
        r matches Some(p) ==> param_keys_unique(p.params.view()),
        r is None ==> property_spec(line@) is None,
{
    let v = chars_of(line);
    // The first unquoted colon ends the name and parameters. Quoted, because a
    // parameter value may legitimately contain one — a TZID often does.
    let colon = match find_name_end(&v) {
        Some(i) => i,
        None => {
            assert forall|k: int| !is_name_end(line@, k) by {}
            return None;
        },
    };
    assert(v@ == line@);
    assert(is_name_end(line@, colon as int));
    proof {
        assert forall|k: int| is_name_end(line@, k) implies k == colon by {
            lemma_name_end_unique(line@, k, colon as int);
        }
    }
    let head = slice_chars(&v, 0, colon);
    assert(head@ =~= line@.take(colon as int));
    assert(colon < v.len());
    let value = line.substring_char(colon + 1, v.len());
    assert(value@ =~= line@.skip(colon + 1));

    let parts = split_unquoted_chars(&head, ';');
    proof {
        lemma_split_unquoted_nonempty(head@, ';');
    }
    let name_part = &parts[0];
    assert(name_part@ == views(parts@)[0]);
    let (group, name) = match find_last(name_part.as_slice(), '.') {
        Some(k) => {
            let g = slice_chars(name_part.as_slice(), 0, k);
            let n = slice_chars(name_part.as_slice(), k + 1, name_part.len());
            assert(g@ =~= name_part@.take(k as int));
            assert(n@ =~= name_part@.skip(k + 1));
            (Some(string_of(&lower_chars(&g))), n)
        },
        None => (None, crate::text::copy_chars(name_part.as_slice())),
    };
    let trimmed = trim_chars(&name);
    if trimmed.len() == 0 {
        return None;
    }
    let mut params = Params::new();
    let mut p: usize = 1;
    while p < parts.len()
        invariant
            1 <= p <= parts.len(),
            params.view() == add_parts(Seq::empty(), views(parts@).skip(1).take(p - 1)),
        decreases parts.len() - p,
    {
        let ghost done = views(parts@).skip(1).take(p - 1);
        assert(views(parts@).skip(1).take(p as int).drop_last() =~= done);
        assert(views(parts@).skip(1).take(p as int).last() == parts@[p as int]@);
        let (key, raw) = part_key_raw_exec(parts[p].as_slice());
        let ones = split_unquoted_chars(&raw, ',');
        add_values_exec(&mut params, &key, &ones);
        p += 1;
    }
    assert(views(parts@).skip(1).take(parts.len() - 1) =~= views(parts@).skip(1));
    proof {
        lemma_add_parts_unique(Seq::empty(), views(parts@).skip(1));
    }
    let r = Property { name: string_of(&lower_chars(&trimmed)), params, group, value };
    Some(r)
}

/// `s` with one trailing `\r` removed, if it has one.
pub open spec fn strip_cr(s: Seq<char>) -> Seq<char> {
    if s.len() > 0 && s.last() == '\r' {
        s.drop_last()
    } else {
        s
    }
}

pub open spec fn is_fold(l: Seq<char>) -> bool {
    l.len() > 0 && (l[0] == ' ' || l[0] == '\t')
}

/// The result of rejoining the first lines of a text.
pub open spec fn unfold_lines(lines: Seq<Seq<char>>) -> Seq<char>
    decreases lines.len(),
{
    if lines.len() == 0 {
        Seq::<char>::empty()
    } else {
        let out = unfold_lines(lines.drop_last());
        let l = strip_cr(lines.last());
        if is_fold(l) && out.len() > 0 {
            out + l.drop_first()
        } else if out.len() > 0 {
            out.push('\n') + l
        } else {
            l
        }
    }
}

/// What `unfold` returns: the text split at line feeds, each line shorn of a
/// trailing carriage return, and a line that starts with a space or tab
/// appended, without that character, to what came before it.
pub open spec fn unfold_spec(raw: Seq<char>) -> Seq<char> {
    unfold_lines(split_on(raw, '\n'))
}

pub open spec fn ends_cr(s: Seq<char>) -> bool {
    s.len() > 0 && s.last() == '\r'
}

/// Some line before `n` holds text once its carriage return is stripped.
pub open spec fn text_before(ls: Seq<Seq<char>>, n: int) -> bool {
    exists|j: int| 0 <= j < n && (#[trigger] strip_cr(ls[j])).len() > 0
}

/// A line that is a single space or tab.
pub open spec fn lone_blank(l: Seq<char>) -> bool {
    is_fold(l) && l.len() == 1
}

/// Line `j` is empty once its carriage return is stripped, some line before
/// it holds text, and every line after it and before `k` is a lone blank:
/// the last line of the text unfolded so far is empty when line `k` comes.
pub open spec fn blank_run(ls: Seq<Seq<char>>, j: int, k: int) -> bool {
    &&& 0 <= j < k
    &&& strip_cr(ls[j]).len() == 0
    &&& text_before(ls, j)
    &&& forall|m: int| j < m < k ==> lone_blank(#[trigger] strip_cr(ls[m]))
}

/// Line `k` comes after an empty line that follows text, with nothing but
/// lone blanks between.
pub open spec fn after_empty_line(ls: Seq<Seq<char>>, k: int) -> bool {
    exists|j: int| #[trigger] blank_run(ls, j, k)
}

/// The lines that unfolding settles in one pass: no line still ends in a
/// carriage return once its own is stripped, and a continuation line that
/// comes after an empty line following text (which it joins to that empty
/// line) does not start with a second space or tab.
pub open spec fn lines_settle(ls: Seq<Seq<char>>) -> bool {
    &&& forall|k: int| 0 <= k < ls.len() ==> !ends_cr(strip_cr(#[trigger] ls[k]))
    &&& forall|k: int|
        0 <= k < ls.len() && after_empty_line(ls, k) && is_fold(strip_cr(#[trigger] ls[k]))
            ==> !is_fold(strip_cr(ls[k]).drop_first())
}

/// The texts that unfolding settles in one pass (see `lines_settle`).
pub open spec fn unfold_settles(raw: Seq<char>) -> bool {
    lines_settle(split_on(raw, '\n'))
}

/// Where unfolding the first `n` lines stands.
spec fn unfolded_ok(ls: Seq<Seq<char>>, n: int, out: Seq<char>) -> bool {
    let sl = split_on(out, '\n');
    &&& (out.len() > 0 <==> text_before(ls, n))
    &&& (out.len() > 0 ==> sl[0].len() > 0)
    &&& forall|i: int| 1 <= i < sl.len() ==> !is_fold(#[trigger] sl[i])
    &&& forall|i: int| 0 <= i < sl.len() ==> !ends_cr(#[trigger] sl[i])
    &&& (sl.len() >= 2 && sl.last().len() == 0 ==> after_empty_line(ls, n))
}

proof fn lemma_unfold_step(ls: Seq<Seq<char>>, n: int)
    requires
        0 <= n < ls.len(),
        forall|k: int| 0 <= k < ls.len() ==> !(#[trigger] ls[k]).contains('\n'),
        lines_settle(ls),
        unfolded_ok(ls, n, unfold_lines(ls.take(n))),
    ensures
        unfolded_ok(ls, n + 1, unfold_lines(ls.take(n + 1))),
{
    let out = unfold_lines(ls.take(n));
    let sl = split_on(out, '\n');
    lemma_split_nonempty(out, '\n');
    assert(ls.take(n + 1).drop_last() =~= ls.take(n));
    assert(ls.take(n + 1).last() == ls[n]);
    let c = strip_cr(ls[n]);
    assert(!ls[n].contains('\n'));
    assert(!c.contains('\n')) by {
        if c.contains('\n') {
            let q = choose|q: int| 0 <= q < c.len() && c[q] == '\n';
            assert(ls[n][q] == '\n');
        }
    }
    assert(!ends_cr(c));
    let out2 = unfold_lines(ls.take(n + 1));
    assert(text_before(ls, n + 1) <==> (text_before(ls, n) || c.len() > 0)) by {
        if c.len() > 0 {
            assert(strip_cr(ls[n]).len() > 0);
        }
        if text_before(ls, n) {
            let j = choose|j: int| 0 <= j < n && (#[trigger] strip_cr(ls[j])).len() > 0;
            assert(0 <= j < n + 1 && strip_cr(ls[j]).len() > 0);
        }
        if text_before(ls, n + 1) && !text_before(ls, n) {
            let j = choose|j: int| 0 <= j < n + 1 && (#[trigger] strip_cr(ls[j])).len() > 0;
            if j < n {
                assert(text_before(ls, n));
            }
        }
    }
    if is_fold(c) && out.len() > 0 {
        let t = c.drop_first();
        assert(out2 == out + t);
        assert(!t.contains('\n')) by {
            if t.contains('\n') {
                let q = choose|q: int| 0 <= q < t.len() && t[q] == '\n';
                assert(c[q + 1] == '\n');
            }
        }
        lemma_split_append_plain(out, t, '\n');
        let sl2 = split_on(out2, '\n');
        let last = sl.len() - 1;
        assert(sl2 == sl.update(last, sl.last() + t));
        assert(sl2[last] == sl.last() + t);
        if sl.len() >= 2 && sl.last().len() == 0 {
            assert(after_empty_line(ls, n));
            assert(!is_fold(t));
            assert(sl2[last] =~= t);
            if t.len() == 0 {
                assert(lone_blank(c));
                let j = choose|j: int| #[trigger] blank_run(ls, j, n);
                assert forall|m: int| j < m < n + 1 implies lone_blank(
                    #[trigger] strip_cr(ls[m]),
                ) by {
                    if m < n {
                        assert(j < m < n);
                    }
                }
                assert(text_before(ls, j));
                assert(blank_run(ls, j, n + 1));
            }
        }
        assert(sl.len() == 1 ==> sl2[last].len() > 0) by {
            if sl.len() == 1 {
                assert(sl[0].len() > 0);
            }
        }
        assert forall|i: int| 1 <= i < sl2.len() implies !is_fold(#[trigger] sl2[i]) by {
            if i == last {
                assert(sl[i] == sl.last());
                if sl.last().len() > 0 {
                    assert(!is_fold(sl[i]));
                    assert(sl2[i][0] == sl.last()[0]);
                }
            } else {
                assert(sl2[i] == sl[i]);
            }
        }
        if sl2.len() >= 2 && sl2.last().len() == 0 {
            assert(sl.last().len() == 0);
        }
        assert forall|i: int| 0 <= i < sl2.len() implies !ends_cr(#[trigger] sl2[i]) by {
            if i == last {
                if t.len() > 0 {
                    assert(sl2[i].last() == t.last());
                    assert(t.last() == c.last());
                } else {
                    assert(sl2[i] =~= sl.last());
                    assert(!ends_cr(sl[i]));
                }
            } else {
                assert(sl2[i] == sl[i]);
            }
        }
        if sl.len() == 1 {
            assert(sl2[0] == sl[0] + t);
        } else {
            assert(sl2[0] == sl[0]);
        }
    } else if out.len() > 0 {
        assert(out2 == out.push('\n') + c);
        lemma_split_concat(out, c, '\n');
        lemma_split_without_sep(c, '\n');
        let sl2 = split_on(out2, '\n');
        assert(sl2 == sl + seq![c]);
        assert(sl2[0] == sl[0]);
        assert forall|i: int| 1 <= i < sl2.len() implies !is_fold(#[trigger] sl2[i]) by {
            if i < sl.len() {
                assert(sl2[i] == sl[i]);
            } else {
                assert(sl2[i] == c);
            }
        }
        assert forall|i: int| 0 <= i < sl2.len() implies !ends_cr(#[trigger] sl2[i]) by {
            if i < sl.len() {
                assert(sl2[i] == sl[i]);
            } else {
                assert(sl2[i] == c);
            }
        }
        assert(sl2.last() == c);
        if c.len() == 0 {
            assert(strip_cr(ls[n]).len() == 0);
            assert(blank_run(ls, n, n + 1));
        }
    } else {
        assert(out2 == c);
        lemma_split_without_sep(c, '\n');
        let sl2 = split_on(out2, '\n');
        assert(sl2 == seq![c]);
        assert(sl2[0] == c);
    }
}

proof fn lemma_unfold_prefix(ls: Seq<Seq<char>>, n: int)
    requires
        0 <= n <= ls.len(),
        forall|k: int| 0 <= k < ls.len() ==> !(#[trigger] ls[k]).contains('\n'),
        lines_settle(ls),
    ensures
        unfolded_ok(ls, n, unfold_lines(ls.take(n))),
    decreases n,
{
    if n == 0 {
        assert(ls.take(0) =~= Seq::<Seq<char>>::empty());
        let sl = split_on(Seq::<char>::empty(), '\n');
        assert(sl =~= seq![Seq::<char>::empty()]);
        assert(sl[0] =~= Seq::<char>::empty());
    } else {
        lemma_unfold_prefix(ls, n - 1);
        lemma_unfold_step(ls, n - 1);
    }
}

proof fn lemma_join_len(p: Seq<Seq<char>>)
    requires
        p.len() >= 1,
    ensures
        join_with(p, '\n').len() >= p[0].len(),
    decreases p.len(),
{
    if p.len() > 1 {
        lemma_join_len(p.drop_last());
    }
}

proof fn lemma_unfold_joined(sl: Seq<Seq<char>>, m: int)
    requires
        1 <= m <= sl.len(),
        forall|i: int| 1 <= i < sl.len() ==> !is_fold(#[trigger] sl[i]),
        forall|i: int| 0 <= i < sl.len() ==> !ends_cr(#[trigger] sl[i]),
        sl.len() >= 2 ==> sl[0].len() > 0,
    ensures
        unfold_lines(sl.take(m)) == join_with(sl.take(m), '\n'),
    decreases m,
{
    let p = sl.take(m);
    assert(p.drop_last() =~= sl.take(m - 1));
    assert(p.last() == sl[m - 1]);
    assert(!ends_cr(sl[m - 1]));
    assert(strip_cr(sl[m - 1]) == sl[m - 1]);
    if m == 1 {
        assert(sl.take(0) =~= Seq::<Seq<char>>::empty());
        assert(unfold_lines(sl.take(0)) =~= Seq::<char>::empty());
        assert(unfold_lines(p) == sl[0]);
        assert(join_with(p, '\n') == p[0]);
    } else {
        lemma_unfold_joined(sl, m - 1);
        lemma_join_len(sl.take(m - 1));
        assert(sl.take(m - 1)[0] == sl[0]);
        assert(!is_fold(sl[m - 1]));
        let out = unfold_lines(sl.take(m - 1));
        assert(out.len() > 0);
        assert(unfold_lines(p) == out.push('\n') + sl[m - 1]);
        assert(join_with(p, '\n') == join_with(p.drop_last(), '\n').push('\n') + p.last());
    }
}

/// Unfolding settles in one pass: unfolded text unfolds to itself, and no
/// line after the first is left standing as a continuation line. This
/// holds of every text where no line keeps a carriage return once its own
/// is stripped (so of every text without carriage returns) and no
/// continuation line that is joined to an empty line after text starts
/// with a second space or tab.
pub proof fn lemma_unfold_settles(raw: Seq<char>)
    requires
        unfold_settles(raw),
    ensures
        unfold_spec(unfold_spec(raw)) == unfold_spec(raw),
        forall|i: int|
            1 <= i < split_on(unfold_spec(raw), '\n').len() ==> !is_fold(
                #[trigger] split_on(unfold_spec(raw), '\n')[i],
            ),
{
    let ls = split_on(raw, '\n');
    lemma_split_pieces_plain(raw, '\n');
    lemma_unfold_prefix(ls, ls.len() as int);
    assert(ls.take(ls.len() as int) =~= ls);
    let u = unfold_spec(raw);
    let sl = split_on(u, '\n');
    lemma_split_nonempty(u, '\n');
    assert(sl.len() >= 2 ==> sl[0].len() > 0) by {
        if sl.len() >= 2 && u.len() == 0 {
            assert(sl =~= seq![Seq::<char>::empty()]);
        }
    }
    lemma_unfold_joined(sl, sl.len() as int);
    assert(sl.take(sl.len() as int) =~= sl);
    lemma_split_join(u, '\n');
}

/// Rejoins continuation lines.
///
/// A line may be broken anywhere by starting the next one with a space or tab.
/// Parsing without rejoining splits a base64 photo into nonsense and truncates
/// any value long enough to wrap.
pub fn unfold(raw: &str) -> (r: String)
    ensures
        r@ == unfold_spec(raw@),
{
    let chars = chars_of(raw);
    let lines = split_chars(&chars, '\n');
    let mut out = String::new();
    let mut i: usize = 0;
    while i < lines.len()
        invariant
            i <= lines.len(),
            views(lines@) == split_on(raw@, '\n'),
            out@ == unfold_lines(views(lines@).take(i as int)),
        decreases lines.len() - i,
    {
        let line = &lines[i];
        let ghost ls = views(lines@);
        assert(ls.take(i + 1).drop_last() =~= ls.take(i as int));
        assert(ls.take(i + 1).last() == line@);
        let mut end = line.len();
        if end > 0 && line[end - 1] == '\r' {
            end = end - 1;
        }
        let l = slice_chars(line.as_slice(), 0, end);
        assert(l@ =~= strip_cr(line@));
        if l.len() > 0 && (l[0] == ' ' || l[0] == '\t') && !out.as_str().is_empty() {
            let rest = slice_chars(l.as_slice(), 1, l.len());
            assert(rest@ =~= l@.drop_first());
            append_chars(&mut out, &rest);
        } else {
            if !out.as_str().is_empty() {
                push_char(&mut out, '\n');
            }
            append_chars(&mut out, &l);
        }
        i += 1;
    }
    assert(views(lines@).take(lines.len() as int) =~= views(lines@));
    out
}

/// Appends characters to a string.
pub fn append_chars(s: &mut String, v: &[char])
    ensures
        final(s)@ == old(s)@ + v@,
{
    let mut i: usize = 0;
    while i < v.len()
        invariant
            i <= v.len(),
            s@ == old(s)@ + v@.take(i as int),
        decreases v.len() - i,
    {
        push_char(s, v[i]);
        i += 1;
        assert(s@ =~= old(s)@ + v@.take(i as int));
    }
    assert(v@.take(v.len() as int) =~= v@);
}

/// Whether the text so far leaves us inside double quotes.
pub open spec fn in_quotes(s: Seq<char>) -> bool
    decreases s.len(),
{
    if s.len() == 0 {
        false
    } else {
        in_quotes(s.drop_last()) != (s.last() == '"')
    }
}

/// `s` split on `sep` wherever it stands outside double quotes. The quotes
/// themselves stay in the pieces.
pub open spec fn split_unquoted_spec(s: Seq<char>, sep: char) -> Seq<Seq<char>>
    decreases s.len(),
{
    if s.len() == 0 {
        seq![Seq::<char>::empty()]
    } else {
        let init = split_unquoted_spec(s.drop_last(), sep);
        let c = s.last();
        if c != '"' && c == sep && !in_quotes(s.drop_last()) {
            init.push(Seq::<char>::empty())
        } else {
            init.update(init.len() - 1, init.last().push(c))
        }
    }
}

proof fn lemma_split_unquoted_nonempty(s: Seq<char>, sep: char)
    ensures
        split_unquoted_spec(s, sep).len() >= 1,
    decreases s.len(),
{
    if s.len() > 0 {
        lemma_split_unquoted_nonempty(s.drop_last(), sep);
    }
}

/// Splitting outside quotes loses nothing: the pieces, joined back with the
/// separator, are the input.
pub proof fn lemma_split_unquoted_join(s: Seq<char>, sep: char)
    ensures
        join_with(split_unquoted_spec(s, sep), sep) == s,
    decreases s.len(),
{
    if s.len() > 0 {
        let init = split_unquoted_spec(s.drop_last(), sep);
        lemma_split_unquoted_nonempty(s.drop_last(), sep);
        lemma_split_unquoted_join(s.drop_last(), sep);
        let c = s.last();
        assert(s.drop_last().push(c) =~= s);
        if c != '"' && c == sep && !in_quotes(s.drop_last()) {
            let r = init.push(Seq::<char>::empty());
            assert(r.drop_last() =~= init);
            assert(join_with(r, sep) =~= join_with(init, sep).push(sep) + Seq::<char>::empty());
        } else {
            let r = init.update(init.len() - 1, init.last().push(c));
            if init.len() > 1 {
                assert(r.drop_last() =~= init.drop_last());
                assert(join_with(r, sep) =~= join_with(init, sep).push(c));
            }
        }
    }
}

/// Splits on a separator that is not inside double quotes.
pub fn split_unquoted(input: &str, sep: char) -> (r: Vec<String>)
    ensures
        strings_view(r@) == split_unquoted_spec(input@, sep),
{
    let v = chars_of(input);
    let pieces = split_unquoted_chars(&v, sep);
    strings_of(&pieces)
}

pub fn strings_of(pieces: &Vec<Vec<char>>) -> (r: Vec<String>)
    ensures
        strings_view(r@) == views(pieces@),
{
    let mut r: Vec<String> = Vec::new();
    let mut i: usize = 0;
    while i < pieces.len()
        invariant
            i <= pieces.len(),
            strings_view(r@) == views(pieces@).take(i as int),
        decreases pieces.len() - i,
    {
        let s = string_of(pieces[i].as_slice());
        let ghost old_r = r@;
        r.push(s);
        assert(views(pieces@)[i as int] == pieces@[i as int]@);
        assert(r@ =~= old_r.push(s));
        assert(strings_view(r@) =~= strings_view(old_r).push(s@));
        assert(views(pieces@).take(i + 1) =~= views(pieces@).take(i as int).push(pieces@[i as int]@));
        i += 1;
    }
    assert(views(pieces@).take(pieces.len() as int) =~= views(pieces@));
    r
}

pub fn split_unquoted_chars(v: &[char], sep: char) -> (r: Vec<Vec<char>>)
    ensures
        views(r@) == split_unquoted_spec(v@, sep),
{
    let mut out: Vec<Vec<char>> = Vec::new();
    let mut cur: Vec<char> = Vec::new();
    let mut quoted = false;
    let mut i: usize = 0;
    while i < v.len()
        invariant
            i <= v.len(),
            quoted == in_quotes(v@.take(i as int)),
            views(out@).push(cur@) == split_unquoted_spec(v@.take(i as int), sep),
        decreases v.len() - i,
    {
        let c = v[i];
        let ghost pre = v@.take(i as int);
        assert(v@.take(i + 1).drop_last() =~= pre);
        assert(v@.take(i + 1).last() == c);
        if c == '"' {
            quoted = !quoted;
            cur.push(c);
            assert(views(out@).push(cur@) =~= split_unquoted_spec(v@.take(i + 1), sep));
        } else if c == sep && !quoted {
            let ghost od = views(out@);
            let ghost oc = cur@;
            out.push(cur);
            assert(views(out@) =~= od.push(oc));
            cur = Vec::new();
            assert(views(out@).push(cur@) =~= split_unquoted_spec(v@.take(i + 1), sep));
        } else {
            cur.push(c);
            assert(views(out@).push(cur@) =~= split_unquoted_spec(v@.take(i + 1), sep));
        }
        i += 1;
    }
    assert(v@.take(v.len() as int) =~= v@);
    let ghost od = views(out@);
    let ghost oc = cur@;
    out.push(cur);
    assert(views(out@) =~= od.push(oc));
    out
}

/// Whether the character after the text so far is escaped by a backslash.
pub open spec fn escape_pending(s: Seq<char>) -> bool
    decreases s.len(),
{
    if s.len() == 0 {
        false
    } else if escape_pending(s.drop_last()) {
        false
    } else {
        s.last() == '\\'
    }
}

/// `value` split on `sep` wherever the separator is not escaped. Escapes are
/// left in the pieces.
pub open spec fn split_escaped_spec(s: Seq<char>, sep: char) -> Seq<Seq<char>>
    decreases s.len(),
{
    if s.len() == 0 {
        seq![Seq::<char>::empty()]
    } else {
        let init = split_escaped_spec(s.drop_last(), sep);
        let c = s.last();
        if c != '\\' && c == sep && !escape_pending(s.drop_last()) {
            init.push(Seq::<char>::empty())
        } else {
            init.update(init.len() - 1, init.last().push(c))
        }
    }
}

pub proof fn lemma_split_escaped_nonempty(s: Seq<char>, sep: char)
    ensures
        split_escaped_spec(s, sep).len() >= 1,
    decreases s.len(),
{
    if s.len() > 0 {
        lemma_split_escaped_nonempty(s.drop_last(), sep);
    }
}

/// Splitting on unescaped separators loses nothing: the pieces, joined back
/// with the separator, are the input.
pub proof fn lemma_split_escaped_join(s: Seq<char>, sep: char)
    ensures
        join_with(split_escaped_spec(s, sep), sep) == s,
    decreases s.len(),
{
    if s.len() > 0 {
        let init = split_escaped_spec(s.drop_last(), sep);
        lemma_split_escaped_nonempty(s.drop_last(), sep);
        lemma_split_escaped_join(s.drop_last(), sep);
        let c = s.last();
        assert(s.drop_last().push(c) =~= s);
        if c != '\\' && c == sep && !escape_pending(s.drop_last()) {
            let r = init.push(Seq::<char>::empty());
            assert(r.drop_last() =~= init);
            assert(join_with(r, sep) =~= join_with(init, sep).push(sep) + Seq::<char>::empty());
        } else {
            let r = init.update(init.len() - 1, init.last().push(c));
            if init.len() > 1 {
                assert(r.drop_last() =~= init.drop_last());
                assert(join_with(r, sep) =~= join_with(init, sep).push(c));
            }
        }
    }
}

pub fn split_escaped_chars(v: &[char], sep: char) -> (r: Vec<Vec<char>>)
    ensures
        views(r@) == split_escaped_spec(v@, sep),
{
    let mut out: Vec<Vec<char>> = Vec::new();
    let mut cur: Vec<char> = Vec::new();
    let mut pending = false;
    let mut i: usize = 0;
    while i < v.len()
        invariant
            i <= v.len(),
            pending == escape_pending(v@.take(i as int)),
            views(out@).push(cur@) == split_escaped_spec(v@.take(i as int), sep),
        decreases v.len() - i,
    {
        let c = v[i];
        let ghost pre = v@.take(i as int);
        assert(v@.take(i + 1).drop_last() =~= pre);
        assert(v@.take(i + 1).last() == c);
        if pending {
            pending = false;
            cur.push(c);
            assert(views(out@).push(cur@) =~= split_escaped_spec(v@.take(i + 1), sep));
        } else if c == '\\' {
            pending = true;
            cur.push(c);
            assert(views(out@).push(cur@) =~= split_escaped_spec(v@.take(i + 1), sep));
        } else if c == sep {
            let ghost od = views(out@);
            let ghost oc = cur@;
            out.push(cur);
            assert(views(out@) =~= od.push(oc));
            cur = Vec::new();
            assert(views(out@).push(cur@) =~= split_escaped_spec(v@.take(i + 1), sep));
        } else {
            cur.push(c);
            assert(views(out@).push(cur@) =~= split_escaped_spec(v@.take(i + 1), sep));
        }
        i += 1;
    }
    assert(v@.take(v.len() as int) =~= v@);
    let ghost od = views(out@);
    let ghost oc = cur@;
    out.push(cur);
    assert(views(out@) =~= od.push(oc));
    out
}

/// Splits a structured value on separators that are not escaped.
///
/// Order matters and is easy to get backwards: unescaping first turns an
/// escaped semicolon into a real one, and the split then treats it as
/// structure.
pub fn split_escaped(value: &str, sep: char) -> (r: Vec<String>)
    ensures
        strings_view(r@) == split_escaped_spec(value@, sep),
{
    let v = chars_of(value);
    let pieces = split_escaped_chars(&v, sep);
    strings_of(&pieces)
}

/// The text a value denotes: `\n` and `\N` become a line feed, a backslash
/// before any other character stands for that character, and a lone trailing
/// backslash is kept.
pub open spec fn unescape_spec(s: Seq<char>) -> Seq<char>
    decreases s.len(),
{
    if s.len() == 0 {
        Seq::<char>::empty()
    } else if s[0] != '\\' {
        seq![s[0]] + unescape_spec(s.drop_first())
    } else if s.len() == 1 {
        seq!['\\']
    } else {
        seq![
            if s[1] == 'n' || s[1] == 'N' {
                '\n'
            } else {
                s[1]
            },
        ] + unescape_spec(s.skip(2))
    }
}

pub fn unescape_chars(v: &[char]) -> (r: Vec<char>)
    ensures
        r@ == unescape_spec(v@),
{
    let mut out: Vec<char> = Vec::new();
    let mut i: usize = 0;
    assert(v@.skip(0) =~= v@);
    while i < v.len()
        invariant
            i <= v.len(),
            out@ + unescape_spec(v@.skip(i as int)) == unescape_spec(v@),
        decreases v.len() - i,
    {
        let c = v[i];
        let ghost rest = v@.skip(i as int);
        if c != '\\' {
            out.push(c);
            assert(rest.drop_first() =~= v@.skip(i + 1));
            assert(out@ + unescape_spec(v@.skip(i + 1)) =~= unescape_spec(v@));
            i += 1;
        } else if i + 1 == v.len() {
            out.push('\\');
            assert(v@.skip(i + 1) =~= Seq::<char>::empty());
            assert(out@ + unescape_spec(v@.skip(i + 1)) =~= unescape_spec(v@));
            i += 1;
        } else {
            let n = v[i + 1];
            if n == 'n' || n == 'N' {
                out.push('\n');
            } else {
                out.push(n);
            }
            assert(rest.skip(2) =~= v@.skip(i + 2));
            assert(out@ + unescape_spec(v@.skip(i + 2)) =~= unescape_spec(v@));
            i += 2;
        }
    }
    out
}

/// Undoes the escaping a value carries: `\n`, `\,`, `\;`, `\\`.
pub fn unescape(value: &str) -> (r: String)
    ensures
        r@ == unescape_spec(value@),
{
    let v = chars_of(value);
    string_of(&unescape_chars(&v))
}

} // verus!
