//! A line-oriented `[section]` / `key = value` configuration store that
//! preserves comments and blank lines verbatim, so that a parsed and
//! re-rendered document is byte-for-byte identical (proved below).
//!
//! Parsing is deliberately lenient: a line that fits no rule is kept as an
//! untyped comment and re-emitted unchanged, never a hard failure.

use vstd::prelude::*;

use crate::text::{
    find_char, first_nonspace, is_space, lemma_find_char_bounds, lemma_first_nonspace_bounds,
    trim_spec, find_char_exec, first_nonspace_exec, str_eq, trim_str,
};

verus! {

/// One line of a document: a `key = value` pair, a comment held verbatim
/// (including its leading `;` or any unrecognised text), or a blank line.
pub enum Entry {
    KV { key: String, value: String },
    Comment(String),
    Blank,
}

/// A named group of entries. The name is empty only for the implicit
/// leading section before the first `[name]` header.
pub struct Section {
    pub name: String,
    pub entry: Vec<Entry>,
}

/// A parsed document: the implicit unnamed leading section followed by the
/// named sections in file order.
pub struct Ini {
    pub section: Vec<Section>,
}

/// Mathematical image of an `Entry`.
#[verifier::ext_equal]
pub enum EntryV {
    KV { key: Seq<char>, value: Seq<char> },
    Comment(Seq<char>),
    Blank,
}

/// Mathematical image of a `Section`.
#[verifier::ext_equal]
pub struct SectionV {
    pub name: Seq<char>,
    pub entries: Seq<EntryV>,
}

impl View for Entry {
    type V = EntryV;

    open spec fn view(&self) -> EntryV {
        match self {
            Entry::KV { key, value } => EntryV::KV { key: key@, value: value@ },
            Entry::Comment(t) => EntryV::Comment(t@),
            Entry::Blank => EntryV::Blank,
        }
    }
}

impl View for Section {
    type V = SectionV;

    open spec fn view(&self) -> SectionV {
        SectionV { name: self.name@, entries: self.entry@.map_values(|e: Entry| e@) }
    }
}

impl View for Ini {
    type V = Seq<SectionV>;

    open spec fn view(&self) -> Seq<SectionV> {
        self.section@.map_values(|s: Section| s@)
    }
}

// ---------------------------------------------------------------------------
// Line classification
// ---------------------------------------------------------------------------
/// A line consisting of whitespace only.
pub open spec fn is_blank_line(l: Seq<char>) -> bool {
    first_nonspace(l) == l.len()
}

/// A line whose first non-whitespace character is `;`.
pub open spec fn is_comment_line(l: Seq<char>) -> bool {
    first_nonspace(l) < l.len() && l[first_nonspace(l)] == ';'
}

/// Index of the `]` that closes a section header (the first `]` after the
/// opening `[`); equals `l.len()` when there is none.
pub open spec fn section_close(l: Seq<char>) -> int {
    first_nonspace(l) + 1 + find_char(l.skip(first_nonspace(l) + 1), ']')
}

/// A header line: optional whitespace, `[`, a non-empty bracket-free name,
/// `]`, then only whitespace to the end of the line.
pub open spec fn is_section_line(l: Seq<char>) -> bool {
    let f = first_nonspace(l);
    let j = section_close(l);
    f < l.len() && l[f] == '[' && j < l.len() && j > f + 1 && (forall|k: int|
        j < k < l.len() ==> is_space(l[k]))
}

/// The trimmed name between the brackets of a header line.
pub open spec fn section_name_of(l: Seq<char>) -> Seq<char> {
    trim_spec(l.subrange(first_nonspace(l) + 1, section_close(l)))
}

/// A `key = value` line: a first `=` with at least one character before it.
pub open spec fn is_kv_line(l: Seq<char>) -> bool {
    1 <= find_char(l, '=') < l.len()
}

/// The trimmed text before the first `=`.
pub open spec fn kv_key_of(l: Seq<char>) -> Seq<char> {
    trim_spec(l.take(find_char(l, '=')))
}

/// The trimmed text after the first `=`.
pub open spec fn kv_value_of(l: Seq<char>) -> Seq<char> {
    trim_spec(l.skip(find_char(l, '=') + 1))
}

// ---------------------------------------------------------------------------
// Splitting text into lines
// ---------------------------------------------------------------------------
/// Remove one trailing carriage return, as a line reader would before the
/// line separator.
pub open spec fn strip_cr(l: Seq<char>) -> Seq<char> {
    if l.len() > 0 && l.last() == '\r' {
        l.drop_last()
    } else {
        l
    }
}

/// Accumulator form of line splitting: `cur` is the line being read, `acc`
/// the lines already complete.
pub open spec fn split_lines_rec(t: Seq<char>, cur: Seq<char>, acc: Seq<Seq<char>>) -> Seq<
    Seq<char>,
>
    decreases t.len(),
{
    if t.len() == 0 {
        if cur.len() == 0 {
            acc
        } else {
            acc.push(cur)
        }
    } else if t[0] == '\n' {
        split_lines_rec(t.drop_first(), Seq::<char>::empty(), acc.push(strip_cr(cur)))
    } else {
        split_lines_rec(t.drop_first(), cur.push(t[0]), acc)
    }
}

/// The lines of `t`: separated by `\n` (a preceding `\r` is dropped), with
/// no empty phantom line after a trailing `\n`.
pub open spec fn split_lines(t: Seq<char>) -> Seq<Seq<char>> {
    split_lines_rec(t, Seq::<char>::empty(), Seq::<Seq<char>>::empty())
}

// ---------------------------------------------------------------------------
// Parsing
// ---------------------------------------------------------------------------
/// The one-section document every parse starts from.
pub open spec fn empty_doc() -> Seq<SectionV> {
    seq![SectionV { name: Seq::<char>::empty(), entries: Seq::<EntryV>::empty() }]
}

/// Append an entry to the last (current) section.
pub open spec fn push_entry(doc: Seq<SectionV>, e: EntryV) -> Seq<SectionV>
    recommends
        doc.len() > 0,
{
    doc.update(doc.len() - 1, SectionV { name: doc.last().name, entries: doc.last().entries.push(e) })
}

/// Apply one line to a document under construction, in the order the rules
/// are tried: blank, comment, section header, key/value, verbatim fallback.
pub open spec fn parse_step(doc: Seq<SectionV>, l: Seq<char>) -> Seq<SectionV>
    recommends
        doc.len() > 0,
{
    if is_blank_line(l) {
        push_entry(doc, EntryV::Blank)
    } else if is_comment_line(l) {
        push_entry(doc, EntryV::Comment(l))
    } else if is_section_line(l) {
        doc.push(SectionV { name: section_name_of(l), entries: Seq::<EntryV>::empty() })
    } else if is_kv_line(l) {
        push_entry(doc, EntryV::KV { key: kv_key_of(l), value: kv_value_of(l) })
    } else {
        push_entry(doc, EntryV::Comment(l))
    }
}

/// The document obtained by applying the lines in order.
pub open spec fn parse_lines(ls: Seq<Seq<char>>) -> Seq<SectionV>
    decreases ls.len(),
{
    if ls.len() == 0 {
        empty_doc()
    } else {
        parse_step(parse_lines(ls.drop_last()), ls.last())
    }
}

/// What `Ini::parse` returns, as a function of the text.
pub open spec fn parse_spec(t: Seq<char>) -> Seq<SectionV> {
    parse_lines(split_lines(t))
}

pub proof fn lemma_parse_lines_nonempty(ls: Seq<Seq<char>>)
    ensures
        parse_lines(ls).len() > 0,
    decreases ls.len(),
{
    if ls.len() > 0 {
        lemma_parse_lines_nonempty(ls.drop_last());
    }
}

// ---------------------------------------------------------------------------
// Rendering
// ---------------------------------------------------------------------------
/// The text of one entry, always ending in a newline.
pub open spec fn render_entry(e: EntryV) -> Seq<char> {
    match e {
        EntryV::KV { key, value } => key + seq![' ', '=', ' '] + value + seq!['\n'],
        EntryV::Comment(t) => t + seq!['\n'],
        EntryV::Blank => seq!['\n'],
    }
}

pub open spec fn render_entries(es: Seq<EntryV>) -> Seq<char>
    decreases es.len(),
{
    if es.len() == 0 {
        Seq::<char>::empty()
    } else {
        render_entries(es.drop_last()) + render_entry(es.last())
    }
}

/// The `[name]` header line; omitted for the unnamed leading section.
pub open spec fn render_header(name: Seq<char>) -> Seq<char> {
    if name.len() == 0 {
        Seq::<char>::empty()
    } else {
        seq!['['] + name + seq![']', '\n']
    }
}

pub open spec fn render_section(s: SectionV) -> Seq<char> {
    render_header(s.name) + render_entries(s.entries)
}

/// What `Ini::render` returns, as a function of the document.
pub open spec fn render_doc(doc: Seq<SectionV>) -> Seq<char>
    decreases doc.len(),
{
    if doc.len() == 0 {
        Seq::<char>::empty()
    } else {
        render_doc(doc.drop_last()) + render_section(doc.last())
    }
}

// ---------------------------------------------------------------------------
// Executable splitting
// ---------------------------------------------------------------------------
/// Split text into lines exactly as `split_lines` describes.
fn split_lines_exec(text: &str) -> (r: Vec<String>)
    ensures
        r@.map_values(|s: String| s@) == split_lines(text@),
{
    let len = text.unicode_len();
    let mut lines: Vec<String> = Vec::new();
    let mut start: usize = 0;
    let mut i: usize = 0;
    proof {
        assert(text@.skip(0) =~= text@);
        assert(text@.subrange(0, 0) =~= Seq::<char>::empty());
        assert(lines@.map_values(|s: String| s@) =~= Seq::<Seq<char>>::empty());
    }
    while i < len
        invariant
            0 <= start <= i <= len,
            len == text@.len(),
            split_lines(text@) == split_lines_rec(
                text@.skip(i as int),
                text@.subrange(start as int, i as int),
                lines@.map_values(|s: String| s@),
            ),
        decreases len - i,
    {
        let ghost cur = text@.subrange(start as int, i as int);
        let ghost acc = lines@.map_values(|s: String| s@);
        let c = text.get_char(i);
        if c == '\n' {
            let mut end: usize = i;
            if end > start && text.get_char(end - 1) == '\r' {
                end = end - 1;
            }
            proof {
                assert(strip_cr(cur) =~= text@.subrange(start as int, end as int));
            }
            let line = String::from_str(text.substring_char(start, end));
            lines.push(line);
            proof {
                assert(lines@.map_values(|s: String| s@) =~= acc.push(strip_cr(cur)));
                assert(text@.skip(i as int).drop_first() =~= text@.skip(i + 1));
                assert(text@.subrange(i + 1, i + 1) =~= Seq::<char>::empty());
            }
            start = i + 1;
        } else {
            proof {
                assert(text@.skip(i as int).drop_first() =~= text@.skip(i + 1));
                assert(cur.push(text@[i as int]) =~= text@.subrange(start as int, i + 1));
            }
        }
        i += 1;
    }
    proof {
        assert(text@.skip(len as int) =~= Seq::<char>::empty());
    }
    if start < len {
        let ghost cur = text@.subrange(start as int, len as int);
        let ghost acc = lines@.map_values(|s: String| s@);
        let line = String::from_str(text.substring_char(start, len));
        lines.push(line);
        proof {
            assert(lines@.map_values(|s: String| s@) =~= acc.push(cur));
        }
    }
    lines
}

// ---------------------------------------------------------------------------
// Executable parsing
// ---------------------------------------------------------------------------
/// What one line turned out to be, with its parts already extracted.
enum LineClass {
    BlankLine,
    CommentLine(String),
    HeaderLine(String),
    PairLine(String, String),
    OtherLine(String),
}

/// Classify one line by the same cascade of rules as `parse_step`.
fn classify_line(line: &String) -> (r: LineClass)
    ensures
        (match r {
            LineClass::BlankLine => is_blank_line(line@),
            LineClass::CommentLine(t) => is_comment_line(line@) && t@ == line@,
            LineClass::HeaderLine(n) => !is_blank_line(line@) && !is_comment_line(line@)
                && is_section_line(line@) && n@ == section_name_of(line@),
            LineClass::PairLine(k, v) => !is_blank_line(line@) && !is_comment_line(line@)
                && !is_section_line(line@) && is_kv_line(line@) && k@ == kv_key_of(line@) && v@
                == kv_value_of(line@),
            LineClass::OtherLine(t) => !is_blank_line(line@) && !is_comment_line(line@)
                && !is_section_line(line@) && !is_kv_line(line@) && t@ == line@,
        }),
{
    let l = line.as_str();
    let llen = l.unicode_len();
    let f = first_nonspace_exec(l);
    proof {
        lemma_first_nonspace_bounds(l@);
    }
    if f == llen {
        return LineClass::BlankLine;
    }
    let c = l.get_char(f);
    if c == ';' {
        return LineClass::CommentLine(line.clone());
    }
    if c == '[' {
        let rest = l.substring_char(f + 1, llen);
        proof {
            assert(rest@ =~= l@.skip(f + 1));
        }
        let jr = find_char_exec(rest, ']');
        proof {
            lemma_find_char_bounds(l@.skip(f + 1), ']');
        }
        let j = f + 1 + jr;
        if j < llen && j > f + 1 {
            let tail = l.substring_char(j + 1, llen);
            let ft = first_nonspace_exec(tail);
            proof {
                lemma_first_nonspace_bounds(tail@);
            }
            if ft == llen - (j + 1) {
                let name = trim_str(l.substring_char(f + 1, j));
                proof {
                    assert forall|k2: int| j < k2 < llen implies is_space(l@[k2]) by {
                        assert(tail@[k2 - j - 1] == l@[k2]);
                        assert(is_space(tail@[k2 - j - 1]));
                    }
                    assert(is_section_line(l@));
                    assert(l@.subrange(f + 1, j as int) =~= l@.subrange(
                        first_nonspace(l@) + 1,
                        section_close(l@),
                    ));
                }
                return LineClass::HeaderLine(name);
            }
            proof {
                assert(tail@[first_nonspace(tail@)] == l@[j + 1 + first_nonspace(tail@)]);
                assert(!is_section_line(l@));
            }
        }
    }
    proof {
        assert(!is_section_line(l@));
    }
    let e = find_char_exec(l, '=');
    proof {
        lemma_find_char_bounds(l@, '=');
    }
    if 1 <= e && e < llen {
        let key = trim_str(l.substring_char(0, e));
        let value = trim_str(l.substring_char(e + 1, llen));
        proof {
            assert(l@.subrange(0, e as int) =~= l@.take(e as int));
            assert(l@.subrange(e + 1, llen as int) =~= l@.skip(e + 1));
        }
        return LineClass::PairLine(key, value);
    }
    LineClass::OtherLine(line.clone())
}

/// Append an entry to the document's current (last) section.
fn push_entry_exec(ini: &mut Ini, e: Entry)
    requires
        old(ini).section.len() > 0,
    ensures
        final(ini)@ == push_entry(old(ini)@, e@),
        final(ini).section.len() == old(ini).section.len(),
{
    let mut s = ini.section.pop().unwrap();
    s.entry.push(e);
    ini.section.push(s);
    proof {
        assert(ini@ =~~= push_entry(old(ini)@, e@));
    }
}

impl Ini {
    /// Parse a whole document from text. Never fails: unrecognised lines
    /// are kept verbatim as comments.
    pub fn parse(text: &str) -> (r: Ini)
        ensures
            r@ == parse_spec(text@),
    {
        let lines = split_lines_exec(text);
        let ghost ls = lines@.map_values(|s: String| s@);
        let mut section: Vec<Section> = Vec::new();
        section.push(Section { name: String::new(), entry: Vec::new() });
        let mut ini = Ini { section };
        proof {
            assert(ini@ =~~= empty_doc());
            assert(ls.take(0) =~= Seq::<Seq<char>>::empty());
        }
        let mut k: usize = 0;
        while k < lines.len()
            invariant
                0 <= k <= lines.len(),
                ls == lines@.map_values(|s: String| s@),
                ini@ == parse_lines(ls.take(k as int)),
                ini.section.len() > 0,
            decreases lines.len() - k,
        {
            proof {
                assert(ls.take(k + 1).drop_last() =~= ls.take(k as int));
                assert(ls.take(k + 1).last() == ls[k as int]);
                assert(ls[k as int] == lines@[k as int]@);
            }
            let class = classify_line(&lines[k]);
            match class {
                LineClass::BlankLine => {
                    push_entry_exec(&mut ini, Entry::Blank);
                },
                LineClass::CommentLine(t) => {
                    push_entry_exec(&mut ini, Entry::Comment(t));
                },
                LineClass::HeaderLine(name) => {
                    let ghost pre = ini@;
                    ini.section.push(Section { name, entry: Vec::new() });
                    proof {
                        assert(ini@ =~~= pre.push(
                            SectionV {
                                name: section_name_of(ls[k as int]),
                                entries: Seq::<EntryV>::empty(),
                            },
                        ));
                    }
                },
                LineClass::PairLine(key, value) => {
                    push_entry_exec(&mut ini, Entry::KV { key, value });
                },
                LineClass::OtherLine(t) => {
                    push_entry_exec(&mut ini, Entry::Comment(t));
                },
            }
            k += 1;
        }
        proof {
            assert(ls.take(lines.len() as int) =~= ls);
        }
        ini
    }

    /// Serialise the document back to text, sections in order, each entry
    /// on its own line.
    pub fn render(&self) -> (r: String)
        ensures
            r@ == render_doc(self@),
    {
        let mut out = String::new();
        proof {
            assert(self@.take(0) =~= Seq::<SectionV>::empty());
        }
        let mut i: usize = 0;
        while i < self.section.len()
            invariant
                0 <= i <= self.section.len(),
                out@ == render_doc(self@.take(i as int)),
            decreases self.section.len() - i,
        {
            let ghost pre = out@;
            let s = &self.section[i];
            if !s.name.as_str().is_empty() {
                out.append("[");
                out.append(s.name.as_str());
                out.append("]\n");
            }
            proof {
                reveal_strlit("[");
                reveal_strlit("]\n");
                assert(out@ =~= pre + render_header(s@.name));
            }
            let mut j: usize = 0;
            while j < s.entry.len()
                invariant
                    0 <= j <= s.entry.len(),
                    i < self.section.len(),
                    s == &self.section[i as int],
                    out@ == pre + render_header(s@.name) + render_entries(
                        s@.entries.take(j as int),
                    ),
                decreases s.entry.len() - j,
            {
                let ghost pre2 = out@;
                match &s.entry[j] {
                    Entry::KV { key, value } => {
                        out.append(key.as_str());
                        out.append(" = ");
                        out.append(value.as_str());
                        out.append("\n");
                    },
                    Entry::Comment(t) => {
                        out.append(t.as_str());
                        out.append("\n");
                    },
                    Entry::Blank => {
                        out.append("\n");
                    },
                }
                proof {
                    reveal_strlit(" = ");
                    reveal_strlit("\n");
                    assert(out@ =~= pre2 + render_entry(s@.entries[j as int]));
                    assert(s@.entries.take(j + 1).drop_last() =~= s@.entries.take(j as int));
                    assert(out@ =~= pre + render_header(s@.name) + render_entries(
                        s@.entries.take(j + 1),
                    ));
                }
                j += 1;
            }
            proof {
                assert(s@.entries.take(s.entry.len() as int) =~= s@.entries);
                assert(self@.take(i + 1).drop_last() =~= self@.take(i as int));
                assert(out@ =~= render_doc(self@.take(i + 1)));
            }
            i += 1;
        }
        proof {
            assert(self@.take(self.section.len() as int) =~= self@);
        }
        out
    }

    /// The sections of the document, in order.
    pub fn sections(&self) -> (r: &Vec<Section>)
        ensures
            r@.map_values(|s: Section| s@) == self@,
    {
        &self.section
    }
}

impl Section {
    /// The entries of this section, in order.
    pub fn entries(&self) -> (r: &Vec<Entry>)
        ensures
            r@.map_values(|e: Entry| e@) == self@.entries,
    {
        &self.entry
    }

    /// The section's name; empty for the implicit leading section.
    pub fn name(&self) -> (r: &str)
        ensures
            r@ == self@.name,
    {
        self.name.as_str()
    }
}

// ---------------------------------------------------------------------------
// Lookup and update
// ---------------------------------------------------------------------------
/// The value of the first `key = value` entry with the given key.
pub open spec fn entries_lookup(es: Seq<EntryV>, key: Seq<char>) -> Option<Seq<char>>
    decreases es.len(),
{
    if es.len() == 0 {
        None
    } else {
        match es[0] {
            EntryV::KV { key: k, value: v } => if k == key {
                Some(v)
            } else {
                entries_lookup(es.drop_first(), key)
            },
            _ => entries_lookup(es.drop_first(), key),
        }
    }
}

/// The value for `key` in the first section named `section` that holds it;
/// later sections with the same name are searched in turn.
pub open spec fn doc_lookup(doc: Seq<SectionV>, section: Seq<char>, key: Seq<char>) -> Option<
    Seq<char>,
>
    decreases doc.len(),
{
    if doc.len() == 0 {
        None
    } else if doc[0].name == section {
        match entries_lookup(doc[0].entries, key) {
            Some(v) => Some(v),
            None => doc_lookup(doc.drop_first(), section, key),
        }
    } else {
        doc_lookup(doc.drop_first(), section, key)
    }
}

/// Whether an entry is a `key = value` pair carrying exactly this key.
pub open spec fn entry_is_kv_with(e: EntryV, key: Seq<char>) -> bool {
    match e {
        EntryV::KV { key: k, value: v } => k == key,
        _ => false,
    }
}

/// Index of the first section with the given name, `-1` if there is none.
pub open spec fn sec_find(doc: Seq<SectionV>, name: Seq<char>) -> int
    decreases doc.len(),
{
    if doc.len() == 0 {
        -1
    } else if doc[0].name == name {
        0
    } else if sec_find(doc.drop_first(), name) < 0 {
        -1
    } else {
        1 + sec_find(doc.drop_first(), name)
    }
}

/// Index of the first `key = value` entry with this key, `-1` if none.
pub open spec fn kv_find(es: Seq<EntryV>, key: Seq<char>) -> int
    decreases es.len(),
{
    if es.len() == 0 {
        -1
    } else if entry_is_kv_with(es[0], key) {
        0
    } else if kv_find(es.drop_first(), key) < 0 {
        -1
    } else {
        1 + kv_find(es.drop_first(), key)
    }
}

pub proof fn lemma_sec_find_at(doc: Seq<SectionV>, name: Seq<char>, i: int)
    requires
        0 <= i < doc.len(),
        doc[i].name == name,
        forall|m: int| 0 <= m < i ==> doc[m].name != name,
    ensures
        sec_find(doc, name) == i,
    decreases doc.len(),
{
    if i > 0 {
        lemma_sec_find_at(doc.drop_first(), name, i - 1);
    }
}

pub proof fn lemma_sec_find_none(doc: Seq<SectionV>, name: Seq<char>)
    requires
        forall|m: int| 0 <= m < doc.len() ==> doc[m].name != name,
    ensures
        sec_find(doc, name) == -1,
    decreases doc.len(),
{
    if doc.len() > 0 {
        lemma_sec_find_none(doc.drop_first(), name);
    }
}

pub proof fn lemma_kv_find_at(es: Seq<EntryV>, key: Seq<char>, j: int)
    requires
        0 <= j < es.len(),
        entry_is_kv_with(es[j], key),
        forall|m: int| 0 <= m < j ==> !entry_is_kv_with(es[m], key),
    ensures
        kv_find(es, key) == j,
    decreases es.len(),
{
    if j > 0 {
        lemma_kv_find_at(es.drop_first(), key, j - 1);
    }
}

pub proof fn lemma_kv_find_none(es: Seq<EntryV>, key: Seq<char>)
    requires
        forall|m: int| 0 <= m < es.len() ==> !entry_is_kv_with(es[m], key),
    ensures
        kv_find(es, key) == -1,
    decreases es.len(),
{
    if es.len() > 0 {
        lemma_kv_find_none(es.drop_first(), key);
    }
}

/// What `set` does: the section name and key are matched exactly as
/// given (case-sensitive, no trimming); the first matching entry of the
/// first matching section is replaced in place, a missing key is appended
/// to that section, and a missing section is appended at the end of the
/// document. Only what is stored is trimmed: the written entry's key and
/// value, and a newly appended section's name.
pub open spec fn set_spec(
    doc: Seq<SectionV>,
    section: Seq<char>,
    key: Seq<char>,
    value: Seq<char>,
) -> Seq<SectionV> {
    let k = trim_spec(key);
    let v = trim_spec(value);
    let si = sec_find(doc, section);
    if si < 0 {
        doc.push(
            SectionV { name: trim_spec(section), entries: seq![EntryV::KV { key: k, value: v }] },
        )
    } else {
        let es = doc[si].entries;
        let ki = kv_find(es, key);
        if ki < 0 {
            doc.update(
                si,
                SectionV { name: doc[si].name, entries: es.push(EntryV::KV { key: k, value: v }) },
            )
        } else {
            doc.update(
                si,
                SectionV {
                    name: doc[si].name,
                    entries: es.update(ki, EntryV::KV { key: k, value: v }),
                },
            )
        }
    }
}

impl Ini {
    /// Look up `key` in the sections named `section` (no trimming: names
    /// and keys are compared exactly as given).
    pub fn get(&self, section: &str, key: &str) -> (r: Option<&str>)
        ensures
            (match r {
                Some(v) => doc_lookup(self@, section@, key@) == Some(v@),
                None => doc_lookup(self@, section@, key@) is None,
            }),
    {
        proof {
            assert(self@.skip(0) =~= self@);
        }
        let mut i: usize = 0;
        while i < self.section.len()
            invariant
                0 <= i <= self.section.len(),
                doc_lookup(self@, section@, key@) == doc_lookup(
                    self@.skip(i as int),
                    section@,
                    key@,
                ),
            decreases self.section.len() - i,
        {
            let s = &self.section[i];
            if str_eq(s.name.as_str(), section) {
                let ghost es = s@.entries;
                proof {
                    assert(es.skip(0) =~= es);
                }
                let mut j: usize = 0;
                while j < s.entry.len()
                    invariant
                        0 <= j <= s.entry.len(),
                        i < self.section.len(),
                        s == &self.section[i as int],
                        es == s@.entries,
                        s@.name == section@,
                        doc_lookup(self@, section@, key@) == doc_lookup(
                            self@.skip(i as int),
                            section@,
                            key@,
                        ),
                        entries_lookup(es, key@) == entries_lookup(es.skip(j as int), key@),
                    decreases s.entry.len() - j,
                {
                    match &s.entry[j] {
                        Entry::KV { key: ek, value: ev } => {
                            if str_eq(ek.as_str(), key) {
                                proof {
                                    assert(es.skip(j as int)[0] == es[j as int]);
                                    assert(es[j as int] == EntryV::KV {
                                        key: ek@,
                                        value: ev@,
                                    });
                                    assert(entries_lookup(es.skip(j as int), key@) == Some(
                                        ev@,
                                    ));
                                    assert(entries_lookup(es, key@) == Some(ev@));
                                    assert(self@.skip(i as int)[0] == self@[i as int]);
                                    assert(self@[i as int] == s@);
                                    assert(self@[i as int].name == section@);
                                    assert(self@[i as int].entries == es);
                                    assert(doc_lookup(self@.skip(i as int), section@, key@)
                                        == Some(ev@));
                                }
                                return Some(ev.as_str());
                            }
                        },
                        _ => {},
                    }
                    proof {
                        assert(es.skip(j as int)[0] == es[j as int]);
                        assert(es.skip(j as int).drop_first() =~= es.skip(j + 1));
                    }
                    j += 1;
                }
                proof {
                    assert(es.skip(s.entry.len() as int) =~= Seq::<EntryV>::empty());
                    assert(self@.skip(i as int)[0] == self@[i as int]);
                    assert(self@.skip(i as int).drop_first() =~= self@.skip(i + 1));
                }
            } else {
                proof {
                    assert(self@.skip(i as int)[0] == self@[i as int]);
                    assert(self@.skip(i as int).drop_first() =~= self@.skip(i + 1));
                }
            }
            i += 1;
        }
        proof {
            assert(self@.skip(self.section.len() as int) =~= Seq::<SectionV>::empty());
        }
        None
    }

    /// Write `value` for `key` in `section` as `set_spec` describes:
    /// section name and key are matched exactly as given, an existing
    /// entry keeps its position, and only the stored text is trimmed.
    pub fn set(&mut self, section: &str, key: &str, value: &str)
        ensures
            final (self)@ == set_spec(old(self)@, section@, key@, value@),
    {
        let ghost doc = self@;
        let k = trim_str(key);
        let v = trim_str(value);
        let ghost kv = k@;
        let ghost vv = v@;
        let mut i: usize = 0;
        while i < self.section.len()
            invariant
                *self == *old(self),
                0 <= i <= self.section.len(),
                doc == self@,
                k@ == trim_spec(key@),
                v@ == trim_spec(value@),
                kv == k@,
                vv == v@,
                forall|m: int| 0 <= m < i ==> doc[m].name != section@,
            decreases self.section.len() - i,
        {
            if str_eq(self.section[i].name.as_str(), section) {
                proof {
                    lemma_sec_find_at(doc, section@, i as int);
                }
                let ghost es = doc[i as int].entries;
                let mut j: usize = 0;
                while j < self.section[i].entry.len()
                    invariant
                        *self == *old(self),
                        0 <= j <= self.section[i as int].entry.len(),
                        i < self.section.len(),
                        doc == self@,
                        es == doc[i as int].entries,
                        sec_find(doc, section@) == i,
                        k@ == trim_spec(key@),
                        v@ == trim_spec(value@),
                        kv == k@,
                        vv == v@,
                        forall|m: int| 0 <= m < j ==> !entry_is_kv_with(es[m], key@),
                    decreases self.section[i as int].entry.len() - j,
                {
                    let is_match: bool = match &self.section[i].entry[j] {
                        Entry::KV { key: ek, value: _ } => str_eq(ek.as_str(), key),
                        _ => false,
                    };
                    if is_match {
                        proof {
                            lemma_kv_find_at(es, key@, j as int);
                        }
                        self.section[i].entry[j] = Entry::KV { key: k, value: v };
                        proof {
                            assert(self@ =~~= set_spec(doc, section@, key@, value@));
                        }
                        return;
                    }
                    j += 1;
                }
                proof {
                    lemma_kv_find_none(es, key@);
                }
                let s = &mut self.section[i];
                s.entry.push(Entry::KV { key: k, value: v });
                proof {
                    assert(self@ =~~= set_spec(doc, section@, key@, value@));
                }
                return;
            }
            i += 1;
        }
        proof {
            lemma_sec_find_none(doc, section@);
        }
        let sn = trim_str(section);
        let mut entry: Vec<Entry> = Vec::new();
        entry.push(Entry::KV { key: k, value: v });
        self.section.push(Section { name: sn, entry });
        proof {
            assert(self@ =~~= set_spec(doc, section@, key@, value@));
        }
    }
}

// ---------------------------------------------------------------------------
// Round-trip fidelity
// ---------------------------------------------------------------------------
/// The lines joined back into text, a newline after each.
pub open spec fn join_lines(ls: Seq<Seq<char>>) -> Seq<char>
    decreases ls.len(),
{
    if ls.len() == 0 {
        Seq::<char>::empty()
    } else {
        join_lines(ls.drop_last()) + ls.last() + seq!['\n']
    }
}

/// The text a line turns into after being parsed and re-rendered.
pub open spec fn line_rerender(l: Seq<char>) -> Seq<char> {
    if is_blank_line(l) {
        seq!['\n']
    } else if is_comment_line(l) {
        l + seq!['\n']
    } else if is_section_line(l) {
        seq!['['] + section_name_of(l) + seq![']', '\n']
    } else if is_kv_line(l) {
        kv_key_of(l) + seq![' ', '=', ' '] + kv_value_of(l) + seq!['\n']
    } else {
        l + seq!['\n']
    }
}

/// A line that the renderer reproduces exactly: blank lines are empty,
/// header lines carry no stray whitespace, `key = value` lines are already
/// in the canonical spacing. Comment and fallback lines always qualify.
pub open spec fn canonical_line(l: Seq<char>) -> bool {
    line_rerender(l) == l + seq!['\n']
}

/// A document the store reproduces byte for byte: line-feed separated,
/// ending in a newline when non-empty, every line canonical.
pub open spec fn valid_document(t: Seq<char>) -> bool {
    &&& t == join_lines(split_lines(t))
    &&& forall|i: int|
        0 <= i < split_lines(t).len() ==> canonical_line(#[trigger] split_lines(t)[i])
}

proof fn lemma_render_push_entry(doc: Seq<SectionV>, e: EntryV)
    requires
        doc.len() > 0,
    ensures
        render_doc(push_entry(doc, e)) == render_doc(doc) + render_entry(e),
{
    let d2 = push_entry(doc, e);
    assert(d2.drop_last() =~= doc.drop_last());
    let s2 = d2.last();
    assert(s2.entries.drop_last() =~= doc.last().entries);
    assert(render_entries(s2.entries) == render_entries(doc.last().entries) + render_entry(e));
    assert(render_doc(d2) == render_doc(doc.drop_last()) + (render_header(doc.last().name)
        + (render_entries(doc.last().entries) + render_entry(e))));
    assert(render_doc(d2) =~= render_doc(doc) + render_entry(e));
}

proof fn lemma_render_push_section(doc: Seq<SectionV>, s: SectionV)
    ensures
        render_doc(doc.push(s)) == render_doc(doc) + render_section(s),
{
    assert(doc.push(s).drop_last() =~= doc);
}

proof fn lemma_canonical_step(doc: Seq<SectionV>, l: Seq<char>)
    requires
        doc.len() > 0,
        canonical_line(l),
    ensures
        render_doc(parse_step(doc, l)) == render_doc(doc) + l + seq!['\n'],
{
    if is_blank_line(l) {
        lemma_render_push_entry(doc, EntryV::Blank);
        assert(l.len() == 0);
        assert(render_entry(EntryV::Blank) =~= l + seq!['\n']);
        assert(render_doc(doc) + (l + seq!['\n']) =~= render_doc(doc) + l + seq!['\n']);
    } else if is_comment_line(l) {
        lemma_render_push_entry(doc, EntryV::Comment(l));
        assert(render_doc(doc) + (l + seq!['\n']) =~= render_doc(doc) + l + seq!['\n']);
    } else if is_section_line(l) {
        let name = section_name_of(l);
        let s = SectionV { name: name, entries: Seq::<EntryV>::empty() };
        lemma_render_push_section(doc, s);
        assert(l + seq!['\n'] == seq!['['] + name + seq![']', '\n']);
        assert(l.len() == name.len() + 2);
        assert forall|ii: int| 0 <= ii < l.len() implies l[ii] == (seq!['['] + name
            + seq![']'])[ii] by {
            assert(l[ii] == (l + seq!['\n'])[ii]);
            assert((l + seq!['\n'])[ii] == (seq!['['] + name + seq![']', '\n'])[ii]);
        }
        assert(l =~= seq!['['] + name + seq![']']);
        if name.len() == 0 {
            assert(l =~= seq!['[', ']']);
            assert(!is_space(l[0]));
            assert(first_nonspace(l) == 0);
            assert(l.skip(1) =~= seq![']']);
            assert(find_char(l.skip(1), ']') == 0);
            assert(section_close(l) == 1);
            assert(!is_section_line(l));
        }
        assert(render_section(s) =~= l + seq!['\n']);
        assert(render_doc(doc) + (l + seq!['\n']) =~= render_doc(doc) + l + seq!['\n']);
    } else if is_kv_line(l) {
        let e = EntryV::KV { key: kv_key_of(l), value: kv_value_of(l) };
        lemma_render_push_entry(doc, e);
        assert(render_entry(e) == l + seq!['\n']);
        assert(render_doc(doc) + (l + seq!['\n']) =~= render_doc(doc) + l + seq!['\n']);
    } else {
        lemma_render_push_entry(doc, EntryV::Comment(l));
        assert(render_doc(doc) + (l + seq!['\n']) =~= render_doc(doc) + l + seq!['\n']);
    }
}

proof fn lemma_render_parse_lines(ls: Seq<Seq<char>>)
    requires
        forall|i: int| 0 <= i < ls.len() ==> canonical_line(#[trigger] ls[i]),
    ensures
        render_doc(parse_lines(ls)) == join_lines(ls),
    decreases ls.len(),
{
    if ls.len() == 0 {
        let ed = empty_doc();
        assert(ed.drop_last() =~= Seq::<SectionV>::empty());
        assert(ed.last().name.len() == 0);
        assert(ed.last().entries.len() == 0);
        assert(render_doc(ed.drop_last()).len() == 0);
        assert(render_header(ed.last().name).len() == 0);
        assert(render_entries(ed.last().entries).len() == 0);
        assert(render_section(ed.last()).len() == 0);
        assert(render_doc(ed) =~= Seq::<char>::empty());
    } else {
        let dl = ls.drop_last();
        assert(forall|i: int| 0 <= i < dl.len() ==> canonical_line(#[trigger] dl[i]));
        lemma_render_parse_lines(dl);
        lemma_parse_lines_nonempty(dl);
        assert(canonical_line(ls.last()));
        lemma_canonical_step(parse_lines(dl), ls.last());
        assert(render_doc(parse_lines(ls)) =~= join_lines(ls));
    }
}

/// Round-trip fidelity: rendering a parsed valid document reproduces the
/// original text byte for byte, comments, blank lines and order included.
pub proof fn lemma_write_read_roundtrip(t: Seq<char>)
    requires
        valid_document(t),
    ensures
        render_doc(parse_spec(t)) == t,
{
    lemma_render_parse_lines(split_lines(t));
}

// ---------------------------------------------------------------------------
// Laws of `set`
// ---------------------------------------------------------------------------
/// Everything `sec_find` promises about its answer.
pub proof fn lemma_sec_find_props(doc: Seq<SectionV>, name: Seq<char>)
    ensures
        sec_find(doc, name) >= 0 ==> sec_find(doc, name) < doc.len() && doc[sec_find(
            doc,
            name,
        )].name == name,
        sec_find(doc, name) >= 0 ==> forall|m: int|
            0 <= m < sec_find(doc, name) ==> doc[m].name != name,
        sec_find(doc, name) < 0 ==> forall|m: int| 0 <= m < doc.len() ==> doc[m].name != name,
    decreases doc.len(),
{
    if doc.len() > 0 && doc[0].name != name {
        let d = doc.drop_first();
        lemma_sec_find_props(d, name);
        assert(forall|m: int| 0 <= m < d.len() ==> d[m] == doc[m + 1]);
        if sec_find(doc, name) >= 0 {
            assert forall|m: int| 0 <= m < sec_find(doc, name) implies doc[m].name != name by {
                if m > 0 {
                    assert(d[m - 1] == doc[m]);
                }
            }
        } else {
            assert forall|m: int| 0 <= m < doc.len() implies doc[m].name != name by {
                if m > 0 {
                    assert(d[m - 1] == doc[m]);
                }
            }
        }
    }
}

/// Everything `kv_find` promises about its answer.
pub proof fn lemma_kv_find_props(es: Seq<EntryV>, key: Seq<char>)
    ensures
        kv_find(es, key) >= 0 ==> kv_find(es, key) < es.len() && entry_is_kv_with(
            es[kv_find(es, key)],
            key,
        ),
        kv_find(es, key) >= 0 ==> forall|m: int|
            0 <= m < kv_find(es, key) ==> !entry_is_kv_with(es[m], key),
        kv_find(es, key) < 0 ==> forall|m: int|
            0 <= m < es.len() ==> !entry_is_kv_with(es[m], key),
    decreases es.len(),
{
    if es.len() > 0 && !entry_is_kv_with(es[0], key) {
        let d = es.drop_first();
        lemma_kv_find_props(d, key);
        if kv_find(es, key) >= 0 {
            assert forall|m: int|
                0 <= m < kv_find(es, key) implies !entry_is_kv_with(es[m], key) by {
                if m > 0 {
                    assert(d[m - 1] == es[m]);
                }
            }
        } else {
            assert forall|m: int|
                0 <= m < es.len() implies !entry_is_kv_with(es[m], key) by {
                if m > 0 {
                    assert(d[m - 1] == es[m]);
                }
            }
        }
    }
}

/// Writing the same value twice yields the same document as writing it
/// once: `set` is idempotent for arguments that carry no surrounding
/// whitespace (matching is exact, while the stored key is trimmed, so a
/// padded key would name a different entry on the second write).
pub proof fn lemma_set_idempotent(
    doc: Seq<SectionV>,
    section: Seq<char>,
    key: Seq<char>,
    value: Seq<char>,
)
    requires
        trim_spec(section) == section,
        trim_spec(key) == key,
    ensures
        set_spec(set_spec(doc, section, key, value), section, key, value) == set_spec(
            doc,
            section,
            key,
            value,
        ),
{
    let v = trim_spec(value);
    let kv = EntryV::KV { key: key, value: v };
    let d1 = set_spec(doc, section, key, value);
    let si = sec_find(doc, section);
    lemma_sec_find_props(doc, section);
    if si < 0 {
        assert(d1 == doc.push(SectionV { name: section, entries: seq![kv] }));
        assert(forall|m: int| 0 <= m < doc.len() ==> d1[m] == doc[m]);
        lemma_sec_find_at(d1, section, doc.len() as int);
        lemma_kv_find_at(d1[doc.len() as int].entries, key, 0);
        assert(d1[doc.len() as int].entries.update(0, kv) =~= d1[doc.len() as int].entries);
        assert(set_spec(d1, section, key, value) =~~= d1);
    } else {
        let es = doc[si].entries;
        let ki = kv_find(es, key);
        lemma_kv_find_props(es, key);
        if ki < 0 {
            assert(d1 == doc.update(si, SectionV { name: doc[si].name, entries: es.push(kv) }));
            assert(forall|m: int| 0 <= m < doc.len() && m != si ==> d1[m] == doc[m]);
            lemma_sec_find_at(d1, section, si);
            lemma_kv_find_at(d1[si].entries, key, es.len() as int);
            assert(d1[si].entries.update(es.len() as int, kv) =~= d1[si].entries);
            assert(set_spec(d1, section, key, value) =~~= d1);
        } else {
            assert(d1 == doc.update(si, SectionV { name: doc[si].name, entries: es.update(ki, kv) }));
            assert(forall|m: int| 0 <= m < doc.len() && m != si ==> d1[m] == doc[m]);
            lemma_sec_find_at(d1, section, si);
            assert(forall|m: int| 0 <= m < ki ==> d1[si].entries[m] == es[m]);
            lemma_kv_find_at(d1[si].entries, key, ki);
            assert(d1[si].entries.update(ki, kv) =~= d1[si].entries);
            assert(set_spec(d1, section, key, value) =~~= d1);
        }
    }
}

/// `set` on a key that exactly matches an existing entry of the first
/// exactly matching section replaces that one entry in place: the
/// document keeps its shape and every other entry, and the entry keeps
/// its position.
pub proof fn lemma_set_existing_key_in_place(
    doc: Seq<SectionV>,
    section: Seq<char>,
    key: Seq<char>,
    value: Seq<char>,
)
    requires
        sec_find(doc, section) >= 0,
        kv_find(doc[sec_find(doc, section)].entries, key) >= 0,
    ensures
        set_spec(doc, section, key, value).len() == doc.len(),
        forall|m: int|
            0 <= m < doc.len() && m != sec_find(doc, section) ==> set_spec(
                doc,
                section,
                key,
                value,
            )[m] == doc[m],
        set_spec(doc, section, key, value)[sec_find(doc, section)].name == doc[sec_find(
            doc,
            section,
        )].name,
        set_spec(doc, section, key, value)[sec_find(doc, section)].entries == doc[sec_find(
            doc,
            section,
        )].entries.update(
            kv_find(doc[sec_find(doc, section)].entries, key),
            EntryV::KV { key: trim_spec(key), value: trim_spec(value) },
        ),
{
    lemma_sec_find_props(doc, section);
}

/// `set` on a key with no exact match in the first exactly matching
/// section appends the new trimmed entry at the end of that section and
/// changes nothing else.
pub proof fn lemma_set_new_key_appends(
    doc: Seq<SectionV>,
    section: Seq<char>,
    key: Seq<char>,
    value: Seq<char>,
)
    requires
        sec_find(doc, section) >= 0,
        kv_find(doc[sec_find(doc, section)].entries, key) < 0,
    ensures
        set_spec(doc, section, key, value).len() == doc.len(),
        forall|m: int|
            0 <= m < doc.len() && m != sec_find(doc, section) ==> set_spec(
                doc,
                section,
                key,
                value,
            )[m] == doc[m],
        set_spec(doc, section, key, value)[sec_find(doc, section)].name == doc[sec_find(
            doc,
            section,
        )].name,
        set_spec(doc, section, key, value)[sec_find(doc, section)].entries == doc[sec_find(
            doc,
            section,
        )].entries.push(EntryV::KV { key: trim_spec(key), value: trim_spec(value) }),
{
    lemma_sec_find_props(doc, section);
}

/// `set` on a section name with no exact match in the document appends
/// one new section, with the one new entry, at the very end.
pub proof fn lemma_set_new_section_appends(
    doc: Seq<SectionV>,
    section: Seq<char>,
    key: Seq<char>,
    value: Seq<char>,
)
    requires
        sec_find(doc, section) < 0,
    ensures
        set_spec(doc, section, key, value) == doc.push(
            SectionV {
                name: trim_spec(section),
                entries: seq![
                    EntryV::KV { key: trim_spec(key), value: trim_spec(value) },
                ],
            },
        ),
{
}

} // verus!
