//! Parser for `UK2.CFG`.
use vstd::prelude::*;

use crate::sjis::{ascii_upper, chars_of, decode_shift_jis, shift_jis_text, string_from_chars, upper_char};

verus! {

/// Reasons `UK2.CFG` is refused.
#[derive(Debug, Clone, Copy, PartialEq, Eq)]
pub enum ConfigError {
    /// The file is not valid Shift-JIS.
    BadEncoding,
    /// A required key has no line.
    Missing(ConfigKey),
    /// An ON/OFF key has another value.
    NotOnOff(ConfigKey),
}

/// The keys the engine reads itself.
#[derive(Debug, Clone, Copy, PartialEq, Eq)]
pub enum ConfigKey {
    MidiExt,
    FmExt,
    Lib,
    Start,
    Ems,
    Mouse,
}

#[derive(Debug, Clone, PartialEq, Eq)]
pub struct Uk2Config {
    pub midi_ext: String,
    pub fm_ext: String,
    pub use_lib: bool,
    pub start: String,
    pub font: String,
    pub ems: bool,
    pub mouse: bool,
    /// The other keys and their values, ordered by key, each key once.
    pub extra: Vec<(String, String)>,
}

// ---------------------------------------------------------------- text model

/// `char::is_whitespace`: the Unicode `White_Space` property.
pub open spec fn is_ws(c: char) -> bool {
    ||| '\t' <= c <= '\r'
    ||| c == ' '
    ||| c == '\u{85}'
    ||| c == '\u{a0}'
    ||| c == '\u{1680}'
    ||| '\u{2000}' <= c <= '\u{200a}'
    ||| c == '\u{2028}'
    ||| c == '\u{2029}'
    ||| c == '\u{202f}'
    ||| c == '\u{205f}'
    ||| c == '\u{3000}'
}

pub open spec fn trim_start(s: Seq<char>) -> Seq<char>
    decreases s.len(),
{
    if s.len() > 0 && is_ws(s[0]) {
        trim_start(s.drop_first())
    } else {
        s
    }
}

pub open spec fn trim_end(s: Seq<char>) -> Seq<char>
    decreases s.len(),
{
    if s.len() > 0 && is_ws(s.last()) {
        trim_end(s.drop_last())
    } else {
        s
    }
}

/// `str::trim`.
pub open spec fn trim(s: Seq<char>) -> Seq<char> {
    trim_end(trim_start(s))
}

/// Index of the first `c` in `s`, or its length.
pub open spec fn find_char(s: Seq<char>, c: char) -> int
    decreases s.len(),
{
    if s.len() == 0 {
        0
    } else if s[0] == c {
        0
    } else {
        1 + find_char(s.drop_first(), c)
    }
}

/// `str::lines`: split at `\n`, a `\r` before it dropped, no line after a final `\n`.
pub open spec fn text_lines(s: Seq<char>) -> Seq<Seq<char>>
    decreases s.len(),
{
    if s.len() == 0 {
        Seq::empty()
    } else {
        let i = find_char(s, '\n');
        proof {
            lemma_find_char_bound(s, '\n');
        }
        if i >= s.len() {
            seq![s]
        } else {
            let l = s.take(i);
            let line = if l.len() > 0 && l.last() == '\r' {
                l.drop_last()
            } else {
                l
            };
            seq![line] + text_lines(s.skip(i + 1))
        }
    }
}

pub proof fn lemma_find_char_bound(s: Seq<char>, c: char)
    ensures
        0 <= find_char(s, c) <= s.len(),
    decreases s.len(),
{
    if s.len() > 0 && s[0] != c {
        lemma_find_char_bound(s.drop_first(), c);
    }
}

pub open spec fn upper(s: Seq<char>) -> Seq<char> {
    s.map_values(|c: char| ascii_upper(c))
}

/// The key and value a line sets: the part before `#`, trimmed, split at its
/// first `=`; the key trimmed and upper-cased, the value trimmed.
pub open spec fn line_entry(line: Seq<char>) -> Option<(Seq<char>, Seq<char>)> {
    let t = trim(line.take(find_char(line, '#')));
    let j = find_char(t, '=');
    if t.len() == 0 || j >= t.len() {
        None
    } else {
        Some((upper(trim(t.take(j))), trim(t.skip(j + 1))))
    }
}

/// The settings of the lines, in order.
pub open spec fn entries(lines: Seq<Seq<char>>) -> Seq<(Seq<char>, Seq<char>)>
    decreases lines.len(),
{
    if lines.len() == 0 {
        Seq::empty()
    } else {
        let rest = entries(lines.drop_first());
        match line_entry(lines[0]) {
            Some(e) => seq![e] + rest,
            None => rest,
        }
    }
}

/// The value last set for `k`.
pub open spec fn lookup(es: Seq<(Seq<char>, Seq<char>)>, k: Seq<char>) -> Option<Seq<char>>
    decreases es.len(),
{
    if es.len() == 0 {
        None
    } else if es.last().0 == k {
        Some(es.last().1)
    } else {
        lookup(es.drop_last(), k)
    }
}

pub open spec fn key_name(k: ConfigKey) -> Seq<char> {
    match k {
        ConfigKey::MidiExt => seq!['M', 'I', 'D', 'I', '_', 'E', 'X', 'T'],
        ConfigKey::FmExt => seq!['F', 'M', '_', 'E', 'X', 'T'],
        ConfigKey::Lib => seq!['L', 'I', 'B'],
        ConfigKey::Start => seq!['S', 'T', 'A', 'R', 'T'],
        ConfigKey::Ems => seq!['E', 'M', 'S'],
        ConfigKey::Mouse => seq!['M', 'O', 'U', 'S', 'E'],
    }
}

pub open spec fn font_key() -> Seq<char> {
    seq!['F', 'O', 'N', 'T']
}

/// A key the engine reads itself.
pub open spec fn known(k: Seq<char>) -> bool {
    ||| k == key_name(ConfigKey::MidiExt)
    ||| k == key_name(ConfigKey::FmExt)
    ||| k == key_name(ConfigKey::Lib)
    ||| k == key_name(ConfigKey::Start)
    ||| k == key_name(ConfigKey::Ems)
    ||| k == key_name(ConfigKey::Mouse)
    ||| k == font_key()
}

/// `ON` or `OFF` up to ASCII case and surrounding space.
pub open spec fn on_off(v: Seq<char>) -> Option<bool> {
    let u = upper(trim(v));
    if u == seq!['O', 'N'] {
        Some(true)
    } else if u == seq!['O', 'F', 'F'] {
        Some(false)
    } else {
        None
    }
}

/// Code-point order of strings, which is the byte order of their UTF-8.
pub open spec fn str_lt(a: Seq<char>, b: Seq<char>) -> bool
    decreases a.len(),
{
    if a.len() == 0 {
        b.len() > 0
    } else if b.len() == 0 {
        false
    } else if a[0] != b[0] {
        a[0] < b[0]
    } else {
        str_lt(a.drop_first(), b.drop_first())
    }
}

/// What a parsed configuration says.
pub struct ConfigView {
    pub midi_ext: Seq<char>,
    pub fm_ext: Seq<char>,
    pub use_lib: bool,
    pub start: Seq<char>,
    pub font: Seq<char>,
    pub ems: bool,
    pub mouse: bool,
    pub extra: Seq<(Seq<char>, Seq<char>)>,
}

/// The extra settings: strictly ordered by key, holding for each key the
/// engine does not read itself the value last set for it.
pub open spec fn extra_ok(es: Seq<(Seq<char>, Seq<char>)>, extra: Seq<(Seq<char>, Seq<char>)>) -> bool {
    &&& ordered(extra)
    &&& forall|k: Seq<char>| #[trigger] find_value(extra, k) == if known(k) {
        None
    } else {
        lookup(es, k)
    }
}

/// The first problem of a configuration text, if any.
pub open spec fn config_error(text: Seq<char>) -> Option<ConfigError> {
    let es = entries(text_lines(text));
    if lookup(es, key_name(ConfigKey::MidiExt)) is None {
        Some(ConfigError::Missing(ConfigKey::MidiExt))
    } else if lookup(es, key_name(ConfigKey::FmExt)) is None {
        Some(ConfigError::Missing(ConfigKey::FmExt))
    } else if lookup(es, key_name(ConfigKey::Lib)) is None {
        Some(ConfigError::Missing(ConfigKey::Lib))
    } else if on_off(lookup(es, key_name(ConfigKey::Lib)).unwrap()) is None {
        Some(ConfigError::NotOnOff(ConfigKey::Lib))
    } else if lookup(es, key_name(ConfigKey::Start)) is None {
        Some(ConfigError::Missing(ConfigKey::Start))
    } else if lookup(es, key_name(ConfigKey::Ems)) matches Some(v) && on_off(v) is None {
        Some(ConfigError::NotOnOff(ConfigKey::Ems))
    } else if lookup(es, key_name(ConfigKey::Mouse)) matches Some(v) && on_off(v) is None {
        Some(ConfigError::NotOnOff(ConfigKey::Mouse))
    } else {
        None
    }
}

/// `c` is the configuration that `text` sets.
pub open spec fn config_is(c: ConfigView, text: Seq<char>) -> bool {
    let es = entries(text_lines(text));
    &&& Some(c.midi_ext) == lookup(es, key_name(ConfigKey::MidiExt))
    &&& Some(c.fm_ext) == lookup(es, key_name(ConfigKey::FmExt))
    &&& Some(c.use_lib) == on_off(lookup(es, key_name(ConfigKey::Lib)).unwrap())
    &&& Some(c.start) == lookup(es, key_name(ConfigKey::Start))
    &&& c.font == match lookup(es, font_key()) {
        Some(v) => v,
        None => seq!['f', 'o', 'n', 't', '.', 't', 'a', 'b'],
    }
    &&& c.ems == match lookup(es, key_name(ConfigKey::Ems)) {
        Some(v) => on_off(v) == Some(true),
        None => false,
    }
    &&& c.mouse == match lookup(es, key_name(ConfigKey::Mouse)) {
        Some(v) => on_off(v) == Some(true),
        None => false,
    }
    &&& extra_ok(es, c.extra)
}

impl View for Uk2Config {
    type V = ConfigView;

    open spec fn view(&self) -> ConfigView {
        ConfigView {
            midi_ext: self.midi_ext@,
            fm_ext: self.fm_ext@,
            use_lib: self.use_lib,
            start: self.start@,
            font: self.font@,
            ems: self.ems,
            mouse: self.mouse,
            extra: self.extra@.map_values(|e: (String, String)| (e.0@, e.1@)),
        }
    }
}

// ---------------------------------------------------------------- order lemmas

pub proof fn lemma_str_lt_irreflexive(a: Seq<char>)
    ensures
        !str_lt(a, a),
    decreases a.len(),
{
    if a.len() > 0 {
        lemma_str_lt_irreflexive(a.drop_first());
    }
}

pub proof fn lemma_str_lt_transitive(a: Seq<char>, b: Seq<char>, c: Seq<char>)
    requires
        str_lt(a, b),
        str_lt(b, c),
    ensures
        str_lt(a, c),
    decreases a.len(),
{
    if a.len() > 0 && b.len() > 0 && c.len() > 0 && a[0] == b[0] && b[0] == c[0] {
        lemma_str_lt_transitive(a.drop_first(), b.drop_first(), c.drop_first());
    }
}

pub proof fn lemma_str_lt_total(a: Seq<char>, b: Seq<char>)
    ensures
        str_lt(a, b) || str_lt(b, a) || a == b,
    decreases a.len(),
{
    if a.len() > 0 && b.len() > 0 {
        if a[0] == b[0] {
            lemma_str_lt_total(a.drop_first(), b.drop_first());
            if a.drop_first() == b.drop_first() {
                assert(a =~= seq![a[0]] + a.drop_first());
                assert(b =~= seq![b[0]] + b.drop_first());
            }
        } else {
            assert(a[0] < b[0] || b[0] < a[0]);
        }
    } else if a.len() == 0 && b.len() == 0 {
        assert(a =~= b);
    }
}

// ---------------------------------------------------------------- exec text helpers

/// `char::is_whitespace`.
pub(crate) fn is_whitespace(c: char) -> (res: bool)
    ensures
        res == is_ws(c),
{
    ('\t' <= c && c <= '\r') || c == ' ' || c == '\u{85}' || c == '\u{a0}' || c == '\u{1680}' || ('\u{2000}' <= c
        && c <= '\u{200a}') || c == '\u{2028}' || c == '\u{2029}' || c == '\u{202f}' || c == '\u{205f}' || c == '\u{3000}'
}

/// Bounds of `s[a..b]` once trimmed.
pub(crate) fn trim_bounds(s: &Vec<char>, a: usize, b: usize) -> (res: (usize, usize))
    requires
        a <= b <= s@.len(),
    ensures
        a <= res.0 <= res.1 <= b,
        s@.subrange(res.0 as int, res.1 as int) == trim(s@.subrange(a as int, b as int)),
{
    let mut lo = a;
    while lo < b && is_whitespace(s[lo])
        invariant
            a <= lo <= b <= s@.len(),
            trim_start(s@.subrange(a as int, b as int)) == trim_start(s@.subrange(lo as int, b as int)),
        decreases b - lo,
    {
        assert(s@.subrange(lo as int, b as int).drop_first() =~= s@.subrange(lo + 1, b as int));
        lo = lo + 1;
    }
    let mut hi = b;
    while hi > lo && is_whitespace(s[hi - 1])
        invariant
            a <= lo <= hi <= b <= s@.len(),
            trim_end(s@.subrange(lo as int, b as int)) == trim_end(s@.subrange(lo as int, hi as int)),
        decreases hi - lo,
    {
        assert(s@.subrange(lo as int, hi as int).drop_last() =~= s@.subrange(lo as int, hi - 1));
        hi = hi - 1;
    }
    (lo, hi)
}

/// Index of the first `c` in `s[a..b]`, or `b`.
pub(crate) fn find_in(s: &Vec<char>, a: usize, b: usize, c: char) -> (res: usize)
    requires
        a <= b <= s@.len(),
    ensures
        a <= res <= b,
        res - a == find_char(s@.subrange(a as int, b as int), c),
        res < b ==> s@[res as int] == c,
{
    let mut j = a;
    while j < b && s[j] != c
        invariant
            a <= j <= b <= s@.len(),
            find_char(s@.subrange(a as int, b as int), c) == (j - a) + find_char(s@.subrange(j as int, b as int), c),
        decreases b - j,
    {
        assert(s@.subrange(j as int, b as int).drop_first() =~= s@.subrange(j + 1, b as int));
        j = j + 1;
    }
    j
}

pub(crate) fn upper_chars(s: &Vec<char>, a: usize, b: usize) -> (res: Vec<char>)
    requires
        a <= b <= s@.len(),
    ensures
        res@ == upper(s@.subrange(a as int, b as int)),
{
    let mut out: Vec<char> = Vec::new();
    let mut j = a;
    while j < b
        invariant
            a <= j <= b <= s@.len(),
            out@ == upper(s@.subrange(a as int, j as int)),
        decreases b - j,
    {
        out.push(upper_char(s[j]));
        j = j + 1;
        assert(out@ =~= upper(s@.subrange(a as int, j as int)));
    }
    out
}

pub(crate) fn copy_chars(s: &Vec<char>, a: usize, b: usize) -> (res: Vec<char>)
    requires
        a <= b <= s@.len(),
    ensures
        res@ == s@.subrange(a as int, b as int),
{
    let mut out: Vec<char> = Vec::new();
    let mut j = a;
    while j < b
        invariant
            a <= j <= b <= s@.len(),
            out@ == s@.subrange(a as int, j as int),
        decreases b - j,
    {
        out.push(s[j]);
        j = j + 1;
        assert(out@ =~= s@.subrange(a as int, j as int));
    }
    out
}

pub(crate) fn chars_eq(a: &Vec<char>, b: &Vec<char>) -> (res: bool)
    ensures
        res == (a@ == b@),
{
    if a.len() != b.len() {
        return false;
    }
    let mut i: usize = 0;
    while i < a.len()
        invariant
            a@.len() == b@.len(),
            i <= a@.len(),
            forall|j: int| 0 <= j < i ==> a@[j] == b@[j],
        decreases a@.len() - i,
    {
        if a[i] != b[i] {
            return false;
        }
        i = i + 1;
    }
    assert(a@ =~= b@);
    true
}

fn chars_lt(a: &Vec<char>, b: &Vec<char>) -> (res: bool)
    ensures
        res == str_lt(a@, b@),
{
    let mut i: usize = 0;
    assert(a@.skip(0) =~= a@ && b@.skip(0) =~= b@);
    while i < a.len() && i < b.len() && a[i] == b[i]
        invariant
            i <= a@.len(),
            i <= b@.len(),
            str_lt(a@, b@) == str_lt(a@.skip(i as int), b@.skip(i as int)),
        decreases a@.len() - i,
    {
        assert(a@.skip(i as int).drop_first() =~= a@.skip(i + 1));
        assert(b@.skip(i as int).drop_first() =~= b@.skip(i + 1));
        i = i + 1;
    }
    if i == a.len() {
        i < b.len()
    } else if i == b.len() {
        false
    } else {
        a[i] < b[i]
    }
}

/// The setting of line `s[a..b]`.
fn line_entry_at(s: &Vec<char>, a: usize, b: usize) -> (res: Option<(Vec<char>, Vec<char>)>)
    requires
        a <= b <= s@.len(),
    ensures
        match res {
            Some((k, v)) => line_entry(s@.subrange(a as int, b as int)) == Some((k@, v@)),
            None => line_entry(s@.subrange(a as int, b as int)) is None,
        },
{
    let ghost line = s@.subrange(a as int, b as int);
    let hash = find_in(s, a, b, '#');
    assert(s@.subrange(a as int, hash as int) =~= line.take(find_char(line, '#')));
    let (lo, hi) = trim_bounds(s, a, hash);
    let ghost t = s@.subrange(lo as int, hi as int);
    let eq = find_in(s, lo, hi, '=');
    if lo == hi || eq == hi {
        return None;
    }
    assert(s@.subrange(lo as int, eq as int) =~= t.take(find_char(t, '=')));
    assert(s@.subrange(eq + 1, hi as int) =~= t.skip(find_char(t, '=') + 1));
    let (klo, khi) = trim_bounds(s, lo, eq);
    let (vlo, vhi) = trim_bounds(s, eq + 1, hi);
    let key = upper_chars(s, klo, khi);
    let value = copy_chars(s, vlo, vhi);
    Some((key, value))
}

pub open spec fn pair_views(v: Seq<(Vec<char>, Vec<char>)>) -> Seq<(Seq<char>, Seq<char>)> {
    v.map_values(|e: (Vec<char>, Vec<char>)| (e.0@, e.1@))
}

/// The settings of a text, in line order.
fn text_entries(s: &Vec<char>) -> (res: Vec<(Vec<char>, Vec<char>)>)
    ensures
        pair_views(res@) == entries(text_lines(s@)),
{
    let n = s.len();
    let mut out: Vec<(Vec<char>, Vec<char>)> = Vec::new();
    let mut pos: usize = 0;
    assert(s@.skip(0) =~= s@);
    while pos < n
        invariant
            n == s@.len(),
            pos <= n,
            entries(text_lines(s@)) == pair_views(out@) + entries(text_lines(s@.skip(pos as int))),
        decreases n - pos,
    {
        let nl = find_in(s, pos, n, '\n');
        assert(s@.subrange(pos as int, n as int) =~= s@.skip(pos as int));
        let end = if nl > pos && s[nl - 1] == '\r' && nl < n {
            nl - 1
        } else {
            nl
        };
        let ghost rest = s@.skip(pos as int);
        let ghost line = s@.subrange(pos as int, end as int);
        proof {
            let i = find_char(rest, '\n');
            if i >= rest.len() {
                assert(line =~= rest);
            } else {
                let l = rest.take(i);
                assert(l =~= s@.subrange(pos as int, nl as int));
                if l.len() > 0 && l.last() == '\r' {
                    assert(line =~= l.drop_last());
                } else {
                    assert(line =~= l);
                }
                assert(rest.skip(i + 1) =~= s@.skip(nl + 1));
            }
        }
        let entry = line_entry_at(s, pos, end);
        let ghost before = out@;
        match entry {
            Some(e) => {
                out.push(e);
            },
            None => {},
        }
        proof {
            if nl < n {
                assert(text_lines(rest) == seq![line] + text_lines(s@.skip(nl + 1)));
                assert((seq![line] + text_lines(s@.skip(nl + 1))).drop_first() =~= text_lines(s@.skip(nl + 1)));
            } else {
                assert(text_lines(rest) == seq![line]);
                assert(seq![line].drop_first() =~= Seq::<Seq<char>>::empty());
                assert(s@.skip(n as int) =~= Seq::<char>::empty());
            }
            assert(pair_views(out@) =~= pair_views(before) + match line_entry(line) {
                Some(e) => seq![e],
                None => Seq::empty(),
            });
        }
        pos = if nl < n {
            nl + 1
        } else {
            n
        };
        proof {
            let tail = entries(text_lines(s@.skip(pos as int)));
            match line_entry(line) {
                Some(e) => {
                    assert(pair_views(before) + (seq![e] + tail) =~= pair_views(out@) + tail);
                },
                None => {},
            }
        }
    }
    proof {
        assert(s@.skip(n as int) =~= Seq::<char>::empty());
        assert(pair_views(out@) + Seq::<(Seq<char>, Seq<char>)>::empty() =~= pair_views(out@));
    }
    out
}

/// The value last set for `key` among `es`.
fn lookup_exec(es: &Vec<(Vec<char>, Vec<char>)>, key: &Vec<char>) -> (res: Option<Vec<char>>)
    ensures
        match res {
            Some(v) => lookup(pair_views(es@), key@) == Some(v@),
            None => lookup(pair_views(es@), key@) is None,
        },
{
    let mut i = es.len();
    assert(es@.take(i as int) =~= es@);
    while i > 0
        invariant
            i <= es@.len(),
            lookup(pair_views(es@), key@) == lookup(pair_views(es@.take(i as int)), key@),
        decreases i,
    {
        assert(pair_views(es@.take(i as int)).drop_last() =~= pair_views(es@.take(i - 1)));
        if chars_eq(&es[i - 1].0, key) {
            let v = copy_chars(&es[i - 1].1, 0, es[i - 1].1.len());
            assert(es[i - 1].1@.subrange(0, es[i - 1].1@.len() as int) =~= es[i - 1].1@);
            return Some(v);
        }
        i = i - 1;
    }
    None
}

/// `ON` / `OFF` up to ASCII case and surrounding space.
fn on_off_exec(v: &Vec<char>) -> (res: Option<bool>)
    ensures
        res == on_off(v@),
{
    let (lo, hi) = trim_bounds(v, 0, v.len());
    assert(v@.subrange(0, v@.len() as int) =~= v@);
    let u = upper_chars(v, lo, hi);
    let on: Vec<char> = vec!['O', 'N'];
    let off: Vec<char> = vec!['O', 'F', 'F'];
    assert(on@ =~= seq!['O', 'N']);
    assert(off@ =~= seq!['O', 'F', 'F']);
    if chars_eq(&u, &on) {
        Some(true)
    } else if chars_eq(&u, &off) {
        Some(false)
    } else {
        None
    }
}

fn key_chars(k: ConfigKey) -> (res: Vec<char>)
    ensures
        res@ == key_name(k),
{
    let v: Vec<char> = match k {
        ConfigKey::MidiExt => vec!['M', 'I', 'D', 'I', '_', 'E', 'X', 'T'],
        ConfigKey::FmExt => vec!['F', 'M', '_', 'E', 'X', 'T'],
        ConfigKey::Lib => vec!['L', 'I', 'B'],
        ConfigKey::Start => vec!['S', 'T', 'A', 'R', 'T'],
        ConfigKey::Ems => vec!['E', 'M', 'S'],
        ConfigKey::Mouse => vec!['M', 'O', 'U', 'S', 'E'],
    };
    assert(v@ =~= key_name(k));
    v
}

fn is_known(k: &Vec<char>) -> (res: bool)
    ensures
        res == known(k@),
{
    let font: Vec<char> = vec!['F', 'O', 'N', 'T'];
    assert(font@ =~= font_key());
    chars_eq(k, &key_chars(ConfigKey::MidiExt)) || chars_eq(k, &key_chars(ConfigKey::FmExt)) || chars_eq(
        k,
        &key_chars(ConfigKey::Lib),
    ) || chars_eq(k, &key_chars(ConfigKey::Start)) || chars_eq(k, &key_chars(ConfigKey::Ems)) || chars_eq(
        k,
        &key_chars(ConfigKey::Mouse),
    ) || chars_eq(k, &font)
}

/// Keys strictly ordered.
pub open spec fn ordered(extra: Seq<(Seq<char>, Seq<char>)>) -> bool {
    forall|i: int, j: int| 0 <= i < j < extra.len() ==> str_lt(#[trigger] extra[i].0, #[trigger] extra[j].0)
}

/// The value stored for `k`, from the first entry with that key.
pub open spec fn find_value(s: Seq<(Seq<char>, Seq<char>)>, k: Seq<char>) -> Option<Seq<char>>
    decreases s.len(),
{
    if s.len() == 0 {
        None
    } else if s[0].0 == k {
        Some(s[0].1)
    } else {
        find_value(s.drop_first(), k)
    }
}

proof fn lemma_find_insert(s: Seq<(Seq<char>, Seq<char>)>, p: int, e: (Seq<char>, Seq<char>), k: Seq<char>)
    requires
        0 <= p <= s.len(),
        e.0 != k,
    ensures
        find_value(s.insert(p, e), k) == find_value(s, k),
    decreases s.len(),
{
    if p == 0 {
        assert(s.insert(p, e).drop_first() =~= s);
    } else {
        assert(s.insert(p, e)[0] == s[0]);
        assert(s.insert(p, e).drop_first() =~= s.drop_first().insert(p - 1, e));
        lemma_find_insert(s.drop_first(), p - 1, e, k);
    }
}

proof fn lemma_find_update(s: Seq<(Seq<char>, Seq<char>)>, p: int, v: Seq<char>, k: Seq<char>)
    requires
        0 <= p < s.len(),
        s[p].0 != k,
    ensures
        find_value(s.update(p, (s[p].0, v)), k) == find_value(s, k),
    decreases s.len(),
{
    if p > 0 {
        assert(s.update(p, (s[p].0, v)).drop_first() =~= s.drop_first().update(p - 1, (s[p].0, v)));
        lemma_find_update(s.drop_first(), p - 1, v, k);
    } else {
        assert(s.update(p, (s[p].0, v)).drop_first() =~= s.drop_first());
    }
}

proof fn lemma_find_at(s: Seq<(Seq<char>, Seq<char>)>, p: int, k: Seq<char>)
    requires
        0 <= p < s.len(),
        s[p].0 == k,
        forall|i: int| 0 <= i < p ==> (#[trigger] s[i]).0 != k,
    ensures
        find_value(s, k) == Some(s[p].1),
    decreases s.len(),
{
    if p > 0 {
        lemma_find_at(s.drop_first(), p - 1, k);
    }
}

/// Sets `key` to `value` in an ordered list of settings.
pub(crate) fn insert_sorted(extra: &mut Vec<(Vec<char>, Vec<char>)>, key: Vec<char>, value: Vec<char>)
    requires
        ordered(pair_views(old(extra)@)),
    ensures
        ordered(pair_views(final(extra)@)),
        forall|k: Seq<char>| #[trigger] find_value(pair_views(final(extra)@), k) == if k == key@ {
            Some(value@)
        } else {
            find_value(pair_views(old(extra)@), k)
        },
{
    let ghost ov = pair_views(extra@);
    let ghost kv = key@;
    let ghost vv = value@;
    let mut p: usize = 0;
    while p < extra.len() && chars_lt(&extra[p].0, &key)
        invariant
            extra@ == old(extra)@,
            ov == pair_views(extra@),
            kv == key@,
            p <= extra@.len(),
            ordered(ov),
            forall|i: int| 0 <= i < p ==> str_lt(#[trigger] ov[i].0, kv),
        decreases extra@.len() - p,
    {
        p = p + 1;
    }
    proof {
        assert forall|i: int| 0 <= i < p implies (#[trigger] ov[i]).0 != kv by {
            lemma_str_lt_irreflexive(kv);
        }
    }
    if p < extra.len() && chars_eq(&extra[p].0, &key) {
        extra.set(p, (key, value));
        proof {
            let nv = pair_views(extra@);
            assert(nv =~= ov.update(p as int, (ov[p as int].0, vv)));
            assert forall|k: Seq<char>| #[trigger] find_value(nv, k) == if k == kv {
                Some(vv)
            } else {
                find_value(ov, k)
            } by {
                if k == kv {
                    lemma_find_at(nv, p as int, k);
                } else {
                    lemma_find_update(ov, p as int, vv, k);
                }
            }
        }
    } else {
        extra.insert(p, (key, value));
        proof {
            let nv = pair_views(extra@);
            assert(nv =~= ov.insert(p as int, (kv, vv)));
            if p < ov.len() {
                lemma_str_lt_total(ov[p as int].0, kv);
            }
            assert forall|i: int| p <= i < ov.len() implies str_lt(kv, #[trigger] ov[i].0) by {
                if i > p {
                    lemma_str_lt_transitive(kv, ov[p as int].0, ov[i].0);
                }
            }
            assert forall|i: int, j: int| 0 <= i < j < nv.len() implies str_lt(#[trigger] nv[i].0, #[trigger] nv[j].0) by {
                if i < p && j == p {
                } else if i < p && j > p {
                    assert(str_lt(ov[i].0, kv));
                    assert(str_lt(kv, ov[j - 1].0));
                    lemma_str_lt_transitive(ov[i].0, kv, ov[j - 1].0);
                } else if i == p {
                    assert(str_lt(kv, ov[j - 1].0));
                } else if i < p {
                } else {
                    assert(nv[i] == ov[i - 1] && nv[j] == ov[j - 1]);
                }
            }
            assert forall|k: Seq<char>| #[trigger] find_value(nv, k) == if k == kv {
                Some(vv)
            } else {
                find_value(ov, k)
            } by {
                if k == kv {
                    lemma_find_at(nv, p as int, k);
                } else {
                    lemma_find_insert(ov, p as int, (kv, vv), k);
                }
            }
        }
    }
}

/// The unknown keys of `es` with their last values, ordered by key.
fn extra_entries(es: &Vec<(Vec<char>, Vec<char>)>) -> (res: Vec<(Vec<char>, Vec<char>)>)
    ensures
        ordered(pair_views(res@)),
        forall|k: Seq<char>| #[trigger] find_value(pair_views(res@), k) == if known(k) {
            None
        } else {
            lookup(pair_views(es@), k)
        },
{
    let mut extra: Vec<(Vec<char>, Vec<char>)> = Vec::new();
    let mut i: usize = 0;
    while i < es.len()
        invariant
            i <= es@.len(),
            ordered(pair_views(extra@)),
            forall|k: Seq<char>| #[trigger] find_value(pair_views(extra@), k) == if known(k) {
                None
            } else {
                lookup(pair_views(es@.take(i as int)), k)
            },
        decreases es@.len() - i,
    {
        proof {
            assert(pair_views(es@.take(i + 1)).drop_last() =~= pair_views(es@.take(i as int)));
        }
        if !is_known(&es[i].0) {
            let k = copy_chars(&es[i].0, 0, es[i].0.len());
            let v = copy_chars(&es[i].1, 0, es[i].1.len());
            assert(es[i as int].0@.subrange(0, es[i as int].0@.len() as int) =~= es[i as int].0@);
            assert(es[i as int].1@.subrange(0, es[i as int].1@.len() as int) =~= es[i as int].1@);
            insert_sorted(&mut extra, k, v);
        }
        i = i + 1;
    }
    assert(es@.take(es@.len() as int) =~= es@);
    extra
}

pub(crate) fn to_strings(v: &Vec<(Vec<char>, Vec<char>)>) -> (res: Vec<(String, String)>)
    ensures
        res@.map_values(|e: (String, String)| (e.0@, e.1@)) == pair_views(v@),
{
    let mut out: Vec<(String, String)> = Vec::new();
    let mut i: usize = 0;
    while i < v.len()
        invariant
            i <= v@.len(),
            out@.map_values(|e: (String, String)| (e.0@, e.1@)) == pair_views(v@.take(i as int)),
        decreases v@.len() - i,
    {
        let k = string_from_chars(&v[i].0);
        let x = string_from_chars(&v[i].1);
        let ghost before = out@;
        out.push((k, x));
        proof {
            let m = out@.map_values(|e: (String, String)| (e.0@, e.1@));
            let t = pair_views(v@.take(i + 1));
            assert(before.map_values(|e: (String, String)| (e.0@, e.1@)).len() == before.len());
            assert(pair_views(v@.take(i as int)).len() == i);
            assert(m.len() == t.len());
            assert forall|j: int| 0 <= j < m.len() implies m[j] == t[j] by {
                if j < i {
                    assert(out@[j] == before[j]);
                    assert(before.map_values(|e: (String, String)| (e.0@, e.1@))[j] == pair_views(v@.take(i as int))[j]);
                }
            }
            assert(m =~= t);
        }
        i = i + 1;
    }
    assert(v@.take(v@.len() as int) =~= v@);
    out
}

impl Uk2Config {
    /// Parses `UK2.CFG` text: one `KEY=value` per line, `#` starts a comment,
    /// keys are case-insensitive and a later line wins.
    pub fn parse_text(text: &str) -> (res: Result<Self, ConfigError>)
        ensures
            match res {
                Ok(c) => config_error(text@) is None && config_is(c@, text@),
                Err(e) => config_error(text@) == Some(e),
            },
    {
        let chars = chars_of(text);
        let es = text_entries(&chars);
        let ghost ev = pair_views(es@);
        let midi_ext = match lookup_exec(&es, &key_chars(ConfigKey::MidiExt)) {
            Some(v) => v,
            None => return Err(ConfigError::Missing(ConfigKey::MidiExt)),
        };
        let fm_ext = match lookup_exec(&es, &key_chars(ConfigKey::FmExt)) {
            Some(v) => v,
            None => return Err(ConfigError::Missing(ConfigKey::FmExt)),
        };
        let lib = match lookup_exec(&es, &key_chars(ConfigKey::Lib)) {
            Some(v) => v,
            None => return Err(ConfigError::Missing(ConfigKey::Lib)),
        };
        let use_lib = match on_off_exec(&lib) {
            Some(b) => b,
            None => return Err(ConfigError::NotOnOff(ConfigKey::Lib)),
        };
        let start = match lookup_exec(&es, &key_chars(ConfigKey::Start)) {
            Some(v) => v,
            None => return Err(ConfigError::Missing(ConfigKey::Start)),
        };
        let font_name: Vec<char> = vec!['F', 'O', 'N', 'T'];
        assert(font_name@ =~= font_key());
        let font = match lookup_exec(&es, &font_name) {
            Some(v) => v,
            None => {
                let d: Vec<char> = vec!['f', 'o', 'n', 't', '.', 't', 'a', 'b'];
                assert(d@ =~= seq!['f', 'o', 'n', 't', '.', 't', 'a', 'b']);
                d
            },
        };
        let ems = match lookup_exec(&es, &key_chars(ConfigKey::Ems)) {
            Some(v) => match on_off_exec(&v) {
                Some(b) => b,
                None => return Err(ConfigError::NotOnOff(ConfigKey::Ems)),
            },
            None => false,
        };
        let mouse = match lookup_exec(&es, &key_chars(ConfigKey::Mouse)) {
            Some(v) => match on_off_exec(&v) {
                Some(b) => b,
                None => return Err(ConfigError::NotOnOff(ConfigKey::Mouse)),
            },
            None => false,
        };
        let extra = extra_entries(&es);
        let c = Uk2Config {
            midi_ext: string_from_chars(&midi_ext),
            fm_ext: string_from_chars(&fm_ext),
            use_lib,
            start: string_from_chars(&start),
            font: string_from_chars(&font),
            ems,
            mouse,
            extra: to_strings(&extra),
        };
        Ok(c)
    }

    /// Parses the bytes of `UK2.CFG`: an end-of-file `0x1a` is dropped and
    /// the rest decoded from Shift-JIS.
    pub fn parse_bytes(bytes: &[u8]) -> (res: Result<Self, ConfigError>)
        requires
            bytes@.len() <= usize::MAX / 8,
        ensures
            match shift_jis_text(cfg_body(bytes@)) {
                None => res == Err::<Self, ConfigError>(ConfigError::BadEncoding),
                Some(text) => match res {
                    Ok(c) => config_error(text) is None && config_is(c@, text),
                    Err(e) => config_error(text) == Some(e),
                },
            },
    {
        let n = bytes.len();
        let body = if n > 0 && bytes[n - 1] == 0x1a {
            vstd::slice::slice_subrange(bytes, 0, n - 1)
        } else {
            bytes
        };
        assert(body@ =~= cfg_body(bytes@));
        match decode_shift_jis(body) {
            None => Err(ConfigError::BadEncoding),
            Some(text) => Self::parse_text(text.as_str()),
        }
    }
}

/// The file without its end-of-file `0x1a`.
pub open spec fn cfg_body(b: Seq<u8>) -> Seq<u8> {
    if b.len() > 0 && b.last() == 0x1a {
        b.drop_last()
    } else {
        b
    }
}

} // verus!
