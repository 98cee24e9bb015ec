//! Scripted input for the headless runner: a text of `<tick> <command>
//! [args]` lines turned into the host events (and screenshots) due at each
//! VSYNC tick.
#![allow(unused_imports)]

use std::collections::BTreeMap;
use vstd::prelude::*;

use crate::config::{find_char, find_in, is_whitespace, is_ws, text_lines, upper};
use crate::engine::{
    HostEvent, SCAN_CTRL, SCAN_DOWN, SCAN_ESC, SCAN_LEFT, SCAN_RETURN, SCAN_RIGHT, SCAN_SHIFT, SCAN_SPACE, SCAN_UP,
};
use crate::sjis::{ascii_upper, chars_of, string_from_chars, upper_char};

verus! {

broadcast use vstd::std_specs::btree::group_btree_axioms, vstd::laws_cmp::group_laws_cmp;

// ---------------------------------------------------------------- words

/// Length of the run of non-space characters at the start of `s`.
pub open spec fn word_len(s: Seq<char>) -> nat
    decreases s.len(),
{
    if s.len() == 0 || is_ws(s[0]) {
        0
    } else {
        1 + word_len(s.drop_first())
    }
}

pub proof fn lemma_word_len(s: Seq<char>)
    ensures
        word_len(s) <= s.len(),
        s.len() > 0 && !is_ws(s[0]) ==> word_len(s) >= 1,
    decreases s.len(),
{
    if s.len() > 0 && !is_ws(s[0]) {
        lemma_word_len(s.drop_first());
    }
}

/// `str::split_whitespace`: the maximal runs of non-space characters.
pub open spec fn words(s: Seq<char>) -> Seq<Seq<char>>
    decreases s.len(),
{
    if s.len() == 0 {
        Seq::empty()
    } else if is_ws(s[0]) {
        words(s.drop_first())
    } else {
        proof {
            lemma_word_len(s);
        }
        seq![s.take(word_len(s) as int)] + words(s.skip(word_len(s) as int))
    }
}

pub open spec fn char_vecs(v: Seq<Vec<char>>) -> Seq<Seq<char>> {
    v.map_values(|w: Vec<char>| w@)
}

/// The words of `s[a..b]`.
fn split_words(s: &Vec<char>, a: usize, b: usize) -> (res: Vec<Vec<char>>)
    requires
        a <= b <= s@.len(),
    ensures
        char_vecs(res@) == words(s@.subrange(a as int, b as int)),
{
    let mut out: Vec<Vec<char>> = Vec::new();
    let mut i = a;
    while i < b
        invariant
            a <= i <= b <= s@.len(),
            words(s@.subrange(a as int, b as int)) == char_vecs(out@) + words(s@.subrange(i as int, b as int)),
        decreases b - i,
    {
        let ghost rest = s@.subrange(i as int, b as int);
        if is_whitespace(s[i]) {
            assert(rest.drop_first() =~= s@.subrange(i + 1, b as int));
            i = i + 1;
        } else {
            let mut j = i;
            while j < b && !is_whitespace(s[j])
                invariant
                    i <= j <= b <= s@.len(),
                    word_len(rest) == (j - i) + word_len(s@.subrange(j as int, b as int)),
                decreases b - j,
            {
                assert(s@.subrange(j as int, b as int).drop_first() =~= s@.subrange(j + 1, b as int));
                j = j + 1;
            }
            let w = crate::config::copy_chars(s, i, j);
            let ghost before = out@;
            out.push(w);
            proof {
                assert(rest.take(j - i) =~= s@.subrange(i as int, j as int));
                assert(rest.skip(j - i) =~= s@.subrange(j as int, b as int));
                assert(char_vecs(out@) =~= char_vecs(before) + seq![w@]);
                assert(char_vecs(before) + (seq![w@] + words(s@.subrange(j as int, b as int))) =~= char_vecs(out@)
                    + words(s@.subrange(j as int, b as int)));
            }
            i = j;
        }
    }
    assert(s@.subrange(b as int, b as int) =~= Seq::<char>::empty());
    assert(char_vecs(out@) + Seq::<Seq<char>>::empty() =~= char_vecs(out@));
    out
}

// ---------------------------------------------------------------- numbers

pub open spec fn is_digit(c: char) -> bool {
    '0' <= c <= '9'
}

pub open spec fn all_digits(d: Seq<char>) -> bool {
    forall|i: int| 0 <= i < d.len() ==> #[trigger] is_digit(d[i])
}

/// The value of a string of decimal digits.
pub open spec fn decimal(d: Seq<char>) -> nat
    decreases d.len(),
{
    if d.len() == 0 {
        0
    } else {
        decimal(d.drop_last()) * 10 + (d.last() as nat - '0' as nat) as nat
    }
}

/// `u64::from_str`: an optional `+`, then decimal digits, in range.
pub open spec fn parse_u64(s: Seq<char>) -> Option<u64> {
    let d = if s.len() > 0 && s[0] == '+' {
        s.drop_first()
    } else {
        s
    };
    if d.len() > 0 && all_digits(d) && decimal(d) <= u64::MAX {
        Some(decimal(d) as u64)
    } else {
        None
    }
}

/// `i32::from_str`: an optional sign, then decimal digits, in range.
pub open spec fn parse_i32(s: Seq<char>) -> Option<i32> {
    let signed = s.len() > 0 && (s[0] == '+' || s[0] == '-');
    let d = if signed {
        s.drop_first()
    } else {
        s
    };
    let v: int = if s.len() > 0 && s[0] == '-' {
        -decimal(d)
    } else {
        decimal(d) as int
    };
    if d.len() > 0 && all_digits(d) && i32::MIN <= v <= i32::MAX {
        Some(v as i32)
    } else {
        None
    }
}

proof fn lemma_decimal_prefix(d: Seq<char>, k: int)
    requires
        0 <= k <= d.len(),
    ensures
        decimal(d.take(k)) <= decimal(d),
    decreases d.len(),
{
    if k < d.len() {
        assert(d.drop_last().take(k) =~= d.take(k));
        lemma_decimal_prefix(d.drop_last(), k);
    } else {
        assert(d.take(k) =~= d);
    }
}

/// The decimal value of `d` if all of `d` are digits and the value is at
/// most `limit`.
fn decimal_upto(d: &Vec<char>, start: usize, limit: u128) -> (res: Option<u128>)
    requires
        start <= d@.len(),
        limit <= u64::MAX,
    ensures
        match res {
            Some(v) => all_digits(d@.skip(start as int)) && v == decimal(d@.skip(start as int)) && v <= limit,
            None => !all_digits(d@.skip(start as int)) || decimal(d@.skip(start as int)) > limit,
        },
{
    let ghost ds = d@.skip(start as int);
    let mut acc: u128 = 0;
    let mut k = start;
    assert(ds.take(0) =~= Seq::<char>::empty());
    while k < d.len()
        invariant
            start <= k <= d@.len(),
            ds == d@.skip(start as int),
            limit <= u64::MAX,
            all_digits(ds.take(k - start)),
            acc == decimal(ds.take(k - start)),
            acc <= limit,
        decreases d@.len() - k,
    {
        let c = d[k];
        if !('0' <= c && c <= '9') {
            assert(!is_digit(ds[k - start]));
            return None;
        }
        let v = (c as u32 - '0' as u32) as u128;
        proof {
            let t = ds.take(k - start + 1);
            assert(t.drop_last() =~= ds.take(k - start));
            assert(t.last() == c);
        }
        let next = acc * 10 + v;
        if next > limit {
            proof {
                lemma_decimal_prefix(ds, k - start + 1);
            }
            return None;
        }
        acc = next;
        k = k + 1;
        assert forall|i: int| 0 <= i < ds.take(k - start).len() implies #[trigger] is_digit(ds.take(k - start)[i]) by {
            if i < k - 1 - start {
                assert(ds.take(k - 1 - start)[i] == ds.take(k - start)[i]);
            }
        }
    }
    assert(ds.take(k - start) =~= ds);
    Some(acc)
}

/// `str::parse::<u64>`.
fn parse_u64_chars(s: &Vec<char>) -> (res: Option<u64>)
    ensures
        res == parse_u64(s@),
{
    let start: usize = if s.len() > 0 && s[0] == '+' {
        1
    } else {
        0
    };
    assert(start == 1 ==> s@.skip(1) =~= s@.drop_first());
    assert(s@.skip(0) =~= s@);
    if start >= s.len() {
        return None;
    }
    match decimal_upto(s, start, u64::MAX as u128) {
        Some(v) => Some(v as u64),
        None => None,
    }
}

/// `str::parse::<i32>`.
fn parse_i32_chars(s: &Vec<char>) -> (res: Option<i32>)
    ensures
        res == parse_i32(s@),
{
    let negative = s.len() > 0 && s[0] == '-';
    let start: usize = if s.len() > 0 && (s[0] == '+' || s[0] == '-') {
        1
    } else {
        0
    };
    assert(start == 1 ==> s@.skip(1) =~= s@.drop_first());
    assert(s@.skip(0) =~= s@);
    if start >= s.len() {
        return None;
    }
    match decimal_upto(s, start, 0x8000_0000) {
        Some(v) => {
            if negative {
                Some((0 - (v as i64)) as i32)
            } else if v <= 0x7fff_ffff {
                Some(v as i32)
            } else {
                None
            }
        },
        None => None,
    }
}

// ---------------------------------------------------------------- key names

pub open spec fn hex_digit(c: char) -> Option<nat> {
    if '0' <= c <= '9' {
        Some((c as nat - '0' as nat) as nat)
    } else if 'A' <= c <= 'Z' {
        Some((c as nat - 'A' as nat + 10) as nat)
    } else if 'a' <= c <= 'z' {
        Some((c as nat - 'a' as nat + 10) as nat)
    } else {
        None
    }
}

/// A digit of base 16.
pub open spec fn is_hex(c: char) -> bool {
    hex_digit(c) matches Some(v) && v < 16
}

pub open spec fn all_hex(d: Seq<char>) -> bool {
    forall|i: int| 0 <= i < d.len() ==> #[trigger] is_hex(d[i])
}

pub open spec fn hexadecimal(d: Seq<char>) -> nat
    decreases d.len(),
{
    if d.len() == 0 {
        0
    } else {
        hexadecimal(d.drop_last()) * 16 + hex_digit(d.last()).unwrap_or(0)
    }
}

/// `str::trim_start_matches("0X")`.
pub open spec fn strip_0x(s: Seq<char>) -> Seq<char>
    decreases s.len(),
{
    if s.len() >= 2 && s[0] == '0' && s[1] == 'X' {
        strip_0x(s.skip(2))
    } else {
        s
    }
}

/// `u8::from_str_radix(s, 16)`.
pub open spec fn parse_hex_u8(s: Seq<char>) -> Option<u8> {
    let d = if s.len() > 0 && s[0] == '+' {
        s.drop_first()
    } else {
        s
    };
    if d.len() > 0 && all_hex(d) && hexadecimal(d) <= 0xff {
        Some(hexadecimal(d) as u8)
    } else {
        None
    }
}

/// The scan code a script names: a key name (any ASCII case) or a
/// hexadecimal code, optionally prefixed by `0x`.
pub open spec fn key_code_of(name: Seq<char>) -> Option<u8> {
    let u = upper(name);
    if u == seq!['R', 'E', 'T', 'U', 'R', 'N'] || u == seq!['E', 'N', 'T', 'E', 'R'] {
        Some(SCAN_RETURN)
    } else if u == seq!['S', 'P', 'A', 'C', 'E'] {
        Some(SCAN_SPACE)
    } else if u == seq!['E', 'S', 'C'] {
        Some(SCAN_ESC)
    } else if u == seq!['U', 'P'] {
        Some(SCAN_UP)
    } else if u == seq!['D', 'O', 'W', 'N'] {
        Some(SCAN_DOWN)
    } else if u == seq!['L', 'E', 'F', 'T'] {
        Some(SCAN_LEFT)
    } else if u == seq!['R', 'I', 'G', 'H', 'T'] {
        Some(SCAN_RIGHT)
    } else if u == seq!['S', 'H', 'I', 'F', 'T'] {
        Some(SCAN_SHIFT)
    } else if u == seq!['C', 'T', 'R', 'L'] {
        Some(SCAN_CTRL)
    } else {
        parse_hex_u8(strip_0x(u))
    }
}

/// Whether `w` spells `k`.
fn spells(w: &Vec<char>, k: &[char]) -> (res: bool)
    ensures
        res == (w@ == k@),
{
    if w.len() != k.len() {
        return false;
    }
    let mut i: usize = 0;
    while i < w.len()
        invariant
            w@.len() == k@.len(),
            i <= w@.len(),
            forall|j: int| 0 <= j < i ==> w@[j] == k@[j],
        decreases w@.len() - i,
    {
        if w[i] != k[i] {
            return false;
        }
        i = i + 1;
    }
    assert(w@ =~= k@);
    true
}

proof fn lemma_hex_prefix(d: Seq<char>, k: int)
    requires
        0 <= k <= d.len(),
    ensures
        hexadecimal(d.take(k)) <= hexadecimal(d),
    decreases d.len(),
{
    if k < d.len() {
        assert(d.drop_last().take(k) =~= d.take(k));
        lemma_hex_prefix(d.drop_last(), k);
    } else {
        assert(d.take(k) =~= d);
    }
}

fn hex_digit_exec(c: char) -> (res: Option<u32>)
    ensures
        match hex_digit(c) {
            Some(v) => res == Some(v as u32),
            None => res is None,
        },
{
    if '0' <= c && c <= '9' {
        Some(c as u32 - '0' as u32)
    } else if 'A' <= c && c <= 'Z' {
        Some(c as u32 - 'A' as u32 + 10)
    } else if 'a' <= c && c <= 'z' {
        Some(c as u32 - 'a' as u32 + 10)
    } else {
        None
    }
}

/// `u8::from_str_radix(&s[start..], 16)`.
fn parse_hex_u8_chars(s: &Vec<char>, start: usize) -> (res: Option<u8>)
    requires
        start <= s@.len(),
    ensures
        res == parse_hex_u8(s@.skip(start as int)),
{
    let ghost t = s@.skip(start as int);
    let mut k = start;
    if k < s.len() && s[k] == '+' {
        k = k + 1;
    }
    let ghost ds = s@.skip(k as int);
    assert(ds =~= if t.len() > 0 && t[0] == '+' { t.drop_first() } else { t });
    if k >= s.len() {
        return None;
    }
    let first = k;
    let mut acc: u32 = 0;
    assert(ds.take(0) =~= Seq::<char>::empty());
    while k < s.len()
        invariant
            first <= k <= s@.len(),
            ds == s@.skip(first as int),
            ds == if t.len() > 0 && t[0] == '+' { t.drop_first() } else { t },
            t == s@.skip(start as int),
            all_hex(ds.take(k - first)),
            acc == hexadecimal(ds.take(k - first)),
            acc <= 0xff,
        decreases s@.len() - k,
    {
        let v = match hex_digit_exec(s[k]) {
            Some(v) => v,
            None => {
                assert(!is_hex(ds[k - first]));
                assert(!all_hex(ds));
                assert(parse_hex_u8(t) is None);
                return None;
            },
        };
        if v >= 16 {
            assert(!is_hex(ds[k - first]));
            assert(!all_hex(ds));
            assert(parse_hex_u8(t) is None);
            return None;
        }
        proof {
            let t2 = ds.take(k - first + 1);
            assert(t2.drop_last() =~= ds.take(k - first));
            assert(t2.last() == s@[k as int]);
        }
        let next = acc * 16 + v;
        if next > 0xff {
            proof {
                lemma_hex_prefix(ds, k - first + 1);
            }
            return None;
        }
        acc = next;
        k = k + 1;
        assert forall|i: int| 0 <= i < ds.take(k - first).len() implies #[trigger] is_hex(ds.take(k - first)[i]) by {
            if i < k - 1 - first {
                assert(ds.take(k - 1 - first)[i] == ds.take(k - first)[i]);
            }
        }
    }
    assert(ds.take(k - first) =~= ds);
    Some(acc as u8)
}

/// The scan code named by a script argument.
pub fn key_code(name: &Vec<char>) -> (res: Option<u8>)
    ensures
        res == key_code_of(name@),
{
    let n = name.len();
    let u = crate::config::upper_chars(name, 0, n);
    assert(name@.subrange(0, n as int) =~= name@);
    if spells(&u, &['R', 'E', 'T', 'U', 'R', 'N']) || spells(&u, &['E', 'N', 'T', 'E', 'R']) {
        return Some(SCAN_RETURN);
    }
    if spells(&u, &['S', 'P', 'A', 'C', 'E']) {
        return Some(SCAN_SPACE);
    }
    if spells(&u, &['E', 'S', 'C']) {
        return Some(SCAN_ESC);
    }
    if spells(&u, &['U', 'P']) {
        return Some(SCAN_UP);
    }
    if spells(&u, &['D', 'O', 'W', 'N']) {
        return Some(SCAN_DOWN);
    }
    if spells(&u, &['L', 'E', 'F', 'T']) {
        return Some(SCAN_LEFT);
    }
    if spells(&u, &['R', 'I', 'G', 'H', 'T']) {
        return Some(SCAN_RIGHT);
    }
    if spells(&u, &['S', 'H', 'I', 'F', 'T']) {
        return Some(SCAN_SHIFT);
    }
    if spells(&u, &['C', 'T', 'R', 'L']) {
        return Some(SCAN_CTRL);
    }
    let mut k: usize = 0;
    assert(u@.skip(0) =~= u@);
    while u.len() - k >= 2 && u[k] == '0' && u[k + 1] == 'X'
        invariant
            k <= u@.len(),
            strip_0x(u@) == strip_0x(u@.skip(k as int)),
        decreases u@.len() - k,
    {
        assert(u@.skip(k as int).skip(2) =~= u@.skip(k + 2));
        k = k + 2;
    }
    assert(strip_0x(u@.skip(k as int)) == u@.skip(k as int));
    parse_hex_u8_chars(&u, k)
}

// ---------------------------------------------------------------- schedule

/// What a script line asks for at a tick: a host event, or a screenshot
/// saved under a file name.
#[derive(Debug, Clone, PartialEq, Eq)]
pub enum Action {
    Event(HostEvent),
    Shot(String),
}

pub enum ActionV {
    Event(HostEvent),
    Shot(Seq<char>),
}

impl Action {
    pub open spec fn view(&self) -> ActionV {
        match self {
            Action::Event(e) => ActionV::Event(*e),
            Action::Shot(name) => ActionV::Shot(name@),
        }
    }
}

/// Why a script is refused; each carries its one-based line number.
#[derive(Debug, Clone, Copy, PartialEq, Eq)]
pub enum ScriptError {
    /// The first word is not a tick number.
    BadTick(usize),
    /// The command lacks an argument.
    MissingArgument(usize),
    /// A coordinate is not a 32-bit integer.
    BadNumber(usize),
    /// A key is neither a known name nor a hexadecimal scan code.
    UnknownKey(usize),
    /// The command is not one of the runner's.
    UnknownCommand(usize),
}

pub open spec fn word_at(parts: Seq<Seq<char>>, i: int) -> Option<Seq<char>> {
    if i < parts.len() {
        Some(parts[i])
    } else {
        None
    }
}

pub open spec fn number_arg(parts: Seq<Seq<char>>, i: int, n: usize) -> Result<i32, ScriptError> {
    match word_at(parts, i) {
        None => Err(ScriptError::MissingArgument(n)),
        Some(w) => match parse_i32(w) {
            None => Err(ScriptError::BadNumber(n)),
            Some(v) => Ok(v),
        },
    }
}

pub open spec fn key_arg(parts: Seq<Seq<char>>, i: int, n: usize) -> Result<u8, ScriptError> {
    match word_at(parts, i) {
        None => Err(ScriptError::MissingArgument(n)),
        Some(w) => match key_code_of(w) {
            None => Err(ScriptError::UnknownKey(n)),
            Some(c) => Ok(c),
        },
    }
}

pub open spec fn button(left: bool, pressed: bool) -> ActionV {
    ActionV::Event(HostEvent::MouseButton { left, pressed })
}

pub open spec fn key_event(code: u8, pressed: bool) -> ActionV {
    ActionV::Event(HostEvent::Key { code, pressed })
}

/// The (tick, action) pairs of a command at tick `t` on line `n`, or its
/// error; `None` where a later tick would pass `u64::MAX`.
pub open spec fn command_actions(parts: Seq<Seq<char>>, t: u64, n: usize) -> Option<Result<Seq<(u64, ActionV)>, ScriptError>> {
    let cmd = if parts.len() > 1 {
        parts[1]
    } else {
        Seq::empty()
    };
    if cmd == seq!['m', 'o', 'v', 'e'] {
        Some(
            match number_arg(parts, 2, n) {
                Err(e) => Err(e),
                Ok(x) => match number_arg(parts, 3, n) {
                    Err(e) => Err(e),
                    Ok(y) => Ok(seq![(t, ActionV::Event(HostEvent::MouseMove { x, y }))]),
                },
            },
        )
    } else if cmd == seq!['d', 'o', 'w', 'n'] {
        Some(Ok(seq![(t, button(true, true))]))
    } else if cmd == seq!['u', 'p'] {
        Some(Ok(seq![(t, button(true, false))]))
    } else if cmd == seq!['r', 'd', 'o', 'w', 'n'] {
        Some(Ok(seq![(t, button(false, true))]))
    } else if cmd == seq!['r', 'u', 'p'] {
        Some(Ok(seq![(t, button(false, false))]))
    } else if cmd == seq!['c', 'l', 'i', 'c', 'k'] {
        match number_arg(parts, 2, n) {
            Err(e) => Some(Err(e)),
            Ok(x) => match number_arg(parts, 3, n) {
                Err(e) => Some(Err(e)),
                Ok(y) => if t > u64::MAX - 4 {
                    None
                } else {
                    Some(
                        Ok(
                            seq![
                                (t, ActionV::Event(HostEvent::MouseMove { x, y })),
                                ((t + 1) as u64, button(true, true)),
                                ((t + 4) as u64, button(true, false)),
                            ],
                        ),
                    )
                },
            },
        }
    } else if cmd == seq!['r', 'c', 'l', 'i', 'c', 'k'] {
        if t > u64::MAX - 4 {
            None
        } else {
            Some(Ok(seq![(t, button(false, true)), ((t + 4) as u64, button(false, false))]))
        }
    } else if cmd == seq!['k', 'e', 'y'] {
        match key_arg(parts, 2, n) {
            Err(e) => Some(Err(e)),
            Ok(c) => if t > u64::MAX - 3 {
                None
            } else {
                Some(Ok(seq![(t, key_event(c, true)), ((t + 3) as u64, key_event(c, false))]))
            },
        }
    } else if cmd == seq!['k', 'e', 'y', 'd', 'o', 'w', 'n'] {
        Some(
            match key_arg(parts, 2, n) {
                Err(e) => Err(e),
                Ok(c) => Ok(seq![(t, key_event(c, true))]),
            },
        )
    } else if cmd == seq!['k', 'e', 'y', 'u', 'p'] {
        Some(
            match key_arg(parts, 2, n) {
                Err(e) => Err(e),
                Ok(c) => Ok(seq![(t, key_event(c, false))]),
            },
        )
    } else if cmd == seq!['s', 'h', 'o', 't'] {
        Some(
            match word_at(parts, 2) {
                None => Err(ScriptError::MissingArgument(n)),
                Some(w) => Ok(seq![(t, ActionV::Shot(w))]),
            },
        )
    } else {
        Some(Err(ScriptError::UnknownCommand(n)))
    }
}

/// What line `n` schedules: nothing for a blank or comment line (`#`
/// starts a comment), else the command after its tick.
pub open spec fn line_outcome(line: Seq<char>, n: usize) -> Option<Result<Seq<(u64, ActionV)>, ScriptError>> {
    let parts = words(line.take(find_char(line, '#')));
    if parts.len() == 0 {
        Some(Ok(Seq::empty()))
    } else {
        match parse_u64(parts[0]) {
            None => Some(Err(ScriptError::BadTick(n))),
            Some(t) => command_actions(parts, t, n),
        }
    }
}

/// Appends an action to those already due at its tick.
pub open spec fn push_action(m: Map<u64, Seq<ActionV>>, e: (u64, ActionV)) -> Map<u64, Seq<ActionV>> {
    m.insert(
        e.0,
        (if m.contains_key(e.0) {
            m[e.0]
        } else {
            Seq::empty()
        }).push(e.1),
    )
}

pub open spec fn push_actions(m: Map<u64, Seq<ActionV>>, acts: Seq<(u64, ActionV)>) -> Map<u64, Seq<ActionV>>
    decreases acts.len(),
{
    if acts.len() == 0 {
        m
    } else {
        push_actions(push_action(m, acts[0]), acts.drop_first())
    }
}

/// The schedule of `lines` (the first of them numbered `done + 1`) added
/// to `m`, the first error, or `None` where a tick overflows.
pub open spec fn run_lines(lines: Seq<Seq<char>>, done: nat, m: Map<u64, Seq<ActionV>>) -> Option<
    Result<Map<u64, Seq<ActionV>>, ScriptError>,
>
    decreases lines.len(),
{
    if lines.len() == 0 {
        Some(Ok(m))
    } else {
        match line_outcome(lines[0], (done + 1) as usize) {
            None => None,
            Some(Err(e)) => Some(Err(e)),
            Some(Ok(acts)) => run_lines(lines.drop_first(), done + 1, push_actions(m, acts)),
        }
    }
}

/// The schedule a script text describes.
pub open spec fn script_outcome(text: Seq<char>) -> Option<Result<Map<u64, Seq<ActionV>>, ScriptError>> {
    run_lines(text_lines(text), 0, Map::empty())
}

pub open spec fn schedule_view(m: Map<u64, Vec<Action>>) -> Map<u64, Seq<ActionV>> {
    m.map_values(|v: Vec<Action>| v@.map_values(|a: Action| a.view()))
}

pub open spec fn acts_view(v: Seq<(u64, Action)>) -> Seq<(u64, ActionV)> {
    v.map_values(|e: (u64, Action)| (e.0, e.1.view()))
}

fn push_one(map: &mut BTreeMap<u64, Vec<Action>>, t: u64, a: Action)
    ensures
        schedule_view(final(map)@) == push_action(schedule_view(old(map)@), (t, a.view())),
{
    let ghost before = map@;
    match map.remove(&t) {
        Some(mut v) => {
            let ghost v0 = v@;
            v.push(a);
            map.insert(t, v);
            proof {
                assert(before.contains_key(t) && before[t]@ == v0);
                assert(v@.map_values(|x: Action| x.view()) =~= v0.map_values(|x: Action| x.view()).push(a.view()));
            }
        },
        None => {
            let mut v: Vec<Action> = Vec::new();
            v.push(a);
            map.insert(t, v);
            proof {
                assert(v@.map_values(|x: Action| x.view()) =~= Seq::<ActionV>::empty().push(a.view()));
            }
        },
    }
    assert(schedule_view(map@) =~= push_action(schedule_view(before), (t, a.view())));
}

fn push_all(map: &mut BTreeMap<u64, Vec<Action>>, acts: Vec<(u64, Action)>)
    ensures
        schedule_view(final(map)@) == push_actions(schedule_view(old(map)@), acts_view(acts@)),
{
    let mut rest = acts;
    while rest.len() > 0
        invariant
            push_actions(schedule_view(old(map)@), acts_view(acts@)) == push_actions(schedule_view(map@), acts_view(rest@)),
        decreases rest@.len(),
    {
        let ghost r0 = rest@;
        let (t, a) = rest.remove(0);
        assert(acts_view(r0).drop_first() =~= acts_view(rest@));
        push_one(map, t, a);
    }
    assert(acts_view(rest@) =~= Seq::<(u64, ActionV)>::empty());
}

fn number_arg_exec(parts: &Vec<Vec<char>>, i: usize, n: usize) -> (res: Result<i32, ScriptError>)
    ensures
        res == number_arg(char_vecs(parts@), i as int, n),
{
    if i >= parts.len() {
        return Err(ScriptError::MissingArgument(n));
    }
    match parse_i32_chars(&parts[i]) {
        None => Err(ScriptError::BadNumber(n)),
        Some(v) => Ok(v),
    }
}

fn key_arg_exec(parts: &Vec<Vec<char>>, i: usize, n: usize) -> (res: Result<u8, ScriptError>)
    ensures
        res == key_arg(char_vecs(parts@), i as int, n),
{
    if i >= parts.len() {
        return Err(ScriptError::MissingArgument(n));
    }
    match key_code(&parts[i]) {
        None => Err(ScriptError::UnknownKey(n)),
        Some(c) => Ok(c),
    }
}

fn command_exec(parts: &Vec<Vec<char>>, t: u64, n: usize) -> (res: Option<Result<Vec<(u64, Action)>, ScriptError>>)
    ensures
        match command_actions(char_vecs(parts@), t, n) {
            None => res is None,
            Some(Ok(acts)) => res matches Some(Ok(v)) && acts_view(v@) == acts,
            Some(Err(e)) => res == Some(Err::<Vec<(u64, Action)>, ScriptError>(e)),
        },
{
    let ghost ps = char_vecs(parts@);
    let empty: Vec<char> = Vec::new();
    let cmd: &Vec<char> = if parts.len() > 1 {
        &parts[1]
    } else {
        &empty
    };
    assert(cmd@ == if ps.len() > 1 { ps[1] } else { Seq::<char>::empty() });
    let mut out: Vec<(u64, Action)> = Vec::new();
    if spells(cmd, &['m', 'o', 'v', 'e']) {
        let x = match number_arg_exec(parts, 2, n) {
            Ok(v) => v,
            Err(e) => return Some(Err(e)),
        };
        let y = match number_arg_exec(parts, 3, n) {
            Ok(v) => v,
            Err(e) => return Some(Err(e)),
        };
        out.push((t, Action::Event(HostEvent::MouseMove { x, y })));
    } else if spells(cmd, &['d', 'o', 'w', 'n']) {
        out.push((t, Action::Event(HostEvent::MouseButton { left: true, pressed: true })));
    } else if spells(cmd, &['u', 'p']) {
        out.push((t, Action::Event(HostEvent::MouseButton { left: true, pressed: false })));
    } else if spells(cmd, &['r', 'd', 'o', 'w', 'n']) {
        out.push((t, Action::Event(HostEvent::MouseButton { left: false, pressed: true })));
    } else if spells(cmd, &['r', 'u', 'p']) {
        out.push((t, Action::Event(HostEvent::MouseButton { left: false, pressed: false })));
    } else if spells(cmd, &['c', 'l', 'i', 'c', 'k']) {
        let x = match number_arg_exec(parts, 2, n) {
            Ok(v) => v,
            Err(e) => return Some(Err(e)),
        };
        let y = match number_arg_exec(parts, 3, n) {
            Ok(v) => v,
            Err(e) => return Some(Err(e)),
        };
        if t > u64::MAX - 4 {
            return None;
        }
        out.push((t, Action::Event(HostEvent::MouseMove { x, y })));
        out.push((t + 1, Action::Event(HostEvent::MouseButton { left: true, pressed: true })));
        out.push((t + 4, Action::Event(HostEvent::MouseButton { left: true, pressed: false })));
    } else if spells(cmd, &['r', 'c', 'l', 'i', 'c', 'k']) {
        if t > u64::MAX - 4 {
            return None;
        }
        out.push((t, Action::Event(HostEvent::MouseButton { left: false, pressed: true })));
        out.push((t + 4, Action::Event(HostEvent::MouseButton { left: false, pressed: false })));
    } else if spells(cmd, &['k', 'e', 'y']) {
        let code = match key_arg_exec(parts, 2, n) {
            Ok(v) => v,
            Err(e) => return Some(Err(e)),
        };
        if t > u64::MAX - 3 {
            return None;
        }
        out.push((t, Action::Event(HostEvent::Key { code, pressed: true })));
        out.push((t + 3, Action::Event(HostEvent::Key { code, pressed: false })));
    } else if spells(cmd, &['k', 'e', 'y', 'd', 'o', 'w', 'n']) {
        let code = match key_arg_exec(parts, 2, n) {
            Ok(v) => v,
            Err(e) => return Some(Err(e)),
        };
        out.push((t, Action::Event(HostEvent::Key { code, pressed: true })));
    } else if spells(cmd, &['k', 'e', 'y', 'u', 'p']) {
        let code = match key_arg_exec(parts, 2, n) {
            Ok(v) => v,
            Err(e) => return Some(Err(e)),
        };
        out.push((t, Action::Event(HostEvent::Key { code, pressed: false })));
    } else if spells(cmd, &['s', 'h', 'o', 't']) {
        if parts.len() <= 2 {
            return Some(Err(ScriptError::MissingArgument(n)));
        }
        let name = string_from_chars(&parts[2]);
        out.push((t, Action::Shot(name)));
    } else {
        return Some(Err(ScriptError::UnknownCommand(n)));
    }
    proof {
        match command_actions(ps, t, n).unwrap() {
            Ok(acts) => {
                assert(acts_view(out@) =~= acts);
            },
            Err(e) => {},
        }
    }
    Some(Ok(out))
}

/// The actions of line `s[a..b]`, numbered `n`.
fn line_exec(s: &Vec<char>, a: usize, b: usize, n: usize) -> (res: Option<Result<Vec<(u64, Action)>, ScriptError>>)
    requires
        a <= b <= s@.len(),
    ensures
        match line_outcome(s@.subrange(a as int, b as int), n) {
            None => res is None,
            Some(Ok(acts)) => res matches Some(Ok(v)) && acts_view(v@) == acts,
            Some(Err(e)) => res == Some(Err::<Vec<(u64, Action)>, ScriptError>(e)),
        },
{
    let ghost line = s@.subrange(a as int, b as int);
    let hash = find_in(s, a, b, '#');
    assert(s@.subrange(a as int, hash as int) =~= line.take(find_char(line, '#')));
    let parts = split_words(s, a, hash);
    if parts.len() == 0 {
        let none: Vec<(u64, Action)> = Vec::new();
        assert(acts_view(none@) =~= Seq::<(u64, ActionV)>::empty());
        return Some(Ok(none));
    }
    assert(char_vecs(parts@)[0] == parts@[0]@);
    match parse_u64_chars(&parts[0]) {
        None => Some(Err(ScriptError::BadTick(n))),
        Some(t) => command_exec(&parts, t, n),
    }
}

/// Parses a runner script: one `<tick> <command> [args]` per line, `#`
/// starting a comment.  Commands: `move X Y`, `down`/`up` (left button),
/// `rdown`/`rup`, `click X Y` (move, press one tick later, release four
/// ticks later), `rclick`, `key NAME` (released three ticks later),
/// `keydown NAME`, `keyup NAME` and `shot FILE`.  The actions due at a tick
/// keep the order of the lines that scheduled them.  `None` where a later
/// tick of a command would pass `u64::MAX`.
pub fn try_parse_script(text: &str) -> (res: Option<Result<BTreeMap<u64, Vec<Action>>, ScriptError>>)
    ensures
        match script_outcome(text@) {
            None => res is None,
            Some(Ok(m)) => res matches Some(Ok(r)) && schedule_view(r@) == m,
            Some(Err(e)) => res == Some(Err::<BTreeMap<u64, Vec<Action>>, ScriptError>(e)),
        },
{
    let s = chars_of(text);
    let n = s.len();
    let mut schedule: BTreeMap<u64, Vec<Action>> = BTreeMap::new();
    let mut pos: usize = 0;
    let mut number: usize = 0;
    assert(s@.skip(0) =~= s@);
    assert(schedule_view(schedule@) =~= Map::<u64, Seq<ActionV>>::empty());
    while pos < n
        invariant
            n == s@.len(),
            s@ == text@,
            number <= pos <= n,
            script_outcome(text@) == run_lines(text_lines(s@.skip(pos as int)), number as nat, schedule_view(schedule@)),
        decreases n - pos,
    {
        let nl = find_in(&s, pos, n, '\n');
        assert(s@.subrange(pos as int, n as int) =~= s@.skip(pos as int));
        let end = if nl > pos && s[nl - 1] == '\r' && nl < n {
            nl - 1
        } else {
            nl
        };
        let ghost rest = s@.skip(pos as int);
        let ghost line = s@.subrange(pos as int, end as int);
        let ghost after = if nl < n { s@.skip(nl + 1) } else { Seq::<char>::empty() };
        proof {
            let i = find_char(rest, '\n');
            if i >= rest.len() {
                assert(line =~= rest);
                assert(text_lines(rest) == seq![line]);
                assert(seq![line].drop_first() =~= Seq::<Seq<char>>::empty());
                assert(text_lines(after) =~= Seq::<Seq<char>>::empty());
            } else {
                let l = rest.take(i);
                assert(l =~= s@.subrange(pos as int, nl as int));
                if l.len() > 0 && l.last() == '\r' {
                    assert(line =~= l.drop_last());
                } else {
                    assert(line =~= l);
                }
                assert(rest.skip(i + 1) =~= s@.skip(nl + 1));
                assert(text_lines(rest) == seq![line] + text_lines(after));
                assert((seq![line] + text_lines(after)).drop_first() =~= text_lines(after));
            }
            assert(text_lines(rest)[0] == line);
        }
        number = number + 1;
        let acts = match line_exec(&s, pos, end, number) {
            Some(Ok(a)) => a,
            Some(Err(e)) => return Some(Err(e)),
            None => return None,
        };
        push_all(&mut schedule, acts);
        pos = if nl < n {
            nl + 1
        } else {
            n
        };
        assert(s@.skip(pos as int) =~= after);
    }
    assert(s@.skip(n as int) =~= Seq::<char>::empty());
    Some(Ok(schedule))
}


/// [`try_parse_script`] on a script whose ticks all fit in `u64`.
pub fn parse_script(text: &str) -> (res: Result<BTreeMap<u64, Vec<Action>>, ScriptError>)
    requires
        script_outcome(text@) is Some,
    ensures
        match script_outcome(text@).unwrap() {
            Ok(m) => res is Ok && schedule_view(res.unwrap()@) == m,
            Err(e) => res == Err::<BTreeMap<u64, Vec<Action>>, ScriptError>(e),
        },
{
    match try_parse_script(text) {
        Some(r) => r,
        None => Ok(BTreeMap::new()),
    }
}
} // verus!
