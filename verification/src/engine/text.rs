//! Message formatting of `UK2.EXE`: the Borland `vsprintf` that the text
//! and battle windows format their messages with, over an image of the
//! words and far pointers the caller pushed.
#![allow(unused_imports)]

use vstd::prelude::*;

use super::mem::{add_spec, read_spec, reads_spec, strlen_spec, FarPtr, MemView};
use super::Engine;
use crate::mes::le16;

verus! {

/// A formatting argument as pushed on the stack.
#[derive(Debug, Clone, Copy, PartialEq, Eq)]
pub enum PrintfArg {
    Word(u16),
    Far(FarPtr),
}

/// The stack bytes of one argument: a word, or the offset word then the
/// segment word of a far pointer.
pub open spec fn arg_bytes(a: PrintfArg) -> Seq<u8> {
    match a {
        PrintfArg::Word(v) => seq![(v % 256) as u8, (v / 256) as u8],
        PrintfArg::Far(p) => seq![
            (p % 256) as u8,
            ((p / 256) % 256) as u8,
            ((p / 65536) % 256) as u8,
            (p / 16777216) as u8,
        ],
    }
}

/// The stack image of the arguments, first argument first.
pub open spec fn stack_of(args: Seq<PrintfArg>) -> Seq<u8>
    decreases args.len(),
{
    if args.len() == 0 {
        Seq::empty()
    } else {
        stack_of(args.drop_last()) + arg_bytes(args.last())
    }
}

/// A stack byte; zero beyond the pushed arguments.
pub open spec fn stack_byte(st: Seq<u8>, i: int) -> u8 {
    if 0 <= i < st.len() {
        st[i]
    } else {
        0
    }
}

pub open spec fn stack_word(st: Seq<u8>, at: int) -> u16 {
    le16(stack_byte(st, at), stack_byte(st, at + 1))
}

pub open spec fn fbyte(f: Seq<u8>, i: int) -> Option<u8> {
    if 0 <= i < f.len() {
        Some(f[i])
    } else {
        None
    }
}

pub open spec fn is_flag(b: u8) -> bool {
    b == 0x2d || b == 0x30 || b == 0x2b || b == 0x20 || b == 0x23
}

pub open spec fn is_digit_byte(b: u8) -> bool {
    0x30 <= b <= 0x39
}

pub open spec fn is_size(b: u8) -> bool {
    b == 0x6c || b == 0x68 || b == 0x46 || b == 0x4e || b == 0x4c
}

/// The end of the run of bytes from `i` that satisfy `p`.
pub open spec fn run_end(f: Seq<u8>, i: int, kind: int) -> int
    decreases f.len() - i,
{
    if 0 <= i < f.len() && (if kind == 0 {
        is_flag(f[i])
    } else if kind == 1 {
        is_digit_byte(f[i])
    } else {
        is_size(f[i])
    }) {
        run_end(f, i + 1, kind)
    } else {
        i
    }
}

/// Whether byte `c` occurs in `f[i..j]`.
pub open spec fn occurs(f: Seq<u8>, i: int, j: int, c: u8) -> bool {
    exists|k: int| i <= k < j && 0 <= k < f.len() && f[k] == c
}

/// The decimal value of the digits `f[i..j]`.
pub open spec fn dec_value(f: Seq<u8>, i: int, j: int) -> nat
    decreases j - i,
{
    if j <= i {
        0
    } else {
        dec_value(f, i, j - 1) * 10 + (f[j - 1] - 0x30) as nat
    }
}

/// A conversion: its flags, width, precision, size and conversion byte,
/// the format position after it and the stack position its star fields
/// leave.
pub struct Directive {
    pub left: bool,
    pub zero: bool,
    pub plus: bool,
    pub space: bool,
    pub width: Option<int>,
    pub precision: Option<int>,
    pub long: bool,
    pub conv: Option<u8>,
    pub next: int,
    pub at: int,
}

/// The conversion that starts after a `%` at `i`, reading star fields from
/// stack position `at`.
#[verifier::opaque]
pub open spec fn directive(f: Seq<u8>, st: Seq<u8>, i: int, at: int) -> Directive {
    let j = run_end(f, i, 0);
    let (width, k, at1) = if fbyte(f, j) == Some(0x2au8) {
        (Some(stack_word(st, at) as i16 as int), j + 1, at + 2)
    } else {
        let e = run_end(f, j, 1);
        (if e > j { Some(dec_value(f, j, e) as int) } else { None }, e, at)
    };
    let (precision, k2, at2) = if fbyte(f, k) == Some(0x2eu8) {
        if fbyte(f, k + 1) == Some(0x2au8) {
            (Some(stack_word(st, at1) as int), k + 2, at1 + 2)
        } else {
            let e = run_end(f, k + 1, 1);
            (Some(dec_value(f, k + 1, e) as int), e, at1)
        }
    } else {
        (None, k, at1)
    };
    let m = run_end(f, k2, 2);
    Directive {
        left: occurs(f, i, j, 0x2d),
        zero: occurs(f, i, j, 0x30),
        plus: occurs(f, i, j, 0x2b),
        space: occurs(f, i, j, 0x20),
        width,
        precision,
        long: occurs(f, k2, m, 0x6c),
        conv: fbyte(f, m),
        next: m + 1,
        at: at2,
    }
}

/// Width or precision digits beyond `usize`: the formatter fails while it
/// reads them.
pub open spec fn field_overflow(d: Directive) -> bool {
    ||| d.width matches Some(w) && w > usize::MAX
    ||| d.precision matches Some(p) && p > usize::MAX
}

/// A negative `*` width: the formatter fails when it pads to it.
pub open spec fn negative_width(d: Directive) -> bool {
    d.width matches Some(w) && w < 0
}

/// A digit of base 8, 10 or 16.
pub open spec fn digit_char(d: nat, upper: bool) -> u8 {
    if d < 10 {
        (0x30 + d) as u8
    } else if upper {
        (0x41 + d - 10) as u8
    } else {
        (0x61 + d - 10) as u8
    }
}

/// The digits of `v` in `base`, most significant first.
pub open spec fn digits(v: nat, base: nat, upper: bool) -> Seq<u8>
    decreases v,
{
    if base < 2 || v < base {
        seq![digit_char(v, upper)]
    } else {
        proof {
            assert(v / base < v) by (nonlinear_arith)
                requires
                    base >= 2,
                    v >= base,
            ;
        }
        digits(v / base, base, upper).push(digit_char(v % base, upper))
    }
}

/// `digits` widened with leading zeros to `precision`.
pub open spec fn with_precision(d: Seq<u8>, precision: Option<int>) -> Seq<u8> {
    match precision {
        Some(p) => if d.len() < p {
            Seq::new((p - d.len()) as nat, |i: int| 0x30u8) + d
        } else {
            d
        },
        None => d,
    }
}

/// The text of one conversion before padding, whether it is numeric, and
/// the stack position after its arguments.
#[verifier::opaque]
pub open spec fn conv_body(m: MemView, st: Seq<u8>, d: Directive, c: u8) -> (Seq<u8>, bool, int) {
    let at = d.at;
    if c == 0x64 || c == 0x69 {
        let v: int = if d.long {
            (stack_word(st, at + 2) as int * 65536 + stack_word(st, at) as int) as u32 as i32 as int
        } else {
            stack_word(st, at) as i16 as int
        };
        let mag: nat = if v < 0 {
            (-v) as nat
        } else {
            v as nat
        };
        let sign: Seq<u8> = if v < 0 {
            seq![0x2du8]
        } else if d.plus {
            seq![0x2bu8]
        } else if d.space {
            seq![0x20u8]
        } else {
            Seq::empty()
        };
        (sign + with_precision(digits(mag, 10, false), d.precision), true, if d.long { at + 4 } else { at + 2 })
    } else if c == 0x75 || c == 0x78 || c == 0x58 || c == 0x6f {
        let v: nat = if d.long {
            (stack_word(st, at + 2) as nat * 65536 + stack_word(st, at) as nat)
        } else {
            stack_word(st, at) as nat
        };
        let base: nat = if c == 0x75 {
            10
        } else if c == 0x6f {
            8
        } else {
            16
        };
        (with_precision(digits(v, base, c == 0x58), d.precision), true, if d.long { at + 4 } else { at + 2 })
    } else if c == 0x63 {
        (seq![(stack_word(st, at) % 256) as u8], false, at + 2)
    } else if c == 0x73 {
        let ptr = (stack_word(st, at + 2) as int * 65536 + stack_word(st, at) as int) as u32;
        let s = if ptr == 0 {
            seq![0x28u8, 0x6e, 0x75, 0x6c, 0x6c, 0x29]
        } else {
            reads_spec(m, ptr, strlen_spec(m, ptr))
        };
        let t = match d.precision {
            Some(p) => if p < s.len() {
                s.take(p)
            } else {
                s
            },
            None => s,
        };
        (t, false, at + 4)
    } else {
        (seq![c], false, at)
    }
}

/// A conversion's text padded to its width: on the right when left-aligned,
/// with zeros after any sign for a zero-flagged number without precision,
/// else on the left with spaces.
#[verifier::opaque]
pub open spec fn padded(body: Seq<u8>, numeric: bool, d: Directive) -> Seq<u8> {
    let w: int = match d.width {
        Some(w) => w,
        None => 0,
    };
    if body.len() >= w {
        body
    } else {
        let pad = (w - body.len()) as nat;
        if d.left {
            body + Seq::new(pad, |i: int| 0x20u8)
        } else if d.zero && numeric && d.precision is None {
            let s: int = if body.len() > 0 && (body[0] == 0x2d || body[0] == 0x2b || body[0] == 0x20) {
                1
            } else {
                0
            };
            body.take(s) + Seq::new(pad, |i: int| 0x30u8) + body.skip(s)
        } else {
            Seq::new(pad, |i: int| 0x20u8) + body
        }
    }
}

/// The text formatted from position `i` of the format and `at` of the
/// stack: up to a NUL or the end, a conversion without its conversion byte
/// ending it too; `None` where the formatter fails (see `field_overflow`
/// and `negative_width`).
pub open spec fn printf_from(m: MemView, f: Seq<u8>, st: Seq<u8>, i: int, at: int) -> Option<Seq<u8>>
    decreases f.len() - i,
{
    if i < 0 || i >= f.len() || f[i] == 0 {
        Some(Seq::empty())
    } else if f[i] != 0x25 {
        match printf_from(m, f, st, i + 1, at) {
            Some(rest) => Some(seq![f[i]] + rest),
            None => None,
        }
    } else {
        let d = directive(f, st, i + 1, at);
        proof {
            lemma_directive_next(f, st, i + 1, at);
        }
        if field_overflow(d) {
            None
        } else {
            match d.conv {
                None => Some(Seq::empty()),
                Some(c) => if negative_width(d) {
                    None
                } else {
                    let (body, numeric, at2) = conv_body(m, st, d, c);
                    match printf_from(m, f, st, d.next, at2) {
                        Some(rest) => Some(padded(body, numeric, d) + rest),
                        None => None,
                    }
                },
            }
        }
    }
}

/// A format with no conversion and no NUL is copied as it is, whatever
/// the arguments.
pub proof fn lemma_plain_format(m: MemView, f: Seq<u8>, st: Seq<u8>, i: int, at: int)
    requires
        0 <= i <= f.len(),
        forall|k: int| i <= k < f.len() ==> f[k] != 0x25 && f[k] != 0,
    ensures
        printf_from(m, f, st, i, at) == Some(f.subrange(i, f.len() as int)),
    decreases f.len() - i,
{
    if i < f.len() {
        lemma_plain_format(m, f, st, i + 1, at);
        assert(seq![f[i]] + f.subrange(i + 1, f.len() as int) =~= f.subrange(i, f.len() as int));
    } else {
        assert(f.subrange(i, f.len() as int) =~= Seq::<u8>::empty());
    }
}

pub proof fn lemma_run_end(f: Seq<u8>, i: int, kind: int)
    requires
        i >= 0,
    ensures
        i <= run_end(f, i, kind),
        i <= f.len() ==> run_end(f, i, kind) <= f.len(),
    decreases f.len() - i,
{
    if 0 <= i < f.len() && (if kind == 0 {
        is_flag(f[i])
    } else if kind == 1 {
        is_digit_byte(f[i])
    } else {
        is_size(f[i])
    }) {
        lemma_run_end(f, i + 1, kind);
    }
}

pub proof fn lemma_directive_next(f: Seq<u8>, st: Seq<u8>, i: int, at: int)
    requires
        i >= 0,
    ensures
        directive(f, st, i, at).next > i,
        directive(f, st, i, at).conv is Some ==> directive(f, st, i, at).next <= f.len(),
{
    reveal(directive);
    lemma_run_end(f, i, 0);
    let j = run_end(f, i, 0);
    lemma_run_end(f, j, 1);
    lemma_run_end(f, j + 1, 1);
    let k = if fbyte(f, j) == Some(0x2au8) { j + 1 } else { run_end(f, j, 1) };
    lemma_run_end(f, k + 1, 1);
    let k2 = if fbyte(f, k) == Some(0x2eu8) {
        if fbyte(f, k + 1) == Some(0x2au8) { k + 2 } else { run_end(f, k + 1, 1) }
    } else {
        k
    };
    lemma_run_end(f, k2, 2);
}

// ---------------------------------------------------------------- exec

fn stack_bytes(args: &[PrintfArg]) -> (res: Vec<u8>)
    ensures
        res@ == stack_of(args@),
{
    let mut out: Vec<u8> = Vec::new();
    let mut i: usize = 0;
    assert(args@.take(0) =~= Seq::<PrintfArg>::empty());
    while i < args.len()
        invariant
            i <= args@.len(),
            out@ == stack_of(args@.take(i as int)),
        decreases args@.len() - i,
    {
        let ghost before = out@;
        match args[i] {
            PrintfArg::Word(v) => {
                out.push((v % 256) as u8);
                out.push((v / 256) as u8);
            },
            PrintfArg::Far(p) => {
                out.push((p % 256) as u8);
                out.push(((p / 256) % 256) as u8);
                out.push(((p / 65536) % 256) as u8);
                out.push((p / 16777216) as u8);
            },
        }
        assert(args@.take(i + 1).drop_last() =~= args@.take(i as int));
        assert(out@ =~= before + arg_bytes(args@[i as int]));
        i = i + 1;
    }
    assert(args@.take(i as int) =~= args@);
    out
}

fn word_at(st: &Vec<u8>, at: u128) -> (res: u16)
    ensures
        res == stack_word(st@, at as int),
{
    let lo: u8 = if at < st.len() as u128 { st[at as usize] } else { 0 };
    let hi: u8 = if at < st.len() as u128 && at + 1 < st.len() as u128 { st[(at + 1) as usize] } else { 0 };
    lo as u16 + (hi as u16) * 256
}

fn digit_exec(d: u64, upper: bool) -> (res: u8)
    requires
        d < 16,
    ensures
        res == digit_char(d as nat, upper),
{
    if d < 10 {
        (0x30 + d) as u8
    } else if upper {
        (0x41 + d - 10) as u8
    } else {
        (0x61 + d - 10) as u8
    }
}

fn digits_exec(v: u64, base: u64, upper: bool) -> (res: Vec<u8>)
    requires
        2 <= base <= 16,
    ensures
        res@ == digits(v as nat, base as nat, upper),
    decreases v,
{
    if v < base {
        let mut out: Vec<u8> = Vec::new();
        out.push(digit_exec(v, upper));
        out
    } else {
        assert(v / base < v) by (nonlinear_arith)
            requires
                base >= 2,
                v >= base,
        ;
        let mut out = digits_exec(v / base, base, upper);
        out.push(digit_exec(v % base, upper));
        out
    }
}

fn precision_exec(d: Vec<u8>, precision: Option<usize>) -> (res: Vec<u8>)
    ensures
        res@ == with_precision(d@, match precision {
            Some(p) => Some(p as int),
            None => None,
        }),
{
    match precision {
        Some(p) => {
            if d.len() < p {
                let mut out: Vec<u8> = Vec::new();
                let pad = p - d.len();
                let mut k: usize = 0;
                while k < pad
                    invariant
                        k <= pad,
                        out@ == Seq::new(k as nat, |i: int| 0x30u8),
                    decreases pad - k,
                {
                    out.push(0x30);
                    k = k + 1;
                    assert(out@ =~= Seq::new(k as nat, |i: int| 0x30u8));
                }
                let mut j: usize = 0;
                let ghost zeros = out@;
                while j < d.len()
                    invariant
                        j <= d@.len(),
                        out@ == zeros + d@.take(j as int),
                    decreases d@.len() - j,
                {
                    out.push(d[j]);
                    j = j + 1;
                    assert(out@ =~= zeros + d@.take(j as int));
                }
                assert(d@.take(j as int) =~= d@);
                out
            } else {
                d
            }
        },
        None => d,
    }
}

fn in_run(b: u8, kind: u8) -> (res: bool)
    ensures
        res == (if kind == 0 {
            is_flag(b)
        } else if kind == 1 {
            is_digit_byte(b)
        } else {
            is_size(b)
        }),
{
    if kind == 0 {
        b == 0x2d || b == 0x30 || b == 0x2b || b == 0x20 || b == 0x23
    } else if kind == 1 {
        0x30 <= b && b <= 0x39
    } else {
        b == 0x6c || b == 0x68 || b == 0x46 || b == 0x4e || b == 0x4c
    }
}

fn run_end_exec(f: &[u8], i: usize, kind: u8) -> (res: usize)
    requires
        i <= f@.len(),
        kind < 3,
    ensures
        res == run_end(f@, i as int, kind as int),
        i <= res <= f@.len(),
{
    let mut j = i;
    while j < f.len() && in_run(f[j], kind)
        invariant
            i <= j <= f@.len(),
            kind < 3,
            run_end(f@, i as int, kind as int) == run_end(f@, j as int, kind as int),
        decreases f@.len() - j,
    {
        j = j + 1;
    }
    j
}

fn occurs_exec(f: &[u8], i: usize, j: usize, c: u8) -> (res: bool)
    requires
        i <= j <= f@.len(),
    ensures
        res == occurs(f@, i as int, j as int, c),
{
    let mut k = i;
    while k < j
        invariant
            i <= k <= j <= f@.len(),
            forall|q: int| i <= q < k ==> f@[q] != c,
        decreases j - k,
    {
        if f[k] == c {
            assert(f@[k as int] == c);
            return true;
        }
        k = k + 1;
    }
    false
}

proof fn lemma_dec_prefix(f: Seq<u8>, i: int, j: int, k: int)
    requires
        i <= k <= j,
    ensures
        dec_value(f, i, k) <= dec_value(f, i, j),
    decreases j - k,
{
    if k < j {
        lemma_dec_prefix(f, i, j - 1, k);
    }
}

/// The value of the digits `f[i..j]`, or `None` beyond `usize`.
fn dec_exec(f: &[u8], i: usize, j: usize) -> (res: Option<usize>)
    requires
        i <= j <= f@.len(),
        forall|q: int| i <= q < j ==> is_digit_byte(#[trigger] f@[q]),
    ensures
        match res {
            Some(v) => v == dec_value(f@, i as int, j as int),
            None => dec_value(f@, i as int, j as int) > usize::MAX,
        },
{
    let mut acc: u128 = 0;
    let mut k = i;
    while k < j
        invariant
            i <= k <= j <= f@.len(),
            forall|q: int| i <= q < j ==> is_digit_byte(#[trigger] f@[q]),
            acc == dec_value(f@, i as int, k as int),
            acc <= usize::MAX,
        decreases j - k,
    {
        assert(is_digit_byte(f@[k as int]));
        let next = acc * 10 + (f[k] - 0x30) as u128;
        if next > usize::MAX as u128 {
            proof {
                lemma_dec_prefix(f@, i as int, j as int, k + 1);
            }
            return None;
        }
        acc = next;
        k = k + 1;
    }
    Some(acc as usize)
}

/// A parsed conversion in exec form. `overflow` where its digits run
/// beyond `usize` (the other fields are then meaningless), `neg` for a
/// negative `*` width (then `width` is `None`).
struct Conv {
    left: bool,
    zero: bool,
    plus: bool,
    space: bool,
    width: Option<usize>,
    neg: bool,
    precision: Option<usize>,
    long: bool,
    conv: Option<u8>,
    conv_at: usize,
    at: u128,
    overflow: bool,
}

spec fn opt_int(o: Option<usize>) -> Option<int> {
    match o {
        Some(v) => Some(v as int),
        None => None,
    }
}

spec fn conv_matches(c: Conv, d: Directive) -> bool {
    &&& c.overflow == field_overflow(d)
    &&& !c.overflow ==> {
        &&& c.left == d.left && c.zero == d.zero && c.plus == d.plus && c.space == d.space
        &&& c.neg == negative_width(d)
        &&& !c.neg ==> opt_int(c.width) == d.width
        &&& opt_int(c.precision) == d.precision
        &&& c.long == d.long
        &&& c.conv == d.conv
        &&& c.conv_at + 1 == d.next
        &&& c.at == d.at
    }
}

fn parse_conv(f: &[u8], st: &Vec<u8>, i: usize, at: u128) -> (res: Conv)
    requires
        i <= f@.len(),
        at <= u128::MAX - 8,
    ensures
        conv_matches(res, directive(f@, st@, i as int, at as int)),
        !res.overflow ==> res.conv_at <= f@.len() && res.at <= at + 4,
        !res.overflow && res.conv is Some ==> res.conv_at < f@.len(),
{
    reveal(directive);
    let ghost d = directive(f@, st@, i as int, at as int);
    let j = run_end_exec(f, i, 0);
    let left = occurs_exec(f, i, j, 0x2d);
    let zero = occurs_exec(f, i, j, 0x30);
    let plus = occurs_exec(f, i, j, 0x2b);
    let space = occurs_exec(f, i, j, 0x20);
    let mut k: usize;
    let mut at1: u128 = at;
    let width: Option<usize>;
    let mut neg = false;
    if j < f.len() && f[j] == 0x2a {
        let w = word_at(st, at) as i16;
        if w < 0 {
            neg = true;
            width = None;
        } else {
            width = Some(w as usize);
        }
        k = j + 1;
        at1 = at + 2;
    } else {
        let e = run_end_exec(f, j, 1);
        proof {
            assert forall|q: int| j <= q < e implies is_digit_byte(#[trigger] f@[q]) by {
                lemma_run_digits(f@, j as int, q);
            }
        }
        if e > j {
            match dec_exec(f, j, e) {
                Some(v) => {
                    width = Some(v);
                },
                None => {
                    return Conv { left, zero, plus, space, width: None, neg: false, precision: None, long: false, conv: None, conv_at: 0, at: 0, overflow: true };
                },
            }
        } else {
            width = None;
        }
        k = e;
    }
    let mut at2: u128 = at1;
    let precision: Option<usize>;
    let k2: usize;
    if k < f.len() && f[k] == 0x2e {
        if k + 1 < f.len() && f[k + 1] == 0x2a {
            precision = Some(word_at(st, at1) as usize);
            k2 = k + 2;
            at2 = at1 + 2;
        } else {
            let e = run_end_exec(f, k + 1, 1);
            proof {
                assert forall|q: int| k + 1 <= q < e implies is_digit_byte(#[trigger] f@[q]) by {
                    lemma_run_digits(f@, k + 1, q);
                }
            }
            match dec_exec(f, k + 1, e) {
                Some(v) => {
                    precision = Some(v);
                },
                None => {
                    return Conv { left, zero, plus, space, width: None, neg: false, precision: None, long: false, conv: None, conv_at: 0, at: 0, overflow: true };
                },
            }
            k2 = e;
        }
    } else {
        precision = None;
        k2 = k;
    }
    let m = run_end_exec(f, k2, 2);
    let long = occurs_exec(f, k2, m, 0x6c);
    let conv = if m < f.len() { Some(f[m]) } else { None };
    Conv { left, zero, plus, space, width, neg, precision, long, conv, conv_at: m, at: at2, overflow: false }
}

proof fn lemma_run_digits(f: Seq<u8>, j: int, q: int)
    requires
        0 <= j <= q < run_end(f, j, 1),
    ensures
        is_digit_byte(f[q]),
    decreases q - j,
{
    if j < q {
        assert(run_end(f, j, 1) == run_end(f, j + 1, 1));
        lemma_run_digits(f, j + 1, q);
    }
}


/// The far pointer or long made of the two words at `at`, low word first.
fn long_at(st: &Vec<u8>, at: u128) -> (res: u32)
    requires
        at <= u128::MAX - 4,
    ensures
        res as int == stack_word(st@, at + 2) as int * 65536 + stack_word(st@, at as int) as int,
{
    let lo = word_at(st, at);
    let hi = word_at(st, at + 2);
    (hi as u32) * 65536 + lo as u32
}

/// `out` followed by `n` copies of `b`.
fn fill(out: &mut Vec<u8>, b: u8, n: usize)
    ensures
        final(out)@ == old(out)@ + Seq::new(n as nat, |i: int| b),
{
    let ghost start = out@;
    let mut k: usize = 0;
    while k < n
        invariant
            k <= n,
            out@ == start + Seq::new(k as nat, |i: int| b),
        decreases n - k,
    {
        out.push(b);
        k = k + 1;
        assert(out@ =~= start + Seq::new(k as nat, |i: int| b));
    }
}

/// `out` followed by `src[from..]`.
fn push_from(out: &mut Vec<u8>, src: &Vec<u8>, from: usize)
    requires
        from <= src@.len(),
    ensures
        final(out)@ == old(out)@ + src@.skip(from as int),
{
    let ghost start = out@;
    let mut k: usize = from;
    while k < src.len()
        invariant
            from <= k <= src@.len(),
            out@ == start + src@.subrange(from as int, k as int),
        decreases src@.len() - k,
    {
        out.push(src[k]);
        k = k + 1;
        assert(out@ =~= start + src@.subrange(from as int, k as int));
    }
    assert(src@.subrange(from as int, k as int) =~= src@.skip(from as int));
}

fn padded_exec(body: Vec<u8>, numeric: bool, c: &Conv, Ghost(d): Ghost<Directive>) -> (res: Vec<u8>)
    requires
        conv_matches(*c, d),
        !c.overflow,
        !c.neg,
    ensures
        res@ == padded(body@, numeric, d),
{
    reveal(padded);
    let w: usize = match c.width {
        Some(w) => w,
        None => 0,
    };
    if body.len() >= w {
        return body;
    }
    let pad = w - body.len();
    let mut out: Vec<u8> = Vec::new();
    if c.left {
        push_from(&mut out, &body, 0);
        fill(&mut out, 0x20, pad);
        assert(body@.skip(0) =~= body@);
    } else if c.zero && numeric && c.precision.is_none() {
        let s: usize = if body.len() > 0 && (body[0] == 0x2d || body[0] == 0x2b || body[0] == 0x20) {
            1
        } else {
            0
        };
        if s == 1 {
            out.push(body[0]);
        }
        assert(out@ =~= body@.take(s as int));
        fill(&mut out, 0x30, pad);
        push_from(&mut out, &body, s);
    } else {
        fill(&mut out, 0x20, pad);
        push_from(&mut out, &body, 0);
        assert(body@.skip(0) =~= body@);
    }
    out
}

impl Engine {
    /// The text of one conversion before padding, whether it is numeric,
    /// and the stack position after its arguments.
    fn conv_body_exec(&self, st: &Vec<u8>, c: &Conv, cb: u8, Ghost(d): Ghost<Directive>) -> (res: (Vec<u8>, bool, u128))
        requires
            self.mem_ok(),
            conv_matches(*c, d),
            !c.overflow,
            c.at <= u128::MAX - 8,
        ensures
            res.0@ == conv_body(self.memory(), st@, d, cb).0,
            res.1 == conv_body(self.memory(), st@, d, cb).1,
            res.2 == conv_body(self.memory(), st@, d, cb).2,
            res.2 <= c.at + 4,
    {
        reveal(conv_body);
        let at = c.at;
        if cb == 0x64 || cb == 0x69 {
            let v: i64 = if c.long {
                (long_at(st, at) as i32) as i64
            } else {
                (word_at(st, at) as i16) as i64
            };
            let mag: u64 = if v < 0 {
                (0 - v) as u64
            } else {
                v as u64
            };
            let mut digs = precision_exec(digits_exec(mag, 10, false), c.precision);
            let mut body: Vec<u8> = Vec::new();
            if v < 0 {
                body.push(0x2d);
            } else if c.plus {
                body.push(0x2b);
            } else if c.space {
                body.push(0x20);
            }
            body.append(&mut digs);
            let next = if c.long {
                at + 4
            } else {
                at + 2
            };
            (body, true, next)
        } else if cb == 0x75 || cb == 0x78 || cb == 0x58 || cb == 0x6f {
            let v: u64 = if c.long {
                long_at(st, at) as u64
            } else {
                word_at(st, at) as u64
            };
            let base: u64 = if cb == 0x75 {
                10
            } else if cb == 0x6f {
                8
            } else {
                16
            };
            let body = precision_exec(digits_exec(v, base, cb == 0x58), c.precision);
            let next = if c.long {
                at + 4
            } else {
                at + 2
            };
            (body, true, next)
        } else if cb == 0x63 {
            let mut body: Vec<u8> = Vec::new();
            body.push((word_at(st, at) % 256) as u8);
            (body, false, at + 2)
        } else if cb == 0x73 {
            let ptr = long_at(st, at);
            let mut s: Vec<u8> = if ptr == 0 {
                let mut null: Vec<u8> = Vec::new();
                null.push(0x28);
                null.push(0x6e);
                null.push(0x75);
                null.push(0x6c);
                null.push(0x6c);
                null.push(0x29);
                null
            } else {
                self.mem.cstr(ptr)
            };
            match c.precision {
                Some(p) => {
                    if p < s.len() {
                        s.truncate(p);
                    }
                },
                None => {},
            }
            (s, false, at + 4)
        } else {
            let mut body: Vec<u8> = Vec::new();
            body.push(cb);
            (body, false, at)
        }
    }
}

impl Engine {
    /// Borland `vsprintf` over the stack image of `args`: the formatted
    /// bytes of `format` up to its NUL or end.
    #[verifier::rlimit(30)]
    pub fn sprintf(&self, format: &[u8], args: &[PrintfArg]) -> (res: Vec<u8>)
        requires
            self.mem_ok(),
            printf_from(self.memory(), format@, stack_of(args@), 0, 0) is Some,
        ensures
            res@ == printf_from(self.memory(), format@, stack_of(args@), 0, 0).unwrap(),
    {
        let st = stack_bytes(args);
        let ghost m = self.memory();
        let ghost whole = printf_from(m, format@, st@, 0, 0).unwrap();
        let mut out: Vec<u8> = Vec::new();
        let mut i: usize = 0;
        let mut at: u128 = 0;
        loop
            invariant
                self.mem_ok(),
                m == self.memory(),
                st@ == stack_of(args@),
                whole == printf_from(m, format@, st@, 0, 0).unwrap(),
                i <= format@.len(),
                at <= 8 * i,
                printf_from(m, format@, st@, i as int, at as int) is Some,
                whole == out@ + printf_from(m, format@, st@, i as int, at as int).unwrap(),
            decreases format@.len() - i,
        {
            if i >= format.len() || format[i] == 0 {
                assert(out@ + Seq::<u8>::empty() =~= out@);
                return out;
            }
            if format[i] != 0x25 {
                let ghost rest = printf_from(m, format@, st@, i + 1, at as int).unwrap();
                assert(out@ + (seq![format@[i as int]] + rest) =~= out@.push(format@[i as int]) + rest);
                out.push(format[i]);
                i = i + 1;
            } else {
                let ghost d = directive(format@, st@, i + 1, at as int);
                proof {
                    lemma_directive_next(format@, st@, i + 1, at as int);
                }
                let c = parse_conv(format, &st, i + 1, at);
                if c.overflow {
                    return out;
                }
                match c.conv {
                    None => {
                        assert(out@ + Seq::<u8>::empty() =~= out@);
                        return out;
                    },
                    Some(cb) => {
                        if c.neg {
                            return out;
                        }
                        let (body, numeric, at2) = self.conv_body_exec(&st, &c, cb, Ghost(d));
                        let mut p = padded_exec(body, numeric, &c, Ghost(d));
                        let ghost rest = printf_from(m, format@, st@, d.next, at2 as int).unwrap();
                        assert(out@ + (p@ + rest) =~= (out@ + p@) + rest);
                        out.append(&mut p);
                        i = c.conv_at + 1;
                        at = at2;
                    },
                }
            }
        }
    }
}
} // verus!
