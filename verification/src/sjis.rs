//! Shift-JIS text as used by UK2 resource names, and ASCII helpers.
use vstd::prelude::*;

verus! {

/// The text that `encoding_rs` decodes from Shift-JIS bytes, or `None` when
/// it reports malformed input.
pub uninterp spec fn shift_jis_text(bytes: Seq<u8>) -> Option<Seq<char>>;

/// ASCII bytes read as characters.
pub open spec fn ascii_chars(bytes: Seq<u8>) -> Seq<char> {
    Seq::new(bytes.len(), |i: int| bytes[i] as char)
}

pub open spec fn all_ascii(bytes: Seq<u8>) -> bool {
    forall|i: int| 0 <= i < bytes.len() ==> #[trigger] bytes[i] < 0x80
}

/// `encoding_rs::SHIFT_JIS.decode`: the decoded text, `None` where the
/// decoder reports malformed sequences.  The result is named by
/// [`shift_jis_text`]; the one fact stated of it is the one the crate
/// documents for ASCII-compatible encodings: ASCII input decodes to the
/// same characters.  `decode` panics only when the output size overflows
/// `usize`, which the length bound rules out.
#[verifier::external_body]
pub(crate) fn decode_shift_jis(bytes: &[u8]) -> (res: Option<String>)
    requires
        bytes@.len() <= usize::MAX / 8,
    ensures
        shift_jis_text(bytes@) == (match res {
            Some(s) => Some(s@),
            None => None::<Seq<char>>,
        }),
        all_ascii(bytes@) ==> res is Some && res.unwrap()@ == ascii_chars(bytes@),
{
    let (text, _, had_errors) = encoding_rs::SHIFT_JIS.decode(bytes);
    if had_errors {
        None
    } else {
        Some(text.into_owned())
    }
}

/// Length of the part before the first zero byte.
pub open spec fn nul_len(s: Seq<u8>) -> int
    decreases s.len(),
{
    if s.len() == 0 {
        0
    } else if s[0] == 0 {
        0
    } else {
        1 + nul_len(s.skip(1))
    }
}

/// Index of the first zero byte, or the length where there is none.
pub fn nul_position(raw: &[u8]) -> (n: usize)
    ensures
        n == nul_len(raw@),
        n <= raw@.len(),
        forall|j: int| 0 <= j < n ==> raw@[j] != 0,
{
    let mut end: usize = 0;
    assert(raw@.skip(0) =~= raw@);
    while end < raw.len() && raw[end] != 0
        invariant
            end <= raw@.len(),
            forall|j: int| 0 <= j < end ==> raw@[j] != 0,
            nul_len(raw@) == end + nul_len(raw@.skip(end as int)),
        decreases raw@.len() - end,
    {
        assert(raw@.skip(end as int).skip(1) =~= raw@.skip(end + 1));
        end = end + 1;
    }
    if end == raw.len() {
        assert(raw@.skip(end as int) =~= Seq::<u8>::empty());
    }
    end
}

/// ASCII lower case of one character.
pub open spec fn ascii_lower(c: char) -> char {
    if 'A' <= c <= 'Z' {
        ((c as u32) + 32) as char
    } else {
        c
    }
}

/// ASCII upper case of one character.
pub open spec fn ascii_upper(c: char) -> char {
    if 'a' <= c <= 'z' {
        ((c as u32) - 32) as char
    } else {
        c
    }
}

/// Equal up to ASCII case.
pub open spec fn eq_ignore_case(a: Seq<char>, b: Seq<char>) -> bool {
    a.len() == b.len() && forall|i: int| 0 <= i < a.len() ==> ascii_lower(#[trigger] a[i]) == ascii_lower(b[i])
}

pub fn lower_char(c: char) -> (res: char)
    ensures
        res == ascii_lower(c),
{
    if 'A' <= c && c <= 'Z' {
        let v = c as u32 + 32;
        let r = char_from_ascii(v as u8);
        r
    } else {
        c
    }
}

pub fn upper_char(c: char) -> (res: char)
    ensures
        res == ascii_upper(c),
{
    if 'a' <= c && c <= 'z' {
        let v = c as u32 - 32;
        char_from_ascii(v as u8)
    } else {
        c
    }
}

fn char_from_ascii(b: u8) -> (res: char)
    requires
        b < 0x80,
    ensures
        res == b as char,
{
    b as char
}

/// `str::eq_ignore_ascii_case`.
pub fn eq_ignore_ascii_case(a: &str, b: &str) -> (res: bool)
    ensures
        res == eq_ignore_case(a@, b@),
{
    let n = a.unicode_len();
    let m = b.unicode_len();
    if n != m {
        return false;
    }
    let mut i: usize = 0;
    while i < n
        invariant
            n == a@.len(),
            m == b@.len(),
            n == m,
            i <= n,
            forall|k: int| 0 <= k < i ==> ascii_lower(#[trigger] a@[k]) == ascii_lower(b@[k]),
        decreases n - i,
    {
        if lower_char(a.get_char(i)) != lower_char(b.get_char(i)) {
            return false;
        }
        i = i + 1;
    }
    true
}

/// Characters to a `String` (`String::from_iter`).  The result holds
/// exactly the given characters.
#[verifier::external_body]
pub(crate) fn string_from_chars(chars: &Vec<char>) -> (res: String)
    ensures
        res@ == chars@,
{
    String::from_iter(chars.iter())
}

/// The characters of a string.
pub fn chars_of(s: &str) -> (res: Vec<char>)
    ensures
        res@ == s@,
{
    let n = s.unicode_len();
    let mut v: Vec<char> = Vec::new();
    let mut i: usize = 0;
    while i < n
        invariant
            n == s@.len(),
            i <= n,
            v@ == s@.take(i as int),
        decreases n - i,
    {
        v.push(s.get_char(i));
        i = i + 1;
        assert(v@ =~= s@.take(i as int));
    }
    assert(s@.take(n as int) =~= s@);
    v
}

} // verus!
