//! Character classification, string comparison and trimming, and decimal numbers, shared
//! by the lexers, the interactive calculator and the rendering of diagnostics.
use vstd::prelude::*;
use vstd::string::*;

verus! {

broadcast use vstd::string::group_string_axioms;

/// Whether `c` is an ASCII decimal digit, `'0'..='9'`.
pub open spec fn spec_is_ascii_digit(c: char) -> bool {
    '0' <= c && c <= '9'
}

/// Whether `c` is a blank that separates tokens: a space or a tab.
pub open spec fn is_blank(c: char) -> bool {
    c == ' ' || c == '\t'
}

/// Whether every character of `s` is an ASCII decimal digit.
pub open spec fn all_ascii_digits(s: Seq<char>) -> bool {
    forall|i: int| 0 <= i < s.len() ==> #[trigger] spec_is_ascii_digit(s[i])
}

/// The value of a run of decimal digits, most significant digit first.
pub open spec fn digits_value(s: Seq<char>) -> nat
    decreases s.len(),
{
    if s.len() == 0 {
        0
    } else {
        10 * digits_value(s.drop_last()) + ((s.last() as int) - ('0' as int)) as nat
    }
}

/// What `str::parse::<u8>` gives for a run of ASCII digits: the decimal value when
/// there is at least one digit and the value fits in a byte.
pub open spec fn spec_parse_u8(s: Seq<char>) -> Option<u8> {
    if s.len() > 0 && digits_value(s) <= 255 {
        Some(digits_value(s) as u8)
    } else {
        None
    }
}

/// Whether `c` has the Unicode `Alphabetic` property, as `char::is_alphabetic` answers.
pub uninterp spec fn char_is_alphabetic(c: char) -> bool;

/// Whether `c` is in one of the Unicode number categories, as `char::is_numeric` answers.
pub uninterp spec fn char_is_numeric(c: char) -> bool;

/// Whether `c` is an ASCII decimal digit.
pub fn is_ascii_digit(c: char) -> (r: bool)
    ensures
        r == spec_is_ascii_digit(c),
{
    '0' <= c && c <= '9'
}

/// Whether `c` is alphabetic: for an ASCII character, whether it is a letter; beyond
/// ASCII, the Unicode property that `char::is_alphabetic` answers.
pub open spec fn alphabetic(c: char) -> bool {
    if c <= '\x7f' {
        'a' <= c <= 'z' || 'A' <= c <= 'Z'
    } else {
        char_is_alphabetic(c)
    }
}

/// Whether `c` is numeric: for an ASCII character, whether it is a digit; beyond ASCII,
/// the Unicode categories that `char::is_numeric` answers.
pub open spec fn numeric(c: char) -> bool {
    if c <= '\x7f' {
        '0' <= c <= '9'
    } else {
        char_is_numeric(c)
    }
}

/// Calls `char::is_alphabetic`; the contract names its answer `char_is_alphabetic(c)`,
/// and states, as std's documentation does, that among the ASCII characters exactly the
/// letters are alphabetic.
#[verifier::external_body]
pub(crate) fn is_alphabetic(c: char) -> (r: bool)
    ensures
        r == char_is_alphabetic(c),
        c <= '\x7f' ==> (r <==> ('a' <= c <= 'z' || 'A' <= c <= 'Z')),
{
    c.is_alphabetic()
}

/// Calls `char::is_numeric`; the contract names its answer `char_is_numeric(c)`, and
/// states, as std's documentation does, that among the ASCII characters exactly the
/// digits are numeric.
#[verifier::external_body]
pub(crate) fn is_numeric(c: char) -> (r: bool)
    ensures
        r == char_is_numeric(c),
        c <= '\x7f' ==> (r <==> ('0' <= c <= '9')),
{
    c.is_numeric()
}

/// Whether two texts hold the same characters, compared one by one.
pub(crate) fn str_eq(a: &str, b: &str) -> (r: bool)
    ensures
        r == (a@ == b@),
{
    let va = collect_chars(a);
    let vb = collect_chars(b);
    if va.len() != vb.len() {
        return false;
    }
    let mut i: usize = 0;
    while i < va.len()
        invariant
            va@ == a@,
            vb@ == b@,
            va.len() == vb.len(),
            i <= va.len(),
            forall|j: int| 0 <= j < i ==> va@[j] == vb@[j],
        decreases va.len() - i,
    {
        if va[i] != vb[i] {
            assert(a@[i as int] != b@[i as int]);
            return false;
        }
        i = i + 1;
    }
    assert(a@ =~= b@);
    true
}

/// Reads a run of ASCII digits as a byte, as `str::parse::<u8>` does: its decimal value,
/// or `None` where it is empty or the value does not fit in a `u8`.
pub(crate) fn parse_u8(s: &str) -> (r: Option<u8>)
    requires
        all_ascii_digits(s@),
    ensures
        r == spec_parse_u8(s@),
{
    let cs = collect_chars(s);
    // the value read so far, or 256 once it no longer fits in a byte
    let mut v: u16 = 0;
    let mut i: usize = 0;
    while i < cs.len()
        invariant
            cs@ == s@,
            all_ascii_digits(s@),
            i <= cs.len(),
            v as nat == (if digits_value(s@.take(i as int)) <= 255 {
                digits_value(s@.take(i as int))
            } else {
                256
            }),
        decreases cs.len() - i,
    {
        let c = cs[i];
        proof {
            assert(spec_is_ascii_digit(s@[i as int]));
            let t = s@.take(i as int + 1);
            assert(t.drop_last() =~= s@.take(i as int));
            assert(t.last() == c);
        }
        let d: u16 = (c as u32 - '0' as u32) as u16;
        if v < 256 {
            let n: u16 = 10 * v + d;
            v = if n > 255 { 256 } else { n };
        }
        i = i + 1;
    }
    assert(s@.take(cs.len() as int) =~= s@);
    if cs.len() > 0 && v <= 255 {
        Some(v as u8)
    } else {
        None
    }
}

/// What `str::trim` gives for a text: the text without its leading and trailing
/// whitespace, whitespace being the characters with the Unicode `White_Space` property.
pub uninterp spec fn str_trimmed(s: Seq<char>) -> Seq<char>;

/// Calls `str::trim`; the contract names its result `str_trimmed(s)`. Which characters
/// count as whitespace is left unsaid.
#[verifier::external_body]
pub(crate) fn trim(s: &str) -> (r: &str)
    ensures
        r@ == str_trimmed(s@),
{
    s.trim()
}

/// What `str::escape_debug` gives for a text: the text with the characters that `{:?}`
/// escapes written as escapes.
pub uninterp spec fn debug_escaped(s: Seq<char>) -> Seq<char>;

/// Calls `str::escape_debug` and collects the result into a `String`; the contract names
/// the result `debug_escaped`.
#[verifier::external_body]
pub(crate) fn escape_debug(s: &str) -> (r: String)
    ensures
        r@ == debug_escaped(s@),
{
    s.escape_debug().to_string()
}

/// Collects the characters of `s`, in order, into a vector.
pub fn collect_chars(s: &str) -> (v: Vec<char>)
    ensures
        v@ == s@,
{
    let mut v: Vec<char> = Vec::new();
    for c in it: s.chars()
        invariant
            v@ == it.seq().take(it.index() as int),
            it.seq() == s@,
    {
        v.push(c);
    }
    v
}


/// The character of a decimal digit `d < 10`.
pub open spec fn digit_char(d: nat) -> char {
    if d == 0 { '0' }
    else if d == 1 { '1' }
    else if d == 2 { '2' }
    else if d == 3 { '3' }
    else if d == 4 { '4' }
    else if d == 5 { '5' }
    else if d == 6 { '6' }
    else if d == 7 { '7' }
    else if d == 8 { '8' }
    else { '9' }
}

/// The decimal representation of `n`, without leading zeros (`"0"` for zero), as
/// `{}` formats an unsigned integer.
pub open spec fn decimal(n: nat) -> Seq<char>
    decreases n,
{
    if n < 10 {
        seq![digit_char(n)]
    } else {
        decimal(n / 10) + seq![digit_char(n % 10)]
    }
}

/// Every number has at least one digit.
pub proof fn lemma_decimal_len(n: nat)
    ensures
        decimal(n).len() >= 1,
        decimal(n).len() == 1 <==> n < 10,
    decreases n,
{
    if n >= 10 {
        lemma_decimal_len(n / 10);
    }
}

/// Two numbers with the same decimal representation are the same number.
pub proof fn lemma_decimal_injective(a: nat, b: nat)
    requires
        decimal(a) == decimal(b),
    ensures
        a == b,
    decreases a,
{
    lemma_decimal_len(a);
    lemma_decimal_len(b);
    if a < 10 && b < 10 {
        assert(decimal(a)[0] == digit_char(a));
        assert(decimal(b)[0] == digit_char(b));
    } else if a >= 10 && b >= 10 {
        let da = decimal(a);
        let db = decimal(b);
        assert(da.last() == digit_char(a % 10));
        assert(db.last() == digit_char(b % 10));
        assert(da.drop_last() =~= decimal(a / 10));
        assert(db.drop_last() =~= decimal(b / 10));
        lemma_decimal_injective(a / 10, b / 10);
    }
}

proof fn lemma_digit_char(d: nat)
    requires
        d < 10,
    ensures
        spec_is_ascii_digit(digit_char(d)),
        (digit_char(d) as int) - ('0' as int) == d,
{
}

/// The decimal representation of a number is a run of ASCII digits worth that number.
pub proof fn lemma_decimal_digits(n: nat)
    ensures
        all_ascii_digits(decimal(n)),
        digits_value(decimal(n)) == n,
    decreases n,
{
    let d = decimal(n);
    if n < 10 {
        lemma_digit_char(n);
        assert(d.drop_last() =~= Seq::<char>::empty());
        assert(spec_is_ascii_digit(d[0]));
        assert(digits_value(d.drop_last()) == 0);
    } else {
        lemma_digit_char(n % 10);
        lemma_decimal_digits(n / 10);
        assert(d.drop_last() =~= decimal(n / 10));
        assert(d.last() == digit_char(n % 10));
        assert forall|i: int| 0 <= i < d.len() implies #[trigger] spec_is_ascii_digit(d[i]) by {
            if i < d.len() - 1 {
                assert(d[i] == decimal(n / 10)[i]);
            }
        }
    }
}

/// A byte's decimal representation parses back to it.
pub proof fn lemma_parse_decimal(n: u8)
    ensures
        spec_parse_u8(decimal(n as nat)) == Some(n),
        all_ascii_digits(decimal(n as nat)),
{
    lemma_decimal_digits(n as nat);
    lemma_decimal_len(n as nat);
}

/// Calls `String::push`, which std documents as appending the character at the end.
#[verifier::external_body]
pub(crate) fn push_char(s: &mut String, c: char)
    ensures
        final(s)@ == old(s)@.push(c),
{
    s.push(c)
}

fn digit_to_char(d: usize) -> (c: char)
    requires
        d < 10,
    ensures
        c == digit_char(d as nat),
{
    match d {
        0 => '0',
        1 => '1',
        2 => '2',
        3 => '3',
        4 => '4',
        5 => '5',
        6 => '6',
        7 => '7',
        8 => '8',
        _ => '9',
    }
}

/// Appends the decimal representation of `n` to `s`.
pub fn push_decimal(s: &mut String, n: usize)
    ensures
        final(s)@ == old(s)@ + decimal(n as nat),
    decreases n,
{
    if n < 10 {
        push_char(s, digit_to_char(n));
    } else {
        push_decimal(s, n / 10);
        push_char(s, digit_to_char(n % 10));
        assert(final(s)@ =~= old(s)@ + decimal(n as nat));
    }
}

/// Appends `t` to `s`.
pub fn push_str(s: &mut String, t: &str)
    ensures
        final(s)@ == old(s)@ + t@,
{
    s.append(t);
}


/// A byte as `{:02}` formats it: at least two digits, with a leading zero below ten.
pub open spec fn pad2(n: u8) -> Seq<char> {
    if n < 10 {
        "0"@ + decimal(n as nat)
    } else {
        decimal(n as nat)
    }
}

/// Bytes on one line, each after a space and padded to two digits.
pub open spec fn byte_row(bs: Seq<u8>) -> Seq<char>
    decreases bs.len(),
{
    if bs.len() == 0 {
        Seq::empty()
    } else {
        byte_row(bs.drop_last()) + " "@ + pad2(bs.last())
    }
}

/// Bytes sixteen to a line, each line ended by a line break.
pub open spec fn byte_rows(bs: Seq<u8>) -> Seq<char>
    decreases bs.len(),
{
    if bs.len() == 0 {
        Seq::empty()
    } else if bs.len() <= 16 {
        byte_row(bs) + "\n"@
    } else {
        byte_row(bs.take(16)) + "\n"@ + byte_rows(bs.skip(16))
    }
}

/// Appends a byte padded to two digits.
pub fn push_pad2(s: &mut String, n: u8)
    ensures
        final(s)@ == old(s)@ + pad2(n),
{
    if n < 10 {
        push_str(s, "0");
    }
    push_decimal(s, n as usize);
    assert(final(s)@ =~= old(s)@ + pad2(n));
}

/// Appends the bytes `bs[start..end]` on one line.
pub fn push_byte_row(s: &mut String, bs: &[u8], start: usize, end: usize)
    requires
        start <= end <= bs@.len(),
    ensures
        final(s)@ == old(s)@ + byte_row(bs@.subrange(start as int, end as int)),
{
    let mut i = start;
    assert(bs@.subrange(start as int, start as int) =~= Seq::<u8>::empty());
    while i < end
        invariant
            start <= i <= end <= bs@.len(),
            s@ == old(s)@ + byte_row(bs@.subrange(start as int, i as int)),
        decreases end - i,
    {
        push_str(s, " ");
        push_pad2(s, bs[i]);
        assert(bs@.subrange(start as int, i + 1).drop_last() =~= bs@.subrange(start as int, i as int));
        i = i + 1;
    }
}

/// Appends the bytes sixteen to a line.
pub fn push_byte_rows(s: &mut String, bs: &[u8])
    ensures
        final(s)@ == old(s)@ + byte_rows(bs@),
{
    let n = bs.len();
    let mut i: usize = 0;
    assert(bs@.skip(0) =~= bs@);
    while i < n
        invariant
            n == bs@.len(),
            i <= n,
            s@ + byte_rows(bs@.skip(i as int)) == old(s)@ + byte_rows(bs@),
        decreases n - i,
    {
        let ghost rest = bs@.skip(i as int);
        let end = if n - i <= 16 { n } else { i + 16 };
        let ghost before = s@;
        push_byte_row(s, bs, i, end);
        push_str(s, "\n");
        if n - i <= 16 {
            assert(bs@.subrange(i as int, end as int) =~= rest);
            assert(bs@.skip(end as int) =~= Seq::<u8>::empty());
        } else {
            assert(bs@.subrange(i as int, end as int) =~= rest.take(16));
            assert(bs@.skip(end as int) =~= rest.skip(16));
        }
        assert(s@ + byte_rows(bs@.skip(end as int)) =~= before + byte_rows(rest));
        i = end;
    }
    assert(bs@.skip(n as int) =~= Seq::<u8>::empty());
    assert(s@ =~= old(s)@ + byte_rows(bs@));
}

} // verus!
