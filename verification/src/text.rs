//! Character and string helpers shared by the configuration codec, the
//! display buffer's search, and the logger's record formatting.

use vstd::prelude::*;

verus! {

/// ASCII lower-casing of one character: `A`..`Z` map to `a`..`z`,
/// everything else is unchanged.
pub open spec fn lower_char(c: char) -> char {
    if 'A' <= c && c <= 'Z' {
        (((c as u8) + 0x20) as char)
    } else {
        c
    }
}

/// ASCII lower-casing of a character sequence, position by position.
pub open spec fn lower_seq(s: Seq<char>) -> Seq<char> {
    s.map_values(|c: char| lower_char(c))
}

/// Lower-cases one character, ASCII-only.
pub fn to_lower_char(c: char) -> (r: char)
    ensures
        r == lower_char(c),
{
    if 'A' <= c && c <= 'Z' {
        ((c as u8) + 0x20) as char
    } else {
        c
    }
}

/// Collects the characters of a string slice into a vector.
pub fn chars_of(s: &str) -> (r: Vec<char>)
    ensures
        r@ == s@,
{
    let n = s.unicode_len();
    let mut out: Vec<char> = Vec::new();
    let mut i: usize = 0;
    while i < n
        invariant
            n == s@.len(),
            i <= n,
            out@ == s@.take(i as int),
        decreases n - i,
    {
        out.push(s.get_char(i));
        assert(out@ =~= s@.take(i + 1));
        i = i + 1;
    }
    assert(out@ =~= s@);
    out
}

/// True when `a` and `b` hold the same characters after ASCII lower-casing.
pub fn eq_ignore_ascii_case(a: &str, b: &str) -> (r: bool)
    ensures
        r == (lower_seq(a@) == lower_seq(b@)),
{
    let na = a.unicode_len();
    let nb = b.unicode_len();
    if na != nb {
        assert(lower_seq(a@).len() == a@.len());
        assert(lower_seq(b@).len() == b@.len());
        return false;
    }
    let mut i: usize = 0;
    while i < na
        invariant
            na == a@.len(),
            na == b@.len(),
            i <= na,
            forall|j: int| 0 <= j < i ==> lower_char(a@[j]) == lower_char(b@[j]),
        decreases na - i,
    {
        if to_lower_char(a.get_char(i)) != to_lower_char(b.get_char(i)) {
            assert(lower_seq(a@)[i as int] != lower_seq(b@)[i as int]);
            return false;
        }
        i = i + 1;
    }
    assert(lower_seq(a@) =~= lower_seq(b@));
    true
}

/// `needle` occurs contiguously inside `hay`.
pub open spec fn contains_seq(hay: Seq<char>, needle: Seq<char>) -> bool {
    exists|i: int|
        0 <= i && i + needle.len() <= hay.len() && #[trigger] hay.subrange(
            i,
            i + needle.len() as int,
        ) == needle
}

/// Compares `hay[at .. at + needle.len()]` with `needle`.
fn matches_at(hay: &Vec<char>, needle: &Vec<char>, at: usize) -> (r: bool)
    requires
        at + needle@.len() <= hay@.len(),
    ensures
        r == (hay@.subrange(at as int, at + needle@.len() as int) == needle@),
{
    let n = needle.len();
    let nh = hay.len();
    let mut j: usize = 0;
    while j < n
        invariant
            n == needle@.len(),
            nh == hay@.len(),
            at + n <= nh,
            j <= n,
            forall|k: int| 0 <= k < j ==> hay@[at + k] == needle@[k],
        decreases n - j,
    {
        if hay[at + j] != needle[j] {
            assert(hay@.subrange(at as int, at + needle@.len() as int)[j as int] != needle@[j as int]);
            return false;
        }
        j = j + 1;
    }
    assert(hay@.subrange(at as int, at + needle@.len() as int) =~= needle@);
    true
}

/// Substring test over character vectors.
pub fn contains_chars(hay: &Vec<char>, needle: &Vec<char>) -> (r: bool)
    ensures
        r == contains_seq(hay@, needle@),
{
    let nh = hay.len();
    let nn = needle.len();
    if nn > nh {
        assert(!contains_seq(hay@, needle@));
        return false;
    }
    if nn == 0 {
        assert(hay@.subrange(0, 0 + needle@.len() as int) =~= needle@);
        assert(contains_seq(hay@, needle@));
        return true;
    }
    let mut i: usize = 0;
    let last = nh - nn;
    while i <= last
        invariant
            nh == hay@.len(),
            nn == needle@.len(),
            1 <= nn <= nh,
            last == nh - nn,
            i <= last + 1,
            forall|p: int|
                0 <= p < i ==> #[trigger] hay@.subrange(p, p + needle@.len() as int) != needle@,
        decreases last + 1 - i,
    {
        if matches_at(hay, needle, i) {
            assert(contains_seq(hay@, needle@));
            return true;
        }
        i = i + 1;
    }
    assert(forall|p: int|
        0 <= p && p + needle@.len() <= hay@.len() ==> #[trigger] hay@.subrange(
            p,
            p + needle@.len() as int,
        ) != needle@);
    false
}

/// The decimal digit with value `d`, as a character.
pub open spec fn digit_char(d: int) -> char
    recommends
        0 <= d < 10,
{
    ((0x30 + d) as u8) as char
}

/// The decimal rendering of `n`, most significant digit first, no leading
/// zeros (a single `0` for zero).
pub open spec fn dec_digits(n: nat) -> Seq<char>
    decreases n,
{
    if n < 10 {
        seq![digit_char(n as int)]
    } else {
        dec_digits(n / 10).push(digit_char((n % 10) as int))
    }
}

/// One decimal digit as a string slice.
pub fn digit_str(d: u8) -> (r: &'static str)
    requires
        d < 10,
    ensures
        r@ == seq![digit_char(d as int)],
{
    proof {
        reveal_strlit("0");
        reveal_strlit("1");
        reveal_strlit("2");
        reveal_strlit("3");
        reveal_strlit("4");
        reveal_strlit("5");
        reveal_strlit("6");
        reveal_strlit("7");
        reveal_strlit("8");
        reveal_strlit("9");
    }
    match d {
        0 => "0",
        1 => "1",
        2 => "2",
        3 => "3",
        4 => "4",
        5 => "5",
        6 => "6",
        7 => "7",
        8 => "8",
        _ => "9",
    }
}

/// Renders `n` in decimal.
pub fn u64_to_string(n: u64) -> (r: String)
    ensures
        r@ == dec_digits(n as nat),
    decreases n,
{
    if n < 10 {
        digit_str(n as u8).to_owned()
    } else {
        let mut s = u64_to_string(n / 10);
        s.append(digit_str((n % 10) as u8));
        assert(s@ =~= dec_digits(n as nat));
        s
    }
}

/// True when `c` is a decimal digit.
pub open spec fn is_digit(c: char) -> bool {
    '0' <= c && c <= '9'
}

/// The numeric value of digit character `c`.
pub open spec fn digit_val(c: char) -> int
    recommends
        is_digit(c),
{
    c as int - 0x30
}

/// The value of a digit string read in base ten.
pub open spec fn dec_val(s: Seq<char>) -> int
    decreases s.len(),
{
    if s.len() == 0 {
        0
    } else {
        dec_val(s.drop_last()) * 10 + digit_val(s.last())
    }
}

/// All characters of `s` are decimal digits.
pub open spec fn all_digits(s: Seq<char>) -> bool {
    forall|i: int| 0 <= i < s.len() ==> is_digit(#[trigger] s[i])
}

/// Reads an unsigned decimal number. Returns `None` on an empty string, a
/// non-digit character, or a value above `u32::MAX`.
pub fn parse_u32(s: &Vec<char>) -> (r: Option<u32>)
    ensures
        match r {
            Some(n) => s@.len() > 0 && all_digits(s@) && dec_val(s@) == n,
            None => s@.len() == 0 || !all_digits(s@) || dec_val(s@) > u32::MAX,
        },
{
    let n = s.len();
    if n == 0 {
        return None;
    }
    let mut acc: u64 = 0;
    let mut i: usize = 0;
    while i < n
        invariant
            n == s@.len(),
            i <= n,
            all_digits(s@.take(i as int)),
            acc == dec_val(s@.take(i as int)),
            acc <= 0xffff_ffffu64 * 10 + 9,
        decreases n - i,
    {
        if acc > 0xffff_ffff {
            proof {
                lemma_dec_val_grows(s@, i as int);
            }
            return None;
        }
        let c = s[i];
        if !('0' <= c && c <= '9') {
            return None;
        }
        let d = (c as u8) - 0x30;
        acc = acc * 10 + (d as u64);
        assert(s@.take(i + 1).drop_last() =~= s@.take(i as int));
        assert(forall|j: int| 0 <= j < i + 1 ==> is_digit(#[trigger] s@.take(i + 1)[j]));
        i = i + 1;
    }
    assert(s@.take(n as int) =~= s@);
    if acc > 0xffff_ffff {
        return None;
    }
    Some(acc as u32)
}

/// If a proper prefix of a digit string is already above `u32::MAX`, so is
/// the whole string.
proof fn lemma_dec_val_grows(s: Seq<char>, i: int)
    requires
        0 <= i <= s.len(),
        all_digits(s.take(i)),
        dec_val(s.take(i)) > u32::MAX,
    ensures
        !all_digits(s) || dec_val(s) > u32::MAX,
    decreases s.len() - i,
{
    if i < s.len() {
        if all_digits(s) {
            assert(s.take(i + 1).drop_last() =~= s.take(i));
            assert(is_digit(s[i]));
            assert(s.take(i + 1).last() == s[i]);
            assert(dec_val(s.take(i + 1)) == dec_val(s.take(i)) * 10 + digit_val(s[i]));
            assert(dec_val(s.take(i + 1)) > u32::MAX);
            assert(all_digits(s.take(i + 1))) by {
                assert(forall|j: int|
                    0 <= j < i + 1 ==> is_digit(#[trigger] s.take(i + 1)[j]));
            }
            lemma_dec_val_grows(s, i + 1);
        }
    } else {
        assert(s.take(i) =~= s);
    }
}

/// Character-for-character equality of two string slices.
pub fn str_eq(a: &str, b: &str) -> (r: bool)
    ensures
        r == (a@ == b@),
{
    let na = a.unicode_len();
    let nb = b.unicode_len();
    if na != nb {
        return false;
    }
    let mut i: usize = 0;
    while i < na
        invariant
            na == a@.len(),
            na == b@.len(),
            i <= na,
            forall|j: int| 0 <= j < i ==> a@[j] == b@[j],
        decreases na - i,
    {
        if a.get_char(i) != b.get_char(i) {
            return false;
        }
        i = i + 1;
    }
    assert(a@ =~= b@);
    true
}

/// Strict lexicographic order on character sequences, by code point.
pub open spec fn lex_lt(a: Seq<char>, b: Seq<char>) -> bool
    decreases a.len(),
{
    if b.len() == 0 {
        false
    } else if a.len() == 0 {
        true
    } else if a[0] != b[0] {
        a[0] < b[0]
    } else {
        lex_lt(a.skip(1), b.skip(1))
    }
}

/// Sequences that agree on their first `i` characters compare as their
/// remainders do.
proof fn lemma_lex_lt_common_prefix(a: Seq<char>, b: Seq<char>, i: int)
    requires
        0 <= i <= a.len(),
        i <= b.len(),
        forall|j: int| 0 <= j < i ==> a[j] == b[j],
    ensures
        lex_lt(a, b) == lex_lt(a.skip(i), b.skip(i)),
    decreases i,
{
    if i > 0 {
        assert(a.len() > 0 && b.len() > 0);
        assert(a[0] == b[0]);
        assert(a.skip(1).len() == a.len() - 1);
        assert(forall|j: int| 0 <= j < i - 1 ==> a.skip(1)[j] == b.skip(1)[j]) by {
            assert(forall|j: int| 0 <= j < i - 1 ==> a.skip(1)[j] == a[j + 1] && b.skip(1)[j] == b[
                j + 1]);
        }
        lemma_lex_lt_common_prefix(a.skip(1), b.skip(1), i - 1);
        assert(a.skip(1).skip(i - 1) =~= a.skip(i));
        assert(b.skip(1).skip(i - 1) =~= b.skip(i));
    } else {
        assert(a.skip(0) =~= a);
        assert(b.skip(0) =~= b);
    }
}

/// Compares two strings in strict lexicographic order by code point.
pub fn str_lt(a: &str, b: &str) -> (r: bool)
    ensures
        r == lex_lt(a@, b@),
{
    let na = a.unicode_len();
    let nb = b.unicode_len();
    let mut i: usize = 0;
    loop
        invariant
            na == a@.len(),
            nb == b@.len(),
            i <= na,
            i <= nb,
            forall|j: int| 0 <= j < i ==> a@[j] == b@[j],
        decreases na - i,
    {
        proof {
            lemma_lex_lt_common_prefix(a@, b@, i as int);
        }
        if i == nb {
            return false;
        }
        if i == na {
            return true;
        }
        let ca = a.get_char(i);
        let cb = b.get_char(i);
        if ca != cb {
            proof {
                assert(a@.skip(i as int)[0] == a@[i as int]);
                assert(b@.skip(i as int)[0] == b@[i as int]);
            }
            return ca < cb;
        }
        i = i + 1;
    }
}

/// Exactly one of `a < b`, `a == b`, `b < a` holds.
pub proof fn lemma_lex_lt_trichotomy(a: Seq<char>, b: Seq<char>)
    ensures
        lex_lt(a, b) || lex_lt(b, a) || a == b,
        lex_lt(a, b) ==> !lex_lt(b, a) && a != b,
        lex_lt(b, a) ==> !lex_lt(a, b) && a != b,
    decreases a.len(),
{
    if b.len() == 0 && a.len() == 0 {
        assert(a =~= b);
    } else if a.len() > 0 && b.len() > 0 {
        if a[0] == b[0] {
            lemma_lex_lt_trichotomy(a.skip(1), b.skip(1));
            if a.skip(1) == b.skip(1) {
                assert(a.skip(1).len() == a.len() - 1);
                assert(b.skip(1).len() == b.len() - 1);
                assert(a.len() == b.len());
                assert forall|j: int| 0 <= j < a.len() implies a[j] == b[j] by {
                    if j > 0 {
                        assert(a.skip(1)[j - 1] == a[j]);
                        assert(b.skip(1)[j - 1] == b[j]);
                    }
                }
                assert(a =~= b);
            }
            if a == b {
                assert(a.skip(1) =~= b.skip(1));
            }
        } else {
            assert(a != b);
        }
    }
}

/// Relies on String::push: appends one character.
#[verifier::external_body]
pub fn string_push_char(s: &mut String, c: char)
    ensures
        final(s)@ == old(s)@.push(c),
{
    s.push(c)
}

/// Relies on String::pop: removes and returns the last character, or leaves
/// an empty string unchanged.
#[verifier::external_body]
pub fn string_pop_char(s: &mut String) -> (r: Option<char>)
    ensures
        old(s)@.len() == 0 ==> final(s)@ == old(s)@ && r is None,
        old(s)@.len() > 0 ==> final(s)@ == old(s)@.drop_last() && r == Some(old(s)@.last()),
{
    s.pop()
}

/// Builds a string from its characters.
pub fn string_from_chars(v: &Vec<char>) -> (r: String)
    ensures
        r@ == v@,
{
    let mut out = String::new();
    let n = v.len();
    let mut i: usize = 0;
    while i < n
        invariant
            n == v@.len(),
            i <= n,
            out@ == v@.take(i as int),
        decreases n - i,
    {
        string_push_char(&mut out, v[i]);
        assert(out@ =~= v@.take(i + 1));
        i = i + 1;
    }
    assert(out@ =~= v@);
    out
}

/// Compares a string slice with a character vector.
pub fn str_eq_chars(a: &str, b: &Vec<char>) -> (r: bool)
    ensures
        r == (a@ == b@),
{
    let na = a.unicode_len();
    let nb = b.len();
    if na != nb {
        return false;
    }
    let mut i: usize = 0;
    while i < na
        invariant
            na == a@.len(),
            na == b@.len(),
            i <= na,
            forall|j: int| 0 <= j < i ==> a@[j] == b@[j],
        decreases na - i,
    {
        if a.get_char(i) != b[i] {
            return false;
        }
        i = i + 1;
    }
    assert(a@ =~= b@);
    true
}

/// Copies the characters `v[a .. b]`.
pub fn sub_chars(v: &Vec<char>, a: usize, b: usize) -> (r: Vec<char>)
    requires
        a <= b <= v@.len(),
    ensures
        r@ == v@.subrange(a as int, b as int),
{
    let mut out: Vec<char> = Vec::new();
    let mut i: usize = a;
    while i < b
        invariant
            a <= i <= b <= v@.len(),
            out@ == v@.subrange(a as int, i as int),
        decreases b - i,
    {
        out.push(v[i]);
        assert(out@ =~= v@.subrange(a as int, i + 1));
        i = i + 1;
    }
    out
}

/// What `String::from_utf8_lossy` returns for a given byte sequence. The
/// result depends on the bytes alone.
pub uninterp spec fn lossy_of(b: Seq<u8>) -> Seq<char>;

/// Relies on String::from_utf8_lossy: decodes bytes as UTF-8, replacing
/// invalid sequences; a function of the bytes alone, and an empty input
/// stays empty.
#[verifier::external_body]
pub fn utf8_lossy(b: &Vec<u8>) -> (r: String)
    ensures
        r@ == lossy_of(b@),
        b@.len() == 0 ==> r@.len() == 0,
{
    String::from_utf8_lossy(b).into_owned()
}

/// What `str::to_lowercase` returns for a given character sequence. The
/// result depends on the characters alone.
pub uninterp spec fn lower_of(s: Seq<char>) -> Seq<char>;

/// Relies on str::to_lowercase: the Unicode lower-casing of `s`, a function
/// of the characters alone; an empty string stays empty.
#[verifier::external_body]
pub fn lowercase(s: &str) -> (r: String)
    ensures
        r@ == lower_of(s@),
        s@.len() == 0 ==> r@.len() == 0,
{
    s.to_lowercase()
}

/// Rendering a number and reading it back gives the number again.
pub proof fn lemma_dec_round_trip(n: nat)
    ensures
        all_digits(dec_digits(n)),
        dec_val(dec_digits(n)) == n,
        dec_digits(n).len() > 0,
    decreases n,
{
    if n < 10 {
        let s = dec_digits(n);
        assert(is_digit(digit_char(n as int)));
        assert(s == seq![digit_char(n as int)]);
        assert(s.len() == 1);
        assert(s.last() == digit_char(n as int));
        assert(s.drop_last() =~= Seq::<char>::empty());
        assert(dec_val(s.drop_last()) == 0);
        assert(dec_val(s) == dec_val(s.drop_last()) * 10 + digit_val(s.last()));
        assert(digit_val(digit_char(n as int)) == n);
    } else {
        lemma_dec_round_trip(n / 10);
        let pre = dec_digits(n / 10);
        let whole = pre.push(digit_char((n % 10) as int));
        assert(whole.drop_last() =~= pre);
        assert(whole.last() == digit_char((n % 10) as int));
        assert(dec_val(whole) == dec_val(pre) * 10 + digit_val(digit_char((n % 10) as int)));
        assert(digit_val(digit_char((n % 10) as int)) == n % 10);
        assert(dec_val(pre) * 10 + n % 10 == n) by {
            assert(dec_val(pre) == n / 10);
        }
        assert(all_digits(whole)) by {
            assert(forall|i: int| 0 <= i < pre.len() ==> is_digit(#[trigger] whole[i]));
            assert(is_digit(whole[whole.len() - 1]));
        }
    }
}

} // verus!
