//! Plain-text utilities for the configuration codec: decimal numbers,
//! whitespace trimming, character search, and line splitting.
//!
//! Every executable function is specified against a spec-level function on
//! `Seq<char>`; the codec's own specification is built from those.

use vstd::prelude::*;

verus! {

/// The whitespace characters the codec trims around field values: ASCII
/// space, tab, carriage return and line feed.
pub open spec fn is_space_char(c: char) -> bool {
    c == ' ' || c == '\t' || c == '\r' || c == '\n'
}

/// Executable test for [`is_space_char`].
pub fn char_is_space(c: char) -> (r: bool)
    ensures
        r == is_space_char(c),
{
    c == ' ' || c == '\t' || c == '\r' || c == '\n'
}

/// The numeric value of a decimal digit character, `None` for any other
/// character.
pub open spec fn digit_of(c: char) -> Option<u8> {
    if c == '0' {
        Some(0u8)
    } else if c == '1' {
        Some(1u8)
    } else if c == '2' {
        Some(2u8)
    } else if c == '3' {
        Some(3u8)
    } else if c == '4' {
        Some(4u8)
    } else if c == '5' {
        Some(5u8)
    } else if c == '6' {
        Some(6u8)
    } else if c == '7' {
        Some(7u8)
    } else if c == '8' {
        Some(8u8)
    } else {
        if c == '9' {
            Some(9u8)
        } else {
            None
        }
    }
}

/// Executable test for [`digit_of`].
pub fn digit_value(c: char) -> (r: Option<u8>)
    ensures
        r == digit_of(c),
{
    if c == '0' {
        Some(0u8)
    } else if c == '1' {
        Some(1u8)
    } else if c == '2' {
        Some(2u8)
    } else if c == '3' {
        Some(3u8)
    } else if c == '4' {
        Some(4u8)
    } else if c == '5' {
        Some(5u8)
    } else if c == '6' {
        Some(6u8)
    } else if c == '7' {
        Some(7u8)
    } else if c == '8' {
        Some(8u8)
    } else if c == '9' {
        Some(9u8)
    } else {
        None
    }
}

/// Every character of `s` is a decimal digit.
pub open spec fn all_digits(s: Seq<char>) -> bool {
    forall|i: int| 0 <= i < s.len() ==> (#[trigger] digit_of(s[i])) is Some
}

/// The value of a digit character, zero for any other character.
pub open spec fn digit_or_zero(c: char) -> nat {
    match digit_of(c) {
        Some(d) => d as nat,
        None => 0,
    }
}

/// The numeric value of a string of decimal digits, most significant first.
pub open spec fn digits_val(s: Seq<char>) -> nat
    decreases s.len(),
{
    if s.len() == 0 {
        0
    } else {
        digits_val(s.drop_last()) * 10 + digit_or_zero(s.last())
    }
}

/// What parsing a `u8` field value yields: the numeric value of a non-empty
/// all-digit string when it fits in a byte, and nothing otherwise.
pub open spec fn parse_u8_spec(s: Seq<char>) -> Option<u8> {
    if s.len() > 0 && all_digits(s) && digits_val(s) <= 255 {
        Some(digits_val(s) as u8)
    } else {
        None
    }
}

/// The character for a single decimal digit.
pub open spec fn digit_char(d: nat) -> char {
    if d == 0 {
        '0'
    } else if d == 1 {
        '1'
    } else if d == 2 {
        '2'
    } else if d == 3 {
        '3'
    } else if d == 4 {
        '4'
    } else if d == 5 {
        '5'
    } else if d == 6 {
        '6'
    } else if d == 7 {
        '7'
    } else {
        if d == 8 {
            '8'
        } else {
            '9'
        }
    }
}

/// The canonical decimal rendering of a number: no sign, no leading zeros.
pub open spec fn dec_chars(n: nat) -> Seq<char>
    decreases n,
{
    if n < 10 {
        seq![digit_char(n)]
    } else {
        dec_chars(n / 10).push(digit_char(n % 10))
    }
}

/// A digit character's value is the digit it was made from.
pub proof fn lemma_digit_char_val(d: nat)
    requires
        d < 10,
    ensures
        digit_of(digit_char(d)) == Some(d as u8),
{
}

/// A canonical decimal rendering is a non-empty digit string, and parsing it
/// recovers the number.
pub proof fn lemma_dec_chars_value(n: nat)
    ensures
        dec_chars(n).len() >= 1,
        all_digits(dec_chars(n)),
        digits_val(dec_chars(n)) == n,
    decreases n,
{
    if n < 10 {
        lemma_digit_char_val(n);
        let s = dec_chars(n);
        assert(s == seq![digit_char(n)]);
        assert(s.drop_last() =~= Seq::<char>::empty());
        assert(digits_val(Seq::<char>::empty()) == 0);
        assert(s.last() == digit_char(n));
        assert(digits_val(s) == digits_val(s.drop_last()) * 10 + digit_or_zero(s.last()));
        assert(digits_val(s) == n);
    } else {
        lemma_dec_chars_value(n / 10);
        lemma_digit_char_val(n % 10);
        let s = dec_chars(n);
        assert(s == dec_chars(n / 10).push(digit_char(n % 10)));
        assert(s.drop_last() =~= dec_chars(n / 10));
        assert(s.last() == digit_char(n % 10));
        assert(digits_val(s) == (n / 10) * 10 + n % 10);
        assert((n / 10) * 10 + n % 10 == n) by (nonlinear_arith);
        assert forall|i: int| 0 <= i < s.len() implies (#[trigger] digit_of(s[i])) is Some by {
            if i < s.len() - 1 {
                assert(s[i] == dec_chars(n / 10)[i]);
            } else {
                assert(s[i] == digit_char(n % 10));
            }
        }
    }
}

/// Digit characters are not whitespace, not `=`, not a quote, and not line
/// breaks, so a rendered number never disturbs the surrounding syntax.
pub proof fn lemma_digits_are_plain(s: Seq<char>)
    requires
        all_digits(s),
    ensures
        forall|i: int| 0 <= i < s.len() ==> !is_space_char(#[trigger] s[i]),
        forall|i: int| 0 <= i < s.len() ==> #[trigger] s[i] != '=',
        forall|i: int| 0 <= i < s.len() ==> #[trigger] s[i] != '\n',
        forall|i: int| 0 <= i < s.len() ==> #[trigger] s[i] != '\r',
        forall|i: int| 0 <= i < s.len() ==> #[trigger] s[i] != '"',
{
    assert forall|i: int| 0 <= i < s.len() implies !is_space_char(#[trigger] s[i]) && s[i] != '='
        && s[i] != '\n' && s[i] != '\r' && s[i] != '"' by {
        assert(digit_of(s[i]) is Some);
    }
}

/// Appends the canonical decimal rendering of a single digit.
fn append_digit(out: &mut String, d: u8)
    requires
        d < 10,
    ensures
        final(out)@ == old(out)@ + seq![digit_char(d as nat)],
{
    let lit: &str = if d == 0 {
        "0"
    } else if d == 1 {
        "1"
    } else if d == 2 {
        "2"
    } else if d == 3 {
        "3"
    } else if d == 4 {
        "4"
    } else if d == 5 {
        "5"
    } else if d == 6 {
        "6"
    } else if d == 7 {
        "7"
    } else if d == 8 {
        "8"
    } else {
        "9"
    };
    proof {
        reveal_strlit("0");
        reveal_strlit("1");
        reveal_strlit("2");
        reveal_strlit("3");
        reveal_strlit("4");
        reveal_strlit("5");
        reveal_strlit("6");
        reveal_strlit("7");
        reveal_strlit("8");
        reveal_strlit("9");
        assert(lit@ =~= seq![digit_char(d as nat)]);
    }
    out.append(lit);
}

/// Appends the canonical decimal rendering of `n`.
pub fn append_decimal(out: &mut String, n: u8)
    ensures
        final(out)@ == old(out)@ + dec_chars(n as nat),
    decreases n,
{
    if n >= 10 {
        append_decimal(out, n / 10);
        append_digit(out, n % 10);
        assert(out@ =~= old(out)@ + dec_chars(n as nat));
    } else {
        append_digit(out, n);
        assert(out@ =~= old(out)@ + dec_chars(n as nat));
    }
}

/// Parses a `u8` field value as [`parse_u8_spec`] describes.
pub fn parse_u8(s: &str) -> (r: Option<u8>)
    ensures
        r == parse_u8_spec(s@),
{
    let n = s.unicode_len();
    if n == 0 {
        return None;
    }
    let mut acc: u16 = 0;
    let mut i: usize = 0;
    while i < n
        invariant
            n == s@.len(),
            i <= n,
            all_digits(s@.subrange(0, i as int)),
            digits_val(s@.subrange(0, i as int)) <= 255 ==> acc == digits_val(
                s@.subrange(0, i as int),
            ),
            digits_val(s@.subrange(0, i as int)) > 255 ==> 255 < acc <= 2559,
        decreases n - i,
    {
        let c = s.get_char(i);
        match digit_value(c) {
            None => {
                assert(digit_of(s@[i as int]) is None);
                assert(!all_digits(s@));
                return None;
            },
            Some(d) => {
                proof {
                    let pre = s@.subrange(0, i as int);
                    let ext = s@.subrange(0, i + 1);
                    assert(ext.drop_last() =~= pre);
                    assert(ext.last() == s@[i as int]);
                    assert(digits_val(ext) == digits_val(pre) * 10 + d);
                    assert forall|j: int| 0 <= j < ext.len() implies (#[trigger] digit_of(
                        ext[j],
                    )) is Some by {
                        if j < i {
                            assert(ext[j] == pre[j]);
                        }
                    }
                }
                acc = if acc > 255 {
                    256
                } else {
                    acc * 10 + (d as u16)
                };
            },
        }
        i = i + 1;
    }
    proof {
        assert(s@.subrange(0, n as int) =~= s@);
    }
    if acc <= 255 {
        Some(acc as u8)
    } else {
        None
    }
}

/// The position of the first occurrence of `c` in `s` at or after `from`,
/// or the length of `s` if there is none.
pub open spec fn find_char_spec(s: Seq<char>, c: char, from: int) -> int
    decreases s.len() - from,
{
    if 0 <= from < s.len() {
        if s[from] == c {
            from
        } else {
            find_char_spec(s, c, from + 1)
        }
    } else {
        s.len() as int
    }
}

/// [`find_char_spec`] returns a position in `[from, len]`; no occurrence of
/// `c` lies before it, and it points at `c` unless it is the length.
pub proof fn lemma_find_char_range(s: Seq<char>, c: char, from: int)
    requires
        0 <= from <= s.len(),
    ensures
        from <= find_char_spec(s, c, from) <= s.len(),
        forall|i: int| from <= i < find_char_spec(s, c, from) ==> s[i] != c,
        find_char_spec(s, c, from) < s.len() ==> s[find_char_spec(s, c, from)] == c,
    decreases s.len() - from,
{
    if from < s.len() && s[from] != c {
        lemma_find_char_range(s, c, from + 1);
    }
}

/// If `c` first occurs at `j`, [`find_char_spec`] finds `j`.
pub proof fn lemma_find_char_at(s: Seq<char>, c: char, from: int, j: int)
    requires
        0 <= from <= j < s.len(),
        s[j] == c,
        forall|i: int| from <= i < j ==> s[i] != c,
    ensures
        find_char_spec(s, c, from) == j,
    decreases j - from,
{
    if from < j {
        lemma_find_char_at(s, c, from + 1, j);
    }
}

/// If `c` does not occur at or after `from`, [`find_char_spec`] returns the
/// length of `s`.
pub proof fn lemma_find_char_none(s: Seq<char>, c: char, from: int)
    requires
        0 <= from <= s.len(),
        forall|i: int| from <= i < s.len() ==> s[i] != c,
    ensures
        find_char_spec(s, c, from) == s.len(),
    decreases s.len() - from,
{
    if from < s.len() {
        lemma_find_char_none(s, c, from + 1);
    }
}

/// Finds the first occurrence of `c` in `s` at or after `from`, as
/// [`find_char_spec`] describes.
pub fn find_from(s: &str, c: char, from: usize) -> (r: usize)
    requires
        from <= s@.len(),
    ensures
        r == find_char_spec(s@, c, from as int),
        r <= s@.len(),
{
    let n = s.unicode_len();
    let mut i: usize = from;
    while i < n
        invariant
            from <= i <= n,
            n == s@.len(),
            find_char_spec(s@, c, from as int) == find_char_spec(s@, c, i as int),
        decreases n - i,
    {
        if s.get_char(i) == c {
            return i;
        }
        i = i + 1;
    }
    i
}

/// `s` with one trailing carriage return removed, as `str::lines` strips it.
pub open spec fn strip_cr(s: Seq<char>) -> Seq<char> {
    if s.len() > 0 && s.last() == '\r' {
        s.drop_last()
    } else {
        s
    }
}

/// The lines of `s` starting at position `from`: split at every line feed,
/// one trailing carriage return per line removed, and no final empty line
/// after a trailing line feed. This matches `str::lines`.
pub open spec fn lines_from(s: Seq<char>, from: int) -> Seq<Seq<char>>
    decreases s.len() - from,
    via lines_from_decreases
{
    if 0 <= from < s.len() {
        let j = find_char_spec(s, '\n', from);
        if j >= s.len() {
            seq![strip_cr(s.subrange(from, s.len() as int))]
        } else {
            seq![strip_cr(s.subrange(from, j))] + lines_from(s, j + 1)
        }
    } else {
        Seq::empty()
    }
}

#[via_fn]
proof fn lines_from_decreases(s: Seq<char>, from: int) {
    if 0 <= from < s.len() {
        lemma_find_char_range(s, '\n', from);
    }
}

/// The lines of `s`, as `str::lines` yields them.
pub open spec fn lines_spec(s: Seq<char>) -> Seq<Seq<char>> {
    lines_from(s, 0)
}

/// Splits `s` into its lines, as [`lines_spec`] describes.
pub fn split_lines(s: &str) -> (r: Vec<&str>)
    ensures
        r@.len() == lines_spec(s@).len(),
        forall|i: int| 0 <= i < r@.len() ==> #[trigger] r@[i]@ == lines_spec(s@)[i],
{
    let n = s.unicode_len();
    let mut out: Vec<&str> = Vec::new();
    let mut pos: usize = 0;
    while pos < n
        invariant
            pos <= n,
            n == s@.len(),
            out@.len() <= lines_spec(s@).len(),
            forall|i: int| 0 <= i < out@.len() ==> #[trigger] out@[i]@ == lines_spec(s@)[i],
            lines_from(s@, pos as int) == lines_spec(s@).skip(out@.len() as int),
        decreases n - pos,
    {
        let j = find_from(s, '\n', pos);
        proof {
            lemma_find_char_range(s@, '\n', pos as int);
        }
        let end = if j < n {
            j
        } else {
            n
        };
        let mut hi = end;
        if hi > pos && s.get_char(hi - 1) == '\r' {
            hi = hi - 1;
        }
        let line = s.substring_char(pos, hi);
        proof {
            let raw = s@.subrange(pos as int, end as int);
            if end > pos && s@[end - 1] == '\r' {
                assert(raw.last() == '\r');
                assert(strip_cr(raw) =~= s@.subrange(pos as int, end - 1));
            } else {
                assert(strip_cr(raw) =~= raw);
            }
            assert(line@ == strip_cr(raw));
            let k = out@.len() as int;
            let all = lines_spec(s@);
            if j < n {
                assert(lines_from(s@, pos as int) == seq![strip_cr(raw)] + lines_from(
                    s@,
                    j + 1,
                ));
            } else {
                assert(lines_from(s@, pos as int) == seq![strip_cr(raw)]);
                assert(lines_from(s@, n as int) =~= Seq::<Seq<char>>::empty());
                assert(lines_from(s@, pos as int) =~= seq![strip_cr(raw)] + lines_from(
                    s@,
                    n as int,
                ));
            }
            assert(all.skip(k)[0] == strip_cr(raw));
            assert(all.skip(k + 1) =~= all.skip(k).drop_first());
        }
        out.push(line);
        pos = if j < n {
            j + 1
        } else {
            n
        };
    }
    proof {
        assert(lines_from(s@, pos as int) =~= Seq::<Seq<char>>::empty());
        assert(lines_spec(s@).skip(out@.len() as int).len() == 0);
    }
    out
}

/// `p` is a prefix of `s`.
pub open spec fn has_prefix(s: Seq<char>, p: Seq<char>) -> bool {
    p.len() <= s.len() && s.subrange(0, p.len() as int) == p
}

/// Tests whether `p` is a prefix of `s`, as [`has_prefix`] describes.
pub fn str_has_prefix(s: &str, p: &str) -> (r: bool)
    ensures
        r == has_prefix(s@, p@),
{
    let sn = s.unicode_len();
    let pn = p.unicode_len();
    if pn > sn {
        return false;
    }
    let mut i: usize = 0;
    while i < pn
        invariant
            i <= pn <= sn,
            sn == s@.len(),
            pn == p@.len(),
            forall|j: int| 0 <= j < i ==> s@[j] == p@[j],
        decreases pn - i,
    {
        if s.get_char(i) != p.get_char(i) {
            proof {
                assert(s@.subrange(0, pn as int)[i as int] != p@[i as int]);
            }
            return false;
        }
        i = i + 1;
    }
    proof {
        assert(s@.subrange(0, pn as int) =~= p@);
    }
    true
}

/// Tests whether two strings hold the same characters.
pub fn str_eq(a: &str, b: &str) -> (r: bool)
    ensures
        r == (a@ == b@),
{
    let an = a.unicode_len();
    let bn = b.unicode_len();
    if an != bn {
        return false;
    }
    let mut i: usize = 0;
    while i < an
        invariant
            i <= an,
            an == a@.len(),
            an == b@.len(),
            forall|j: int| 0 <= j < i ==> a@[j] == b@[j],
        decreases an - i,
    {
        if a.get_char(i) != b.get_char(i) {
            return false;
        }
        i = i + 1;
    }
    proof {
        assert(a@ =~= b@);
    }
    true
}

/// Characters with no leading or trailing whitespace left, from the front.
pub open spec fn ltrim(s: Seq<char>) -> Seq<char>
    decreases s.len(),
{
    if s.len() > 0 && is_space_char(s[0]) {
        ltrim(s.drop_first())
    } else {
        s
    }
}

/// Characters with trailing whitespace removed.
pub open spec fn rtrim(s: Seq<char>) -> Seq<char>
    decreases s.len(),
{
    if s.len() > 0 && is_space_char(s.last()) {
        rtrim(s.drop_last())
    } else {
        s
    }
}

/// `s` with leading and trailing whitespace removed.
pub open spec fn trim_spec(s: Seq<char>) -> Seq<char> {
    rtrim(ltrim(s))
}

/// Removes leading and trailing whitespace, as [`trim_spec`] describes.
pub fn trim_str(s: &str) -> (r: &str)
    ensures
        r@ == trim_spec(s@),
{
    let n = s.unicode_len();
    proof {
        assert(s@.subrange(0, n as int) =~= s@);
    }
    let mut lo: usize = 0;
    while lo < n && char_is_space(s.get_char(lo))
        invariant
            lo <= n,
            n == s@.len(),
            ltrim(s@) == ltrim(s@.subrange(lo as int, n as int)),
        decreases n - lo,
    {
        proof {
            let cur = s@.subrange(lo as int, n as int);
            assert(cur[0] == s@[lo as int]);
            assert(cur.drop_first() =~= s@.subrange(lo + 1, n as int));
        }
        lo = lo + 1;
    }
    proof {
        let cur = s@.subrange(lo as int, n as int);
        if lo < n {
            assert(!is_space_char(cur[0]));
        }
        assert(ltrim(s@) == cur);
    }
    let mut hi: usize = n;
    while hi > lo && char_is_space(s.get_char(hi - 1))
        invariant
            lo <= hi <= n,
            n == s@.len(),
            ltrim(s@) == s@.subrange(lo as int, n as int),
            rtrim(s@.subrange(lo as int, n as int)) == rtrim(s@.subrange(lo as int, hi as int)),
        decreases hi,
    {
        proof {
            let cur = s@.subrange(lo as int, hi as int);
            assert(cur.last() == s@[hi - 1]);
            assert(cur.drop_last() =~= s@.subrange(lo as int, hi - 1));
        }
        hi = hi - 1;
    }
    proof {
        let cur = s@.subrange(lo as int, hi as int);
        if hi > lo {
            assert(!is_space_char(cur.last()));
        }
        assert(trim_spec(s@) == cur);
    }
    s.substring_char(lo, hi)
}

} // verus!
