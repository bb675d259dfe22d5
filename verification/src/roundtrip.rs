//! The laws of the codec, proved: the encoded document splits into its
//! expected lines, the bitstring section is exactly 11 rows of width
//! `frames * (44 + padding)`, a truncated data row only reads cells as off,
//! and decoding an encoded document restores the frames, the padding and the
//! speed exactly.

use vstd::prelude::*;

use crate::codec::DecodeSt;
use crate::codec::apply_data_row;
use crate::codec::decode_line_spec;
use crate::codec::decode_lines_spec;
use crate::codec::decode_spec;
use crate::codec::encode_bitstring;
use crate::codec::encode_frame_row;
use crate::codec::encode_row;
use crate::codec::encode_row_upto;
use crate::codec::encode_rows_upto;
use crate::codec::encode_spec;
use crate::codec::eq_segment;
use crate::codec::init_state;
use crate::codec::parse_or;
use crate::codec::row_bits;
use crate::codec::set_grid_row;
use crate::codec::underscores;
use crate::frame::blank_grid;
use crate::frame::cell_index;
use crate::text::all_digits;
use crate::text::dec_chars;
use crate::text::find_char_spec;
use crate::text::has_prefix;
use crate::text::is_space_char;
use crate::text::lemma_dec_chars_value;
use crate::text::lemma_digits_are_plain;
use crate::text::lemma_find_char_at;
use crate::text::lemma_find_char_none;
use crate::text::lemma_find_char_range;
use crate::text::lines_from;
use crate::text::lines_spec;
use crate::text::ltrim;
use crate::text::parse_u8_spec;
use crate::text::rtrim;
use crate::text::strip_cr;
use crate::text::trim_spec;

verus! {

/// A sequence of characters that stays on one line of the document: it
/// holds no line feed and no carriage return.
pub open spec fn single_line(a: Seq<char>) -> bool {
    forall|i: int| 0 <= i < a.len() ==> #[trigger] a[i] != '\n' && a[i] != '\r'
}

/// Searching a suffix is searching the whole from the suffix's start.
proof fn lemma_find_sub(s: Seq<char>, c: char, p: int, k: int)
    requires
        0 <= p,
        0 <= k,
        p + k <= s.len(),
    ensures
        find_char_spec(s.subrange(p, s.len() as int), c, k) == find_char_spec(s, c, p + k) - p,
    decreases s.len() - p - k,
{
    let t = s.subrange(p, s.len() as int);
    if p + k < s.len() {
        assert(t[k] == s[p + k]);
        if s[p + k] != c {
            lemma_find_sub(s, c, p, k + 1);
        }
    }
}

/// The lines of `s` from position `p` are the lines of the suffix of `s`
/// that starts at `p`.
proof fn lemma_lines_from_suffix(s: Seq<char>, p: int)
    requires
        0 <= p <= s.len(),
    ensures
        lines_from(s, p) == lines_spec(s.subrange(p, s.len() as int)),
    decreases s.len() - p,
{
    let t = s.subrange(p, s.len() as int);
    if p == s.len() {
        assert(lines_from(s, p) =~= Seq::<Seq<char>>::empty());
        assert(lines_spec(t) =~= Seq::<Seq<char>>::empty());
    } else {
        lemma_find_sub(s, '\n', p, 0);
        lemma_find_char_range(s, '\n', p);
        let j = find_char_spec(s, '\n', p);
        let jt = find_char_spec(t, '\n', 0);
        assert(jt == j - p);
        if j >= s.len() {
            assert(t.subrange(0, t.len() as int) =~= s.subrange(p, s.len() as int));
            assert(lines_from(s, p) == seq![strip_cr(s.subrange(p, s.len() as int))]);
            assert(lines_spec(t) == seq![strip_cr(t.subrange(0, t.len() as int))]);
        } else {
            assert(t.subrange(0, jt) =~= s.subrange(p, j));
            lemma_lines_from_suffix(s, j + 1);
            lemma_lines_from_suffix(t, jt + 1);
            assert(t.subrange(jt + 1, t.len() as int) =~= s.subrange(j + 1, s.len() as int));
            assert(lines_from(s, p) == seq![strip_cr(s.subrange(p, j))] + lines_from(s, j + 1));
            assert(lines_spec(t) == seq![strip_cr(t.subrange(0, jt))] + lines_from(t, jt + 1));
        }
    }
}

/// Prepending one line and a line feed to a document prepends that line to
/// its lines.
proof fn lemma_lines_prepend(a: Seq<char>, b: Seq<char>)
    requires
        single_line(a),
    ensures
        lines_spec(a + seq!['\n'] + b) == seq![a] + lines_spec(b),
{
    let s = a + seq!['\n'] + b;
    assert(s[a.len() as int] == '\n');
    assert forall|i: int| 0 <= i < a.len() implies s[i] != '\n' by {
        assert(s[i] == a[i]);
    }
    lemma_find_char_at(s, '\n', 0, a.len() as int);
    assert(s.subrange(0, a.len() as int) =~= a);
    if a.len() > 0 {
        assert(a.last() != '\r');
    }
    assert(strip_cr(a) == a);
    lemma_lines_from_suffix(s, a.len() as int + 1);
    assert(s.subrange(a.len() as int + 1, s.len() as int) =~= b);
    assert(lines_from(s, 0) == seq![a] + lines_spec(b));
}

/// The lines of a document that is one line with no trailing line feed.
proof fn lemma_lines_single(a: Seq<char>)
    requires
        single_line(a),
        a.len() > 0,
    ensures
        lines_spec(a) == seq![a],
{
    lemma_find_char_none(a, '\n', 0);
    assert(strip_cr(a) == a);
    assert(a.subrange(0, a.len() as int) =~= a);
    assert(lines_spec(a) == seq![a]);
}

/// A data row laid out by the encoder has one character per cell and filler
/// column of its `k` frames, and every character is `X` or `_`.
proof fn lemma_row_len(fs: Seq<Seq<bool>>, y: int, padding: nat, k: int)
    requires
        0 <= k <= fs.len(),
    ensures
        encode_row_upto(fs, y, padding, k).len() == k * (44 + padding),
        forall|i: int|
            0 <= i < encode_row_upto(fs, y, padding, k).len() ==> (#[trigger] encode_row_upto(
                fs,
                y,
                padding,
                k,
            )[i] == 'X' || encode_row_upto(fs, y, padding, k)[i] == '_'),
    decreases k,
{
    if k <= 0 {
        assert(k * (44 + padding) == 0) by (nonlinear_arith)
            requires
                k == 0,
        ;
    } else {
        lemma_row_len(fs, y, padding, k - 1);
        assert(k * (44 + padding) == (k - 1) * (44 + padding) + (44 + padding))
            by (nonlinear_arith);
        let prev = encode_row_upto(fs, y, padding, k - 1);
        let cur = encode_row_upto(fs, y, padding, k);
        assert(cur == prev + encode_frame_row(fs[k - 1], y) + underscores(padding));
        assert(cur.len() == prev.len() + 44 + padding);
        assert forall|i: int| 0 <= i < cur.len() implies (#[trigger] cur[i] == 'X' || cur[i]
            == '_') by {
            if i < prev.len() {
                assert(cur[i] == prev[i]);
            } else if i < prev.len() + 44 {
                assert(cur[i] == encode_frame_row(fs[k - 1], y)[i - prev.len()]);
            } else {
                assert(cur[i] == underscores(padding)[i - prev.len() - 44]);
            }
        }
    }
}

/// The character a data row holds for cell `(x, y)` of frame `f`.
proof fn lemma_row_extract(fs: Seq<Seq<bool>>, y: int, padding: nat, k: int, f: int, x: int)
    requires
        0 <= f < k <= fs.len(),
        0 <= x < 44,
    ensures
        encode_row_upto(fs, y, padding, k)[f * (44 + padding) + x] == (if fs[f][cell_index(x, y)] {
            'X'
        } else {
            '_'
        }),
    decreases k,
{
    let prev = encode_row_upto(fs, y, padding, k - 1);
    let cur = encode_row_upto(fs, y, padding, k);
    lemma_row_len(fs, y, padding, k - 1);
    if f == k - 1 {
        assert(cur == prev + encode_frame_row(fs[k - 1], y) + underscores(padding));
        assert(cur[prev.len() + x] == encode_frame_row(fs[k - 1], y)[x]);
    } else {
        lemma_row_extract(fs, y, padding, k - 1, f, x);
        assert((f + 1) * (44 + padding) <= (k - 1) * (44 + padding)) by (nonlinear_arith)
            requires
                f + 1 <= k - 1,
                padding >= 0,
        ;
        assert(f * (44 + padding) + x < (f + 1) * (44 + padding)) by (nonlinear_arith)
            requires
                0 <= x < 44,
                padding >= 0,
        ;
        assert(cur[f * (44 + padding) + x] == prev[f * (44 + padding) + x]);
    }
}

/// The data rows of the bitstring from row `y` on, each terminated by a
/// line feed.
pub open spec fn encode_rows_from(fs: Seq<Seq<bool>>, padding: nat, y: int) -> Seq<char>
    decreases 11 - y,
{
    if 0 <= y < 11 {
        encode_row(fs, y, padding) + seq!['\n'] + encode_rows_from(fs, padding, y + 1)
    } else {
        Seq::empty()
    }
}

/// The bitstring splits at any row boundary into the rows before and the
/// rows after it.
proof fn lemma_rows_upto_from(fs: Seq<Seq<bool>>, padding: nat, k: int)
    requires
        0 <= k <= 11,
    ensures
        encode_rows_upto(fs, padding, k) + encode_rows_from(fs, padding, k) == encode_bitstring(
            fs,
            padding,
        ),
    decreases 11 - k,
{
    if k == 11 {
        assert(encode_rows_upto(fs, padding, 11) + encode_rows_from(fs, padding, 11)
            =~= encode_rows_upto(fs, padding, 11));
    } else {
        lemma_rows_upto_from(fs, padding, k + 1);
        assert(encode_rows_upto(fs, padding, k) + encode_rows_from(fs, padding, k)
            =~= encode_rows_upto(fs, padding, k + 1) + encode_rows_from(fs, padding, k + 1));
    }
}

/// The lines of the data rows from row `y` on, followed by any further
/// document `q`.
proof fn lemma_rows_lines(fs: Seq<Seq<bool>>, padding: nat, y: int, q: Seq<char>)
    requires
        0 <= y <= 11,
    ensures
        lines_spec(encode_rows_from(fs, padding, y) + q) == Seq::new(
            (11 - y) as nat,
            |i: int| encode_row(fs, y + i, padding),
        ) + lines_spec(q),
    decreases 11 - y,
{
    if y == 11 {
        assert(encode_rows_from(fs, padding, 11) + q =~= q);
        assert(Seq::new(0, |i: int| encode_row(fs, 11 + i, padding)) + lines_spec(q)
            =~= lines_spec(q));
    } else {
        let row = encode_row(fs, y, padding);
        lemma_row_len(fs, y, padding, fs.len() as int);
        assert forall|i: int| 0 <= i < row.len() implies #[trigger] row[i] != '\n' && row[i]
            != '\r' by {
            assert(row[i] == 'X' || row[i] == '_');
        }
        let rest = encode_rows_from(fs, padding, y + 1) + q;
        assert(encode_rows_from(fs, padding, y) + q =~= row + seq!['\n'] + rest);
        lemma_lines_prepend(row, rest);
        lemma_rows_lines(fs, padding, y + 1, q);
        assert(seq![row] + (Seq::new((10 - y) as nat, |i: int| encode_row(fs, y + 1 + i, padding))
            + lines_spec(q)) =~= Seq::new((11 - y) as nat, |i: int| encode_row(fs, y + i, padding))
            + lines_spec(q));
    }
}

/// The lines of an encoded configuration document, in order: the `[[message]]`
/// header, the speed field, the mode field, the comment, the padding field,
/// the bitstring opener, the 11 data rows, and the closing delimiter.
pub open spec fn doc_lines(fs: Seq<Seq<bool>>, padding: u8, speed: u8) -> Seq<Seq<char>> {
    seq![
        ("[[message]]")@,
        ("speed = ")@ + dec_chars(speed as nat),
        ("mode = \"fast\"")@,
        ("# the padding value is editor metadata; the badge flashing tool ignores it")@,
        ("padding = ")@ + dec_chars(padding as nat),
        ("bitstring = \"\"\"")@,
    ] + Seq::new(11, |y: int| encode_row(fs, y, padding as nat)) + seq![("\"\"\"")@]
}

/// An encoded configuration document splits into exactly the lines of
/// [`doc_lines`].
pub proof fn lemma_encode_lines(fs: Seq<Seq<bool>>, padding: u8, speed: u8)
    ensures
        lines_spec(encode_spec(fs, padding, speed)) == doc_lines(fs, padding, speed),
{
    let p = padding as nat;
    let ds = dec_chars(speed as nat);
    let dp = dec_chars(padding as nat);
    lemma_dec_chars_value(speed as nat);
    lemma_dec_chars_value(padding as nat);
    lemma_digits_are_plain(ds);
    lemma_digits_are_plain(dp);
    reveal_strlit("[[message]]");
    reveal_strlit("[[message]]\nspeed = ");
    reveal_strlit("speed = ");
    reveal_strlit("\nmode = \"fast\"\n");
    reveal_strlit("mode = \"fast\"");
    reveal_strlit("# the padding value is editor metadata; the badge flashing tool ignores it");
    reveal_strlit("# the padding value is editor metadata; the badge flashing tool ignores it\n");
    reveal_strlit("padding = ");
    reveal_strlit("\nbitstring = \"\"\"\n");
    reveal_strlit("bitstring = \"\"\"");
    reveal_strlit("\"\"\"");
    let l0 = ("[[message]]")@;
    let l1 = ("speed = ")@ + ds;
    let l2 = ("mode = \"fast\"")@;
    let l3 = ("# the padding value is editor metadata; the badge flashing tool ignores it")@;
    let l4 = ("padding = ")@ + dp;
    let l5 = ("bitstring = \"\"\"")@;
    let l6 = ("\"\"\"")@;
    lemma_rows_upto_from(fs, p, 0);
    let rows = encode_rows_from(fs, p, 0);
    assert(encode_rows_upto(fs, p, 0) + rows =~= rows);
    assert(encode_bitstring(fs, p) == rows);
    let t6 = rows + l6;
    let t5 = l5 + seq!['\n'] + t6;
    let t4 = l4 + seq!['\n'] + t5;
    let t3 = l3 + seq!['\n'] + t4;
    let t2 = l2 + seq!['\n'] + t3;
    let t1 = l1 + seq!['\n'] + t2;
    let t0 = l0 + seq!['\n'] + t1;
    assert(encode_spec(fs, padding, speed) =~= t0);
    assert(single_line(l0));
    assert forall|i: int| 0 <= i < l1.len() implies #[trigger] l1[i] != '\n' && l1[i] != '\r' by {
        if i < ("speed = ")@.len() {
            assert(l1[i] == ("speed = ")@[i]);
        } else {
            assert(l1[i] == ds[i - ("speed = ")@.len()]);
        }
    }
    assert(single_line(l2));
    assert(single_line(l3));
    assert forall|i: int| 0 <= i < l4.len() implies #[trigger] l4[i] != '\n' && l4[i] != '\r' by {
        if i < ("padding = ")@.len() {
            assert(l4[i] == ("padding = ")@[i]);
        } else {
            assert(l4[i] == dp[i - ("padding = ")@.len()]);
        }
    }
    assert(single_line(l5));
    assert(single_line(l6));
    lemma_lines_single(l6);
    lemma_rows_lines(fs, p, 0, l6);
    lemma_lines_prepend(l5, t6);
    lemma_lines_prepend(l4, t5);
    lemma_lines_prepend(l3, t4);
    lemma_lines_prepend(l2, t3);
    lemma_lines_prepend(l1, t2);
    lemma_lines_prepend(l0, t1);
    assert(lines_spec(t6) == Seq::new(11, |y: int| encode_row(fs, y, p)) + seq![l6]);
    assert(lines_spec(t0) == seq![l0] + (seq![l1] + (seq![l2] + (seq![l3] + (seq![l4] + (seq![l5]
        + (Seq::new(11, |y: int| encode_row(fs, y, p)) + seq![l6])))))));
    assert(lines_spec(t0) =~= doc_lines(fs, padding, speed));
}

/// The encoded bitstring splits into exactly 11 lines, one per grid row, and
/// each line is `frames * (44 + padding)` characters long.
pub proof fn lemma_encoding_width(fs: Seq<Seq<bool>>, padding: u8)
    ensures
        lines_spec(encode_bitstring(fs, padding as nat)).len() == 11,
        forall|y: int|
            0 <= y < 11 ==> #[trigger] lines_spec(encode_bitstring(fs, padding as nat))[y]
                == encode_row(fs, y, padding as nat),
        forall|y: int|
            0 <= y < 11 ==> #[trigger] lines_spec(encode_bitstring(fs, padding as nat))[y].len()
                == fs.len() * (44 + padding as int),
{
    let p = padding as nat;
    lemma_rows_upto_from(fs, p, 0);
    let rows = encode_rows_from(fs, p, 0);
    assert(encode_rows_upto(fs, p, 0) + rows =~= rows);
    assert(encode_bitstring(fs, p) == rows);
    assert(rows + Seq::<char>::empty() =~= rows);
    lemma_rows_lines(fs, p, 0, Seq::<char>::empty());
    assert(lines_spec(Seq::<char>::empty()) =~= Seq::<Seq<char>>::empty());
    assert(lines_spec(rows) =~= Seq::new(11, |y: int| encode_row(fs, y, p)));
    assert forall|y: int| 0 <= y < 11 implies #[trigger] lines_spec(
        encode_bitstring(fs, p),
    )[y].len() == fs.len() * (44 + padding as int) by {
        lemma_row_len(fs, y, p, fs.len() as int);
    }
}

/// A grid whose first `k` rows are those of `g` and whose remaining rows
/// are off: the state of a decoded frame after `k` data rows.
pub open spec fn grid_prefix(g: Seq<bool>, k: int) -> Seq<bool> {
    Seq::new(484, |i: int| if i < k * 44 { g[i] } else { false })
}

/// A line whose first character differs is not prefixed by `p`.
proof fn lemma_not_prefix(line: Seq<char>, p: Seq<char>)
    requires
        p.len() > 0,
        line.len() > 0,
        line[0] != p[0],
    ensures
        !has_prefix(line, p),
{
    if p.len() <= line.len() {
        assert(line.subrange(0, p.len() as int)[0] == line[0]);
    }
}

/// A line that matches no marker does nothing outside the bitstring section.
proof fn lemma_plain_line_step(st: DecodeSt, line: Seq<char>, fb: u8)
    requires
        !has_prefix(line, ("speed =")@),
        !has_prefix(line, ("padding =")@),
        !has_prefix(line, ("bitstring =")@),
        !st.in_bitstring,
    ensures
        decode_line_spec(st, line, fb) == st,
{
}

/// A field line `<head><digits>`, where `head` ends in `"= "` and holds no
/// earlier `=`, carries exactly the value the digits render: its `=` segment
/// is the space and the digits, and parsing it yields `v` whatever the
/// fallback.
proof fn lemma_eq_field_value(head: Seq<char>, v: u8, fb: u8, line: Seq<char>)
    requires
        line == head + dec_chars(v as nat),
        head.len() >= 2,
        head[head.len() - 2] == '=',
        head.last() == ' ',
        forall|i: int| 0 <= i < head.len() - 2 ==> head[i] != '=',
    ensures
        eq_segment(line) == Some(seq![' '] + dec_chars(v as nat)),
        parse_or(seq![' '] + dec_chars(v as nat), fb) == v,
{
    let ds = dec_chars(v as nat);
    lemma_dec_chars_value(v as nat);
    lemma_digits_are_plain(ds);
    let hl = head.len() as int;
    assert(line[hl - 2] == '=');
    assert forall|i: int| 0 <= i < hl - 2 implies line[i] != '=' by {
        assert(line[i] == head[i]);
    }
    lemma_find_char_at(line, '=', 0, hl - 2);
    assert forall|i: int| hl - 1 <= i < line.len() implies line[i] != '=' by {
        if i == hl - 1 {
            assert(line[i] == head.last());
        } else {
            assert(line[i] == ds[i - hl]);
        }
    }
    lemma_find_char_none(line, '=', hl - 1);
    let seg = line.subrange(hl - 1, line.len() as int);
    assert(seg =~= seq![' '] + ds);
    assert(eq_segment(line) == Some(seg));
    // ltrim drops the space, and the digits have no surrounding whitespace.
    assert(seg[0] == ' ');
    assert(seg.drop_first() =~= ds);
    assert(ltrim(seg) == ltrim(ds));
    assert(!is_space_char(ds[0]));
    assert(ltrim(ds) == ds);
    assert(!is_space_char(ds.last()));
    assert(rtrim(ds) == ds);
    assert(trim_spec(seg) == ds);
    assert(parse_u8_spec(ds) == Some(v));
}

/// Applying an encoded data row for row `y` to frames decoded up to row `y`
/// yields the frames decoded up to row `y + 1`. The frames may still be an
/// empty sequence when `y` is 0; the row then grows them.
proof fn lemma_apply_encoded_row(fs: Seq<Seq<bool>>, padding: nat, y: int, base: Seq<Seq<bool>>)
    requires
        0 <= y < 11,
        fs.len() >= 1,
        forall|f: int| 0 <= f < fs.len() ==> (#[trigger] fs[f]).len() == 484,
        base.len() <= fs.len(),
        forall|f: int|
            0 <= f < fs.len() ==> (if f < base.len() {
                base[f]
            } else {
                blank_grid()
            }) == grid_prefix(#[trigger] fs[f], y),
    ensures
        apply_data_row(base, encode_row(fs, y, padding), 44 + padding, y) == Seq::new(
            fs.len(),
            |f: int| grid_prefix(fs[f], y + 1),
        ),
{
    let line = encode_row(fs, y, padding);
    let n = fs.len() as int;
    lemma_row_len(fs, y, padding, n);
    assert(line.len() == n * (44 + padding));
    vstd::arithmetic::div_mod::lemma_div_by_multiple(n, 44 + padding as int);
    let nf = (line.len() / (44 + padding)) as int;
    assert(nf == n);
    let applied = apply_data_row(base, line, 44 + padding, y);
    assert(applied.len() == n);
    assert forall|f: int| 0 <= f < n implies applied[f] == grid_prefix(fs[f], y + 1) by {
        let b = if f < base.len() {
            base[f]
        } else {
            blank_grid()
        };
        assert(b == grid_prefix(fs[f], y));
        let bits = row_bits(line, 44 + padding, f);
        assert forall|x: int| 0 <= x < 44 implies #[trigger] bits[x] == fs[f][y * 44 + x] by {
            lemma_row_extract(fs, y, padding, n, f, x);
            assert(bits[x] == (line[f * (44 + padding) + x] == 'X'));
            assert(cell_index(x, y) == y * 44 + x);
        }
        assert(applied[f] == set_grid_row(b, y, bits));
        assert forall|i: int| 0 <= i < 484 implies set_grid_row(b, y, bits)[i] == grid_prefix(
            fs[f],
            y + 1,
        )[i] by {
            if y * 44 <= i < y * 44 + 44 {
                let x = i - y * 44;
                assert(bits[x] == fs[f][y * 44 + x]);
            }
        }
        assert(set_grid_row(b, y, bits) =~= grid_prefix(fs[f], y + 1));
    }
    assert(applied =~= Seq::new(fs.len(), |f: int| grid_prefix(fs[f], y + 1)));
}

/// Decoding over the concatenation of two line sequences is decoding the
/// first and then the second.
proof fn lemma_decode_lines_append(st: DecodeSt, a: Seq<Seq<char>>, b: Seq<Seq<char>>, fb: u8)
    ensures
        decode_lines_spec(st, a + b, fb) == decode_lines_spec(
            decode_lines_spec(st, a, fb),
            b,
            fb,
        ),
    decreases a.len(),
{
    if a.len() == 0 {
        assert(a + b =~= b);
    } else {
        assert((a + b)[0] == a[0]);
        assert((a + b).drop_first() =~= a.drop_first() + b);
        lemma_decode_lines_append(decode_line_spec(st, a[0], fb), a.drop_first(), b, fb);
    }
}

/// The data rows of an encoded bitstring, consumed inside the bitstring
/// section from row `y` on, rebuild the frames row by row.
proof fn lemma_decode_data_rows(
    fs: Seq<Seq<bool>>,
    padding: u8,
    sp: u8,
    fb: u8,
    y: int,
    base: Seq<Seq<bool>>,
)
    requires
        0 <= y <= 11,
        fs.len() >= 1,
        forall|f: int| 0 <= f < fs.len() ==> (#[trigger] fs[f]).len() == 484,
        base.len() == fs.len() || y == 0,
        base.len() <= fs.len(),
        forall|f: int|
            0 <= f < fs.len() ==> (if f < base.len() {
                base[f]
            } else {
                blank_grid()
            }) == grid_prefix(#[trigger] fs[f], y),
    ensures
        decode_lines_spec(
            DecodeSt {
                frames: base,
                padding: padding,
                speed: sp,
                in_bitstring: true,
                row: y as nat,
            },
            Seq::new((11 - y) as nat, |i: int| encode_row(fs, y + i, padding as nat)),
            fb,
        ) == (DecodeSt {
            frames: Seq::new(fs.len(), |f: int| grid_prefix(fs[f], 11)),
            padding: padding,
            speed: sp,
            in_bitstring: true,
            row: 11nat,
        }),
    decreases 11 - y,
{
    let p = padding as nat;
    let st = DecodeSt {
        frames: base,
        padding: padding,
        speed: sp,
        in_bitstring: true,
        row: y as nat,
    };
    let lines = Seq::new((11 - y) as nat, |i: int| encode_row(fs, y + i, p));
    if y == 11 {
        assert(lines =~= Seq::<Seq<char>>::empty());
        assert(base =~= Seq::new(fs.len(), |f: int| grid_prefix(fs[f], 11)));
        assert(decode_lines_spec(st, lines, fb) == st);
    } else {
        let row = encode_row(fs, y, p);
        assert(lines[0] == row);
        lemma_row_len(fs, y, p, fs.len() as int);
        assert(1 * (44 + p as int) <= fs.len() * (44 + p as int)) by (nonlinear_arith)
            requires
                1 <= fs.len(),
                p >= 0,
        ;
        assert(row.len() >= 44);
        assert(row[0] == 'X' || row[0] == '_');
        assert(row.last() == 'X' || row.last() == '_');
        reveal_strlit("speed =");
        reveal_strlit("padding =");
        reveal_strlit("bitstring =");
        reveal_strlit("\"\"\"");
        lemma_not_prefix(row, ("speed =")@);
        lemma_not_prefix(row, ("padding =")@);
        lemma_not_prefix(row, ("bitstring =")@);
        assert(!is_space_char(row[0]));
        assert(ltrim(row) == row);
        assert(!is_space_char(row.last()));
        assert(rtrim(row) == row);
        assert(trim_spec(row) == row);
        assert(row.len() != ("\"\"\"")@.len());
        assert(trim_spec(row) != ("\"\"\"")@);
        let st2 = decode_line_spec(st, row, fb);
        lemma_apply_encoded_row(fs, p, y, base);
        let base2 = Seq::new(fs.len(), |f: int| grid_prefix(fs[f], y + 1));
        assert(st2 == DecodeSt {
            frames: base2,
            padding: padding,
            speed: sp,
            in_bitstring: true,
            row: (y + 1) as nat,
        });
        lemma_decode_data_rows(fs, padding, sp, fb, y + 1, base2);
        assert(lines.drop_first() =~= Seq::new((10 - y) as nat, |i: int| encode_row(
            fs,
            y + 1 + i,
            p,
        )));
    }
}

/// A data row shorter than one frame's width reads every cell as off: it
/// encodes no frame at all, so the decoder consumes it without touching the
/// frames and without failing.
pub proof fn lemma_truncated_row_reads_off(st: DecodeSt, line: Seq<char>, fb: u8)
    requires
        st.in_bitstring,
        !has_prefix(line, ("speed =")@),
        !has_prefix(line, ("padding =")@),
        !has_prefix(line, ("bitstring =")@),
        trim_spec(line) != ("\"\"\"")@,
        line.len() < 44 + st.padding as int,
    ensures
        decode_line_spec(st, line, fb) == (DecodeSt { row: st.row + 1, ..st }),
{
    if st.row < 11 {
        vstd::arithmetic::div_mod::lemma_basic_div(
            line.len() as int,
            44 + st.padding as int,
        );
        let applied = apply_data_row(st.frames, line, 44 + st.padding as nat, st.row as int);
        assert(applied =~= st.frames);
    }
}

/// The round trip: decoding an encoded configuration restores the frames,
/// the padding and the speed exactly, whatever fallback padding the decoder
/// is given.
pub proof fn lemma_round_trip(fs: Seq<Seq<bool>>, padding: u8, speed: u8, fallback_padding: u8)
    requires
        fs.len() >= 1,
        forall|f: int| 0 <= f < fs.len() ==> (#[trigger] fs[f]).len() == 484,
        1 <= speed <= 7,
    ensures
        decode_spec(encode_spec(fs, padding, speed), fallback_padding).frames == fs,
        decode_spec(encode_spec(fs, padding, speed), fallback_padding).padding == padding,
        decode_spec(encode_spec(fs, padding, speed), fallback_padding).speed == speed,
{
    let p = padding as nat;
    let fb = fallback_padding;
    lemma_encode_lines(fs, padding, speed);
    let lines = doc_lines(fs, padding, speed);
    reveal_strlit("speed =");
    reveal_strlit("padding =");
    reveal_strlit("bitstring =");
    reveal_strlit("\"\"\"");
    reveal_strlit("[[message]]");
    reveal_strlit("speed = ");
    reveal_strlit("mode = \"fast\"");
    reveal_strlit("# the padding value is editor metadata; the badge flashing tool ignores it");
    reveal_strlit("padding = ");
    reveal_strlit("bitstring = \"\"\"");
    let ds = dec_chars(speed as nat);
    let dp = dec_chars(padding as nat);
    lemma_dec_chars_value(speed as nat);
    lemma_dec_chars_value(padding as nat);
    lemma_digits_are_plain(ds);
    lemma_digits_are_plain(dp);
    let l0 = ("[[message]]")@;
    let l1 = ("speed = ")@ + ds;
    let l2 = ("mode = \"fast\"")@;
    let l3 = ("# the padding value is editor metadata; the badge flashing tool ignores it")@;
    let l4 = ("padding = ")@ + dp;
    let l5 = ("bitstring = \"\"\"")@;
    let l6 = ("\"\"\"")@;
    let rowlines = Seq::new(11, |y: int| encode_row(fs, y, p));
    let st0 = init_state(fb);
    // Line 0: the [[message]] header matches no marker.
    lemma_not_prefix(l0, ("speed =")@);
    lemma_not_prefix(l0, ("padding =")@);
    lemma_not_prefix(l0, ("bitstring =")@);
    lemma_plain_line_step(st0, l0, fb);
    // Line 1: the speed field.
    assert(l1[0] == 's');
    assert(l1.subrange(0, 7) =~= ("speed =")@);
    assert(has_prefix(l1, ("speed =")@));
    lemma_eq_field_value(("speed = ")@, speed, 5, l1);
    let st2 = DecodeSt { speed: speed, ..st0 };
    assert(decode_line_spec(st0, l1, fb) == st2);
    // Line 2: the mode field matches no marker.
    lemma_not_prefix(l2, ("speed =")@);
    lemma_not_prefix(l2, ("padding =")@);
    lemma_not_prefix(l2, ("bitstring =")@);
    lemma_plain_line_step(st2, l2, fb);
    // Line 3: the comment matches no marker.
    lemma_not_prefix(l3, ("speed =")@);
    lemma_not_prefix(l3, ("padding =")@);
    lemma_not_prefix(l3, ("bitstring =")@);
    lemma_plain_line_step(st2, l3, fb);
    // Line 4: the padding field.
    lemma_not_prefix(l4, ("speed =")@);
    assert(l4.subrange(0, 9) =~= ("padding =")@);
    assert(has_prefix(l4, ("padding =")@));
    lemma_eq_field_value(("padding = ")@, padding, fb, l4);
    let st5 = DecodeSt { padding: padding, ..st2 };
    assert(decode_line_spec(st2, l4, fb) == st5);
    // Line 5: the bitstring opener.
    lemma_not_prefix(l5, ("speed =")@);
    lemma_not_prefix(l5, ("padding =")@);
    assert(l5.subrange(0, 11) =~= ("bitstring =")@);
    assert(has_prefix(l5, ("bitstring =")@));
    let st6 = DecodeSt { in_bitstring: true, ..st5 };
    assert(decode_line_spec(st5, l5, fb) == st6);
    // The 11 data rows.
    assert(st6.frames =~= Seq::<Seq<bool>>::empty());
    assert forall|f: int| 0 <= f < fs.len() implies (if f < st6.frames.len() {
        st6.frames[f]
    } else {
        blank_grid()
    }) == grid_prefix(#[trigger] fs[f], 0) by {
        assert(blank_grid() =~= grid_prefix(fs[f], 0));
    }
    lemma_decode_data_rows(fs, padding, speed, fb, 0, st6.frames);
    let full = Seq::new(fs.len(), |f: int| grid_prefix(fs[f], 11));
    let st_rows = DecodeSt {
        frames: full,
        padding: padding,
        speed: speed,
        in_bitstring: true,
        row: 11nat,
    };
    // The closing delimiter.
    lemma_not_prefix(l6, ("speed =")@);
    lemma_not_prefix(l6, ("padding =")@);
    lemma_not_prefix(l6, ("bitstring =")@);
    assert(!is_space_char(l6[0]));
    assert(ltrim(l6) == l6);
    assert(!is_space_char(l6.last()));
    assert(rtrim(l6) == l6);
    assert(trim_spec(l6) == l6);
    let st_end = DecodeSt { in_bitstring: false, ..st_rows };
    assert(decode_line_spec(st_rows, l6, fb) == st_end);
    // Chain the steps over the whole line sequence.
    let header = seq![l0, l1, l2, l3, l4, l5];
    assert(lines =~= header + (rowlines + seq![l6]));
    lemma_decode_lines_append(st0, header, rowlines + seq![l6], fb);
    let h1 = seq![l1, l2, l3, l4, l5];
    let h2 = seq![l2, l3, l4, l5];
    let h3 = seq![l3, l4, l5];
    let h4 = seq![l4, l5];
    let h5 = seq![l5];
    assert(header.drop_first() =~= h1);
    assert(h1.drop_first() =~= h2);
    assert(h2.drop_first() =~= h3);
    assert(h3.drop_first() =~= h4);
    assert(h4.drop_first() =~= h5);
    assert(h5.drop_first() =~= Seq::<Seq<char>>::empty());
    assert(header[0] == l0 && h1[0] == l1 && h2[0] == l2 && h3[0] == l3 && h4[0] == l4 && h5[0]
        == l5);
    assert(decode_lines_spec(st0, header, fb) == decode_lines_spec(st0, h1, fb));
    assert(decode_lines_spec(st0, h1, fb) == decode_lines_spec(st2, h2, fb));
    assert(decode_lines_spec(st2, h2, fb) == decode_lines_spec(st2, h3, fb));
    assert(decode_lines_spec(st2, h3, fb) == decode_lines_spec(st2, h4, fb));
    assert(decode_lines_spec(st2, h4, fb) == decode_lines_spec(st5, h5, fb));
    assert(decode_lines_spec(st5, h5, fb) == decode_lines_spec(
        st6,
        Seq::<Seq<char>>::empty(),
        fb,
    ));
    assert(decode_lines_spec(st0, header, fb) == st6);
    lemma_decode_lines_append(st6, rowlines, seq![l6], fb);
    assert(st6 == DecodeSt {
        frames: st6.frames,
        padding: padding,
        speed: speed,
        in_bitstring: true,
        row: 0nat,
    });
    assert(Seq::new((11 - 0) as nat, |i: int| encode_row(fs, 0 + i, p)) =~= rowlines);
    assert(decode_lines_spec(st6, rowlines, fb) == st_rows);
    assert(seq![l6].drop_first() =~= Seq::<Seq<char>>::empty());
    assert(seq![l6][0] == l6);
    assert(decode_lines_spec(st_rows, seq![l6], fb) == decode_lines_spec(
        st_end,
        Seq::<Seq<char>>::empty(),
        fb,
    ));
    assert(decode_lines_spec(st_rows, seq![l6], fb) == st_end);
    assert(decode_spec(encode_spec(fs, padding, speed), fb) == st_end);
    // The fully decoded frames are the original frames.
    assert forall|f: int| 0 <= f < fs.len() implies full[f] == fs[f] by {
        assert(grid_prefix(fs[f], 11) =~= fs[f]);
    }
    assert(full =~= fs);
}

} // verus!
