//! The codec between an animation snapshot and its textual configuration.
//!
//! The configuration is a line-oriented document:
//!
//! ```text
//! [[message]]
//! speed = 5
//! mode = "fast"
//! # the padding value is editor metadata; the badge flashing tool ignores it
//! padding = 0
//! bitstring = """
//! <11 data rows over the alphabet {X, _}>
//! """
//! ```
//!
//! The bitstring lays the frames out side by side: data row `y` holds, for
//! each frame in order, 44 characters (`X` for an on cell, `_` for an off
//! cell) followed by `padding` filler `_` characters. `mode` is always the
//! literal `"fast"` and is not round-tripped.
//!
//! Decoding scans lines: a `speed =` line sets the speed (a value that does
//! not parse as a byte falls back to 5), a `padding =` line sets the padding
//! (falling back to the caller-supplied previous padding — the policy this
//! codec commits to for missing or malformed padding fields), `bitstring = `
//! opens the data section and a line that trims to `"""` closes it. Data
//! rows are split into frames of `44 + padding` characters each; frames are
//! grown lazily, a trailing partial frame is dropped, and every character
//! other than `X` reads as an off cell, so truncated rows are tolerated.
//! Data rows beyond the eleventh are ignored. Decoding never fails: at worst
//! it yields no frames, and the caller keeps its current state.

use vstd::prelude::*;

use crate::frame::Frame;
use crate::frame::blank_grid;
use crate::frame::cell_index;
use crate::store::views_of;
use crate::text::append_decimal;
use crate::text::dec_chars;
use crate::text::find_char_spec;
use crate::text::find_from;
use crate::text::has_prefix;
use crate::text::lemma_find_char_range;
use crate::text::lines_spec;
use crate::text::parse_u8;
use crate::text::parse_u8_spec;
use crate::text::split_lines;
use crate::text::str_eq;
use crate::text::str_has_prefix;
use crate::text::trim_spec;
use crate::text::trim_str;

verus! {

/// `n` filler characters.
pub open spec fn underscores(n: nat) -> Seq<char> {
    Seq::new(n, |i: int| '_')
}

/// The 44 characters that encode row `y` of one frame.
pub open spec fn encode_frame_row(g: Seq<bool>, y: int) -> Seq<char> {
    Seq::new(44, |x: int| if g[cell_index(x, y)] { 'X' } else { '_' })
}

/// The characters that the first `k` frames contribute to data row `y`:
/// for each frame its 44 cell characters, then `padding` fillers.
pub open spec fn encode_row_upto(fs: Seq<Seq<bool>>, y: int, padding: nat, k: int) -> Seq<char>
    decreases k,
{
    if k <= 0 {
        Seq::empty()
    } else {
        encode_row_upto(fs, y, padding, k - 1) + encode_frame_row(fs[k - 1], y) + underscores(
            padding,
        )
    }
}

/// Data row `y` of the bitstring: all frames laid out side by side.
pub open spec fn encode_row(fs: Seq<Seq<bool>>, y: int, padding: nat) -> Seq<char> {
    encode_row_upto(fs, y, padding, fs.len() as int)
}

/// The first `k` data rows of the bitstring, each terminated by a line feed.
pub open spec fn encode_rows_upto(fs: Seq<Seq<bool>>, padding: nat, k: int) -> Seq<char>
    decreases k,
{
    if k <= 0 {
        Seq::empty()
    } else {
        encode_rows_upto(fs, padding, k - 1) + encode_row(fs, k - 1, padding) + seq!['\n']
    }
}

/// The whole bitstring: 11 data rows, each terminated by a line feed.
pub open spec fn encode_bitstring(fs: Seq<Seq<bool>>, padding: nat) -> Seq<char> {
    encode_rows_upto(fs, padding, 11)
}

/// The complete configuration document for the given frames, padding and
/// speed.
pub open spec fn encode_spec(fs: Seq<Seq<bool>>, padding: u8, speed: u8) -> Seq<char> {
    ("[[message]]\nspeed = ")@ + dec_chars(speed as nat) + ("\nmode = \"fast\"\n")@ + (
    "# the padding value is editor metadata; the badge flashing tool ignores it\n")@ + (
    "padding = ")@ + dec_chars(padding as nat) + ("\nbitstring = \"\"\"\n")@ + encode_bitstring(
        fs,
        padding as nat,
    ) + ("\"\"\"")@
}

/// Encodes the frames with the given padding and speed into the textual
/// configuration document.
pub fn create_config(frames: &Vec<Frame>, padding: u8, speed: u8) -> (r: String)
    requires
        forall|i: int| 0 <= i < frames@.len() ==> (#[trigger] frames@[i]).wf(),
    ensures
        r@ == encode_spec(views_of(frames@), padding, speed),
{
    let ghost fs = views_of(frames@);
    let n = frames.len();
    let mut out = String::new();
    out.append("[[message]]\nspeed = ");
    append_decimal(&mut out, speed);
    out.append("\nmode = \"fast\"\n");
    out.append("# the padding value is editor metadata; the badge flashing tool ignores it\n");
    out.append("padding = ");
    append_decimal(&mut out, padding);
    out.append("\nbitstring = \"\"\"\n");
    let ghost header = out@;
    let mut y: usize = 0;
    while y < 11
        invariant
            y <= 11,
            n == frames@.len(),
            fs == views_of(frames@),
            forall|i: int| 0 <= i < frames@.len() ==> (#[trigger] frames@[i]).wf(),
            out@ == header + encode_rows_upto(fs, padding as nat, y as int),
        decreases 11 - y,
    {
        let ghost row_start = out@;
        let mut f: usize = 0;
        while f < n
            invariant
                f <= n,
                y < 11,
                n == frames@.len(),
                fs == views_of(frames@),
                forall|i: int| 0 <= i < frames@.len() ==> (#[trigger] frames@[i]).wf(),
                out@ == row_start + encode_row_upto(fs, y as int, padding as nat, f as int),
            decreases n - f,
        {
            let ghost frame_start = out@;
            let mut x: usize = 0;
            while x < 44
                invariant
                    x <= 44,
                    f < n,
                    y < 11,
                    n == frames@.len(),
                    fs == views_of(frames@),
                    forall|i: int| 0 <= i < frames@.len() ==> (#[trigger] frames@[i]).wf(),
                    out@ == frame_start + encode_frame_row(fs[f as int], y as int).subrange(
                        0,
                        x as int,
                    ),
                decreases 44 - x,
            {
                proof {
                    reveal_strlit("X");
                    reveal_strlit("_");
                }
                if frames[f].get(x, y) {
                    out.append("X");
                } else {
                    out.append("_");
                }
                proof {
                    let rowc = encode_frame_row(fs[f as int], y as int);
                    assert(rowc[x as int] == if fs[f as int][cell_index(x as int, y as int)] {
                        'X'
                    } else {
                        '_'
                    });
                    assert(rowc.subrange(0, x + 1) =~= rowc.subrange(0, x as int) + seq![
                        rowc[x as int],
                    ]);
                }
                x = x + 1;
            }
            proof {
                let rowc = encode_frame_row(fs[f as int], y as int);
                assert(rowc.subrange(0, 44) =~= rowc);
            }
            let ghost pad_start = out@;
            let mut p: u8 = 0;
            while p < padding
                invariant
                    p <= padding,
                    out@ == pad_start + underscores(p as nat),
                decreases padding - p,
            {
                proof {
                    reveal_strlit("_");
                }
                out.append("_");
                proof {
                    assert(underscores((p + 1) as nat) =~= underscores(p as nat) + seq!['_']);
                }
                p = p + 1;
            }
            proof {
                assert(out@ == row_start + encode_row_upto(fs, y as int, padding as nat, f as int)
                    + encode_frame_row(fs[f as int], y as int) + underscores(padding as nat));
                assert(out@ == row_start + encode_row_upto(
                    fs,
                    y as int,
                    padding as nat,
                    f + 1,
                ));
            }
            f = f + 1;
        }
        proof {
            reveal_strlit("\n");
        }
        out.append("\n");
        proof {
            assert(("\n")@ =~= seq!['\n']);
            assert(encode_row_upto(fs, y as int, padding as nat, n as int) == encode_row(
                fs,
                y as int,
                padding as nat,
            ));
            assert(out@ == header + encode_rows_upto(fs, padding as nat, y + 1));
        }
        y = y + 1;
    }
    out.append("\"\"\"");
    proof {
        assert(out@ == encode_spec(fs, padding, speed));
    }
    out
}

/// The running state of the decoder: the frames grown so far, the field
/// values seen so far, whether the scan is inside the bitstring section, and
/// how many data rows have been consumed.
pub struct DecodeSt {
    pub frames: Seq<Seq<bool>>,
    pub padding: u8,
    pub speed: u8,
    pub in_bitstring: bool,
    pub row: nat,
}

/// The decoder state before any line is read: no frames, speed 5, and the
/// caller-supplied previous padding.
pub open spec fn init_state(fallback_padding: u8) -> DecodeSt {
    DecodeSt {
        frames: Seq::empty(),
        padding: fallback_padding,
        speed: 5,
        in_bitstring: false,
        row: 0,
    }
}

/// The text between the first `=` of a line and the second `=` or the end
/// of the line, if the line holds any `=` at all.
pub open spec fn eq_segment(line: Seq<char>) -> Option<Seq<char>> {
    let i = find_char_spec(line, '=', 0);
    if i >= line.len() {
        None
    } else {
        Some(line.subrange(i + 1, find_char_spec(line, '=', i + 1)))
    }
}

/// A field value parsed as a byte, after trimming; `fallback` if it does not
/// parse.
pub open spec fn parse_or(seg: Seq<char>, fallback: u8) -> u8 {
    match parse_u8_spec(trim_spec(seg)) {
        Some(v) => v,
        None => fallback,
    }
}

/// A grid with the 44 cells of row `y` replaced by `row`.
pub open spec fn set_grid_row(g: Seq<bool>, y: int, row: Seq<bool>) -> Seq<bool> {
    Seq::new(484, |i: int| if y * 44 <= i < y * 44 + 44 { row[i - y * 44] } else { g[i] })
}

/// A grid with the first `k` cells of row `y` replaced from `row`.
pub open spec fn set_grid_row_upto(g: Seq<bool>, y: int, row: Seq<bool>, k: int) -> Seq<bool> {
    Seq::new(484, |i: int| if y * 44 <= i < y * 44 + k { row[i - y * 44] } else { g[i] })
}

/// The 44 cells that a data row assigns to frame `f`: character
/// `f * row_len + x` of the line, on exactly where it is `X`.
pub open spec fn row_bits(line: Seq<char>, row_len: nat, f: int) -> Seq<bool> {
    Seq::new(44, |x: int| line[f * row_len + x] == 'X')
}

/// One data row applied to the frames at row `y`: the line encodes
/// `line.len() / row_len` frames (a trailing partial frame is dropped), the
/// frame sequence grows with blank frames to hold them all, and each encoded
/// frame has its row `y` set from the line.
pub open spec fn apply_data_row(
    frames: Seq<Seq<bool>>,
    line: Seq<char>,
    row_len: nat,
    y: int,
) -> Seq<Seq<bool>>
    recommends
        row_len >= 44,
{
    let nf = (line.len() / row_len) as int;
    let n2 = if frames.len() >= nf {
        frames.len() as int
    } else {
        nf
    };
    Seq::new(
        n2 as nat,
        |f: int|
            {
                let base = if f < frames.len() {
                    frames[f]
                } else {
                    blank_grid()
                };
                if f < nf {
                    set_grid_row(base, y, row_bits(line, row_len, f))
                } else {
                    base
                }
            },
    )
}

/// One line of the document applied to the decoder state.
///
/// Marker lines are recognised by prefix, in the order speed, padding,
/// bitstring, wherever they stand. Inside the bitstring section a line that
/// trims to `"""` closes the section, the first 11 other lines are data
/// rows, and later ones are ignored.
pub open spec fn decode_line_spec(st: DecodeSt, line: Seq<char>, fallback_padding: u8) -> DecodeSt {
    if has_prefix(line, ("speed =")@) {
        match eq_segment(line) {
            Some(seg) => DecodeSt { speed: parse_or(seg, 5), ..st },
            None => st,
        }
    } else if has_prefix(line, ("padding =")@) {
        match eq_segment(line) {
            Some(seg) => DecodeSt { padding: parse_or(seg, fallback_padding), ..st },
            None => st,
        }
    } else if has_prefix(line, ("bitstring =")@) {
        DecodeSt { in_bitstring: true, ..st }
    } else if st.in_bitstring {
        if trim_spec(line) == ("\"\"\"")@ {
            DecodeSt { in_bitstring: false, ..st }
        } else if st.row < 11 {
            DecodeSt {
                frames: apply_data_row(st.frames, line, 44 + st.padding as nat, st.row as int),
                row: st.row + 1,
                ..st
            }
        } else {
            DecodeSt { row: st.row + 1, ..st }
        }
    } else {
        st
    }
}

/// The decoder state after a sequence of lines.
pub open spec fn decode_lines_spec(
    st: DecodeSt,
    lines: Seq<Seq<char>>,
    fallback_padding: u8,
) -> DecodeSt
    decreases lines.len(),
{
    if lines.len() == 0 {
        st
    } else {
        decode_lines_spec(
            decode_line_spec(st, lines[0], fallback_padding),
            lines.drop_first(),
            fallback_padding,
        )
    }
}

/// What decoding a whole document yields.
pub open spec fn decode_spec(text: Seq<char>, fallback_padding: u8) -> DecodeSt {
    decode_lines_spec(init_state(fallback_padding), lines_spec(text), fallback_padding)
}

/// The text between the first and second `=` of the line, if any.
fn split_eq_second(line: &str) -> (r: Option<&str>)
    ensures
        (r is Some) == (eq_segment(line@) is Some),
        r is Some ==> r->0@ == eq_segment(line@)->0,
{
    let n = line.unicode_len();
    let i = find_from(line, '=', 0);
    if i >= n {
        return None;
    }
    let j = find_from(line, '=', i + 1);
    proof {
        lemma_find_char_range(line@, '=', i + 1);
    }
    Some(line.substring_char(i + 1, j))
}

/// Applies one data row to the frames at row `y`, as [`apply_data_row`]
/// describes.
fn apply_row(frames: &mut Vec<Frame>, line: &str, padding: u8, y: usize)
    requires
        y < 11,
        forall|i: int| 0 <= i < old(frames)@.len() ==> (#[trigger] old(frames)@[i]).wf(),
    ensures
        forall|i: int| 0 <= i < final(frames)@.len() ==> (#[trigger] final(frames)@[i]).wf(),
        views_of(final(frames)@) == apply_data_row(
            views_of(old(frames)@),
            line@,
            (44 + padding as nat),
            y as int,
        ),
{
    let row_len: usize = 44 + padding as usize;
    let line_len = line.unicode_len();
    let nf = line_len / row_len;
    let ghost ovs = views_of(old(frames)@);
    let ghost target = apply_data_row(ovs, line@, (44 + padding as nat), y as int);
    proof {
        vstd::arithmetic::div_mod::lemma_fundamental_div_mod(line_len as int, row_len as int);
        vstd::arithmetic::div_mod::lemma_remainder_lower(line_len as int, row_len as int);
        vstd::arithmetic::mul::lemma_mul_is_commutative(nf as int, row_len as int);
        assert(nf * row_len <= line_len);
    }
    let n0 = frames.len();
    while frames.len() < nf
        invariant
            n0 == old(frames)@.len(),
            n0 <= frames@.len(),
            frames@.len() <= (if n0 >= nf {
                n0 as int
            } else {
                nf as int
            }),
            forall|i: int| 0 <= i < n0 ==> frames@[i] == old(frames)@[i],
            forall|i: int| n0 <= i < frames@.len() ==> (#[trigger] frames@[i])@ == blank_grid(),
            forall|i: int| 0 <= i < frames@.len() ==> (#[trigger] frames@[i]).wf(),
        decreases nf - frames.len(),
    {
        frames.push(Frame::blank());
    }
    let n2 = frames.len();
    proof {
        assert(n2 as int == (if n0 >= nf {
            n0 as int
        } else {
            nf as int
        }));
        assert(target.len() == n2);
    }
    let mut f: usize = 0;
    while f < nf
        invariant
            f <= nf,
            y < 11,
            row_len as int == 44 + padding as int,
            line_len == line@.len(),
            n0 == old(frames)@.len(),
            n2 == frames@.len(),
            n2 == target.len(),
            nf <= n2,
            nf as int == line@.len() as int / (44 + padding as int),
            nf * (44 + padding as int) <= line@.len(),
            ovs == views_of(old(frames)@),
            forall|i: int| 0 <= i < n0 ==> ovs[i].len() == 484,
            target == apply_data_row(ovs, line@, (44 + padding as nat), y as int),
            forall|i: int| 0 <= i < f ==> (#[trigger] frames@[i])@ == target[i],
            forall|i: int|
                f <= i < n2 ==> (#[trigger] frames@[i])@ == (if i < n0 {
                    ovs[i]
                } else {
                    blank_grid()
                }),
            forall|i: int| 0 <= i < frames@.len() ==> (#[trigger] frames@[i]).wf(),
        decreases nf - f,
    {
        let ghost base = if f < n0 {
            ovs[f as int]
        } else {
            blank_grid()
        };
        let ghost bits = row_bits(line@, (44 + padding as nat), f as int);
        let ghost snap = frames@;
        proof {
            assert(base.len() == 484);
            assert(set_grid_row_upto(base, y as int, bits, 0) =~= base);
        }
        let mut x: usize = 0;
        while x < 44
            invariant
                x <= 44,
                f < nf,
                y < 11,
                row_len as int == 44 + padding as int,
                line_len == line@.len(),
                n2 == frames@.len(),
                n2 == snap.len(),
                nf <= n2,
                nf * (44 + padding as int) <= line@.len(),
                base == (if f < n0 {
                    ovs[f as int]
                } else {
                    blank_grid()
                }),
                bits == row_bits(line@, (44 + padding as nat), f as int),
                frames@[f as int]@ == set_grid_row_upto(base, y as int, bits, x as int),
                forall|i: int| 0 <= i < n2 && i != f ==> frames@[i] == snap[i],
                forall|i: int| 0 <= i < frames@.len() ==> (#[trigger] frames@[i]).wf(),
            decreases 44 - x,
        {
            proof {
                assert((f + 1) * (44 + padding as int) <= nf * (44 + padding as int))
                    by (nonlinear_arith)
                    requires
                        f + 1 <= nf,
                        padding >= 0,
                ;
                assert(f * (44 + padding as int) + x < (f + 1) * (44 + padding as int))
                    by (nonlinear_arith)
                    requires
                        x < 44,
                        padding >= 0,
                ;
            }
            let idx = f * row_len + x;
            let v = line.get_char(idx) == 'X';
            let fr = &mut frames[f];
            fr.set(x, y, v);
            proof {
                assert(bits[x as int] == (line@[f * (44 + padding as int) + x] == 'X'));
                assert(frames@[f as int]@ =~= set_grid_row_upto(base, y as int, bits, x + 1));
            }
            x = x + 1;
        }
        proof {
            assert(set_grid_row_upto(base, y as int, bits, 44) =~= set_grid_row(
                base,
                y as int,
                bits,
            ));
            assert(frames@[f as int]@ == target[f as int]);
            assert forall|i: int| f + 1 <= i < n2 implies (#[trigger] frames@[i])@ == (if i < n0 {
                ovs[i]
            } else {
                blank_grid()
            }) by {
                assert(frames@[i] == snap[i]);
            }
            assert forall|i: int| 0 <= i < f implies (#[trigger] frames@[i])@ == target[i] by {
                assert(frames@[i] == snap[i]);
            }
        }
        f = f + 1;
    }
    proof {
        assert forall|i: int| 0 <= i < n2 implies views_of(frames@)[i] == target[i] by {
            assert(views_of(frames@)[i] == frames@[i]@);
            if i >= nf {
                assert(frames@[i]@ == (if i < n0 {
                    ovs[i]
                } else {
                    blank_grid()
                }));
            }
        }
        assert(views_of(frames@) =~= target);
    }
}

/// Decodes a configuration document, as [`decode_spec`] describes: the
/// frames it encodes, the padding (`fallback_padding` where the document
/// supplies none), and the speed (5 where the document supplies none).
pub fn load_config(config: &str, fallback_padding: u8) -> (r: (Vec<Frame>, u8, u8))
    ensures
        views_of(r.0@) == decode_spec(config@, fallback_padding).frames,
        r.1 == decode_spec(config@, fallback_padding).padding,
        r.2 == decode_spec(config@, fallback_padding).speed,
        forall|i: int| 0 <= i < r.0@.len() ==> (#[trigger] r.0@[i]).wf(),
{
    let lines = split_lines(config);
    let ghost all_lines = lines_spec(config@);
    let ghost init = init_state(fallback_padding);
    let mut frames: Vec<Frame> = Vec::new();
    let mut speed: u8 = 5;
    let mut padding: u8 = fallback_padding;
    let mut in_bitstring: bool = false;
    let mut row: usize = 0;
    proof {
        assert(all_lines.skip(0) =~= all_lines);
        assert(views_of(frames@) =~= Seq::<Seq<bool>>::empty());
        assert(DecodeSt {
            frames: views_of(frames@),
            padding: padding,
            speed: speed,
            in_bitstring: in_bitstring,
            row: row as nat,
        } == init_state(fallback_padding));
    }
    let n = lines.len();
    let mut li: usize = 0;
    while li < n
        invariant
            li <= n,
            n == lines@.len(),
            n == all_lines.len(),
            all_lines == lines_spec(config@),
            init == init_state(fallback_padding),
            forall|i: int| 0 <= i < n ==> #[trigger] lines@[i]@ == all_lines[i],
            forall|i: int| 0 <= i < frames@.len() ==> (#[trigger] frames@[i]).wf(),
            row <= li,
            decode_lines_spec(init, all_lines, fallback_padding) == decode_lines_spec(
                DecodeSt {
                    frames: views_of(frames@),
                    padding: padding,
                    speed: speed,
                    in_bitstring: in_bitstring,
                    row: row as nat,
                },
                all_lines.skip(li as int),
                fallback_padding,
            ),
        decreases n - li,
    {
        let ghost st = DecodeSt {
            frames: views_of(frames@),
            padding: padding,
            speed: speed,
            in_bitstring: in_bitstring,
            row: row as nat,
        };
        let line: &str = lines[li];
        proof {
            assert(all_lines.skip(li as int)[0] == all_lines[li as int]);
            assert(all_lines.skip(li as int).drop_first() =~= all_lines.skip(li + 1));
            assert(decode_lines_spec(st, all_lines.skip(li as int), fallback_padding)
                == decode_lines_spec(
                decode_line_spec(st, line@, fallback_padding),
                all_lines.skip(li + 1),
                fallback_padding,
            ));
        }
        if str_has_prefix(line, "speed =") {
            match split_eq_second(line) {
                Some(seg) => {
                    let t = trim_str(seg);
                    match parse_u8(t) {
                        Some(v) => {
                            speed = v;
                        },
                        None => {
                            speed = 5;
                        },
                    }
                },
                None => {},
            }
        } else if str_has_prefix(line, "padding =") {
            match split_eq_second(line) {
                Some(seg) => {
                    let t = trim_str(seg);
                    match parse_u8(t) {
                        Some(v) => {
                            padding = v;
                        },
                        None => {
                            padding = fallback_padding;
                        },
                    }
                },
                None => {},
            }
        } else if str_has_prefix(line, "bitstring =") {
            in_bitstring = true;
        } else if in_bitstring {
            if str_eq(trim_str(line), "\"\"\"") {
                in_bitstring = false;
            } else {
                if row < 11 {
                    apply_row(&mut frames, line, padding, row);
                }
                row = row + 1;
            }
        }
        li = li + 1;
    }
    proof {
        assert(all_lines.skip(n as int) =~= Seq::<Seq<char>>::empty());
    }
    (frames, padding, speed)
}

} // verus!
