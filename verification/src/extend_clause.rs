//! Resizing the focused segment: the forced segment boundaries (byte ranges of
//! the whole reading) that result from moving the right edge of the focused
//! segment by one character.
//!
//! Both operations move only the **right** edge of the focused segment; its
//! left edge never moves. `extend_right` moves it one character to the right
//! (the focused segment takes the first character of its right neighbour);
//! `extend_left` moves it one character to the left (the last character goes
//! to the start of the right neighbour, or becomes a new last segment). When
//! nothing can move, the current boundaries are returned unchanged.

use vstd::prelude::*;
use crate::text::{char_width, chars_of, lemma_byte_len_is_encoding_len, spec_byte_len, spec_char_width};
use std::ops::Range;

verus! {

/// Byte offset of segment `i`: the byte lengths of the segments before it.
pub open spec fn spec_offset(r: Seq<Seq<char>>, i: int) -> int
    decreases i,
{
    if i <= 0 || r.len() == 0 {
        0
    } else if i > r.len() {
        spec_offset(r, r.len() as int)
    } else {
        spec_offset(r, i - 1) + spec_byte_len(r[i - 1])
    }
}

/// The current boundaries of segments `a..b`: one range per segment.
pub open spec fn spec_keep_between(r: Seq<Seq<char>>, a: int, b: int) -> Seq<(int, int)> {
    if a < b {
        Seq::new((b - a) as nat, |k: int| (spec_offset(r, a + k), spec_offset(r, a + k + 1)))
    } else {
        Seq::empty()
    }
}

/// The current boundaries of all segments.
pub open spec fn spec_keep(r: Seq<Seq<char>>) -> Seq<(int, int)> {
    spec_keep_between(r, 0, r.len() as int)
}

/// The boundaries after moving the right edge of segment `f` one character right.
pub open spec fn spec_extend_right(r: Seq<Seq<char>>, f: int) -> Seq<(int, int)> {
    let n = r.len() as int;
    if n == 0 {
        Seq::empty()
    } else if f >= n - 1 || r[f + 1].len() == 0 {
        spec_keep(r)
    } else {
        let w = spec_char_width(r[f + 1][0]) as int;
        let mid = spec_offset(r, f + 1) + w;
        let neighbour = if mid < spec_offset(r, f + 2) {
            seq![(mid, spec_offset(r, f + 2))]
        } else {
            Seq::empty()
        };
        spec_keep_between(r, 0, f) + seq![(spec_offset(r, f), mid)] + neighbour + spec_keep_between(r, f + 2, n)
    }
}

/// The boundaries after moving the right edge of segment `f` (clamped to the
/// last segment) one character left.
pub open spec fn spec_extend_left(r: Seq<Seq<char>>, f: int) -> Seq<(int, int)> {
    let n = r.len() as int;
    if n == 0 {
        Seq::empty()
    } else {
        let g = if f < n - 1 { f } else { n - 1 };
        if r[g].len() <= 1 {
            spec_keep(r)
        } else {
            let lw = spec_char_width(r[g].last()) as int;
            let cut = spec_offset(r, g + 1) - lw;
            let tail = if g + 1 == n {
                seq![(cut, spec_offset(r, g + 1))]
            } else {
                seq![(cut, spec_offset(r, g + 2))] + spec_keep_between(r, g + 2, n)
            };
            spec_keep_between(r, 0, g) + seq![(spec_offset(r, g), cut)] + tail
        }
    }
}

/// The ranges as pairs.
pub open spec fn ranges_view(v: Seq<Range<usize>>) -> Seq<(int, int)> {
    v.map_values(|x: Range<usize>| (x.start as int, x.end as int))
}

/// The readings of the segments as character sequences.
pub open spec fn readings_view(r: Seq<&str>) -> Seq<Seq<char>> {
    r.map_values(|s: &str| s@)
}

/// The ranges tile `[0, total)`: they start at 0, each one starts where the
/// previous one ends, none is reversed, and the last one ends at `total`.
pub open spec fn spec_tiles(ranges: Seq<(int, int)>, total: int) -> bool {
    &&& ranges.len() > 0
    &&& ranges[0].0 == 0
    &&& ranges.last().1 == total
    &&& forall|k: int| 0 <= k < ranges.len() ==> #[trigger] ranges[k].0 <= ranges[k].1
    &&& forall|k: int| 0 <= k < ranges.len() - 1 ==> #[trigger] ranges[k].1 == ranges[k + 1].0
}

proof fn lemma_keep_between_push(r: Seq<Seq<char>>, a: int, b: int)
    requires
        a <= b,
    ensures
        spec_keep_between(r, a, b + 1) == spec_keep_between(r, a, b).push((spec_offset(r, b), spec_offset(r, b + 1))),
{
    assert(spec_keep_between(r, a, b + 1) =~= spec_keep_between(r, a, b).push((spec_offset(r, b), spec_offset(r, b + 1))));
}

proof fn lemma_offset_step(r: Seq<Seq<char>>, i: int)
    requires
        0 <= i < r.len(),
    ensures
        spec_offset(r, i + 1) == spec_offset(r, i) + spec_byte_len(r[i]),
{
}

proof fn lemma_offset_mono(r: Seq<Seq<char>>, i: int, j: int)
    requires
        0 <= i <= j <= r.len(),
    ensures
        spec_offset(r, i) <= spec_offset(r, j),
    decreases j - i,
{
    if i < j {
        lemma_offset_mono(r, i, j - 1);
    }
}

proof fn lemma_first_width(s: Seq<char>)
    requires
        s.len() > 0,
    ensures
        spec_char_width(s[0]) <= spec_byte_len(s),
        s.len() == 1 ==> spec_char_width(s[0]) == spec_byte_len(s),
{
    crate::text::lemma_byte_len_positive(s.drop_first());
    if s.len() == 1 {
        assert(s.drop_first().len() == 0);
    }
}

proof fn lemma_last_width(s: Seq<char>)
    requires
        s.len() > 1,
    ensures
        spec_char_width(s.last()) < spec_byte_len(s),
{
    crate::text::lemma_byte_len_push(s.drop_last(), s.last());
    assert(s.drop_last().push(s.last()) =~= s);
    crate::text::lemma_byte_len_positive(s.drop_last());
}

/// The byte length of a reading is the length of its UTF-8 encoding.
fn reading_len(s: &str) -> (n: usize)
    requires
        spec_byte_len(s@) <= usize::MAX,
    ensures
        n == spec_byte_len(s@),
{
    proof {
        lemma_byte_len_is_encoding_len(s@);
    }
    s.len()
}

fn keep_current(readings: &[&str]) -> (out: Vec<Range<usize>>)
    requires
        spec_offset(readings_view(readings@), readings@.len() as int) <= usize::MAX,
    ensures
        ranges_view(out@) == spec_keep(readings_view(readings@)),
{
    let ghost r = readings_view(readings@);
    let mut out: Vec<Range<usize>> = Vec::new();
    let mut offset: usize = 0;
    let mut i: usize = 0;
    while i < readings.len()
        invariant
            i <= readings@.len(),
            r == readings_view(readings@),
            offset == spec_offset(r, i as int),
            spec_offset(r, r.len() as int) <= usize::MAX,
            ranges_view(out@) == spec_keep_between(r, 0, i as int),
        decreases readings.len() - i,
    {
        proof {
            lemma_offset_step(r, i as int);
            lemma_offset_mono(r, i as int + 1, r.len() as int);
            assert(r[i as int] == readings@[i as int]@);
        }
        let len = reading_len(readings[i]);
        let ghost old_out = out@;
        out.push(Range { start: offset, end: offset + len });
        proof {
            lemma_keep_between_push(r, 0, i as int);
            assert(ranges_view(out@) =~= ranges_view(old_out).push((offset as int, (offset + len) as int)));
        }
        offset = offset + len;
        i = i + 1;
    }
    out
}

/// The boundaries after the focused segment takes the first character of its
/// right neighbour (a neighbour of one character disappears). Unchanged when
/// the focused segment is the last one.
pub fn extend_right(readings: &[&str], focused: usize) -> (out: Vec<Range<usize>>)
    requires
        spec_offset(readings_view(readings@), readings@.len() as int) <= usize::MAX,
        readings@.len() > 0 && focused != readings@.len() - 1 ==> focused < usize::MAX,
    ensures
        ranges_view(out@) == spec_extend_right(readings_view(readings@), focused as int),
{
    let ghost r = readings_view(readings@);
    let n = readings.len();
    if n == 0 {
        let out: Vec<Range<usize>> = Vec::new();
        proof {
            assert(ranges_view(out@) =~= Seq::<(int, int)>::empty());
        }
        return out;
    }
    if focused >= n - 1 {
        return keep_current(readings);
    }
    let next = chars_of(readings[focused + 1]);
    if next.len() == 0 {
        return keep_current(readings);
    }
    let w = char_width(next[0]);
    let ghost f = focused as int;
    let ghost mid = spec_offset(r, f + 1) + w;
    let ghost neighbour = if mid < spec_offset(r, f + 2) {
        seq![(mid, spec_offset(r, f + 2))]
    } else {
        Seq::<(int, int)>::empty()
    };
    proof {
        lemma_first_width(r[f + 1]);
        lemma_offset_step(r, f + 1);
        lemma_offset_mono(r, f + 2, n as int);
    }
    let mut out: Vec<Range<usize>> = Vec::new();
    let mut offset: usize = 0;
    let mut i: usize = 0;
    while i < n
        invariant
            n == readings@.len(),
            i <= n,
            f == focused as int,
            0 <= f < n - 1,
            r == readings_view(readings@),
            r[f + 1].len() > 0,
            w == spec_char_width(r[f + 1][0]),
            w <= spec_byte_len(r[f + 1]),
            mid == spec_offset(r, f + 1) + w,
            neighbour == (if mid < spec_offset(r, f + 2) {
                seq![(mid, spec_offset(r, f + 2))]
            } else {
                Seq::<(int, int)>::empty()
            }),
            offset == spec_offset(r, i as int),
            spec_offset(r, n as int) <= usize::MAX,
            i <= f ==> ranges_view(out@) == spec_keep_between(r, 0, i as int),
            i == f + 1 ==> ranges_view(out@) == spec_keep_between(r, 0, f) + seq![(spec_offset(r, f), mid)],
            i > f + 1 ==> ranges_view(out@) == spec_keep_between(r, 0, f) + seq![(spec_offset(r, f), mid)] + neighbour
                + spec_keep_between(r, f + 2, i as int),
        decreases n - i,
    {
        proof {
            lemma_offset_step(r, i as int);
            lemma_offset_mono(r, i as int + 1, n as int);
            assert(r[i as int] == readings@[i as int]@);
        }
        let len = reading_len(readings[i]);
        let ghost old_out = out@;
        let ghost head = spec_keep_between(r, 0, f) + seq![(spec_offset(r, f), mid)];
        if i == focused {
            proof {
                lemma_offset_mono(r, f + 2, n as int);
                lemma_offset_step(r, f + 1);
            }
            out.push(Range { start: offset, end: offset + len + w });
            proof {
                assert(ranges_view(out@) =~= ranges_view(old_out).push((offset as int, (offset + len + w) as int)));
            }
        } else if i == focused + 1 {
            let start = offset + w;
            let end = offset + len;
            if start < end {
                out.push(Range { start: start, end: end });
                proof {
                    assert(ranges_view(out@) =~= ranges_view(old_out).push((start as int, end as int)));
                    assert(spec_keep_between(r, f + 2, f + 2) =~= Seq::<(int, int)>::empty());
                    assert(ranges_view(out@) =~= head + neighbour + spec_keep_between(r, f + 2, i as int + 1));
                }
            } else {
                proof {
                    assert(spec_keep_between(r, f + 2, f + 2) =~= Seq::<(int, int)>::empty());
                    assert(ranges_view(out@) =~= head + neighbour + spec_keep_between(r, f + 2, i as int + 1));
                }
            }
        } else {
            out.push(Range { start: offset, end: offset + len });
            proof {
                assert(ranges_view(out@) =~= ranges_view(old_out).push((offset as int, (offset + len) as int)));
                if i < focused {
                    lemma_keep_between_push(r, 0, i as int);
                } else {
                    lemma_keep_between_push(r, f + 2, i as int);
                    assert(ranges_view(out@) =~= head + neighbour + spec_keep_between(r, f + 2, i as int + 1));
                }
            }
        }
        offset = offset + len;
        i = i + 1;
    }
    out
}

/// The boundaries after the focused segment (clamped to the last one) gives
/// its last character to its right neighbour, or to a new last segment.
/// Unchanged when the focused segment has at most one character.
pub fn extend_left(readings: &[&str], focused: usize) -> (out: Vec<Range<usize>>)
    requires
        spec_offset(readings_view(readings@), readings@.len() as int) <= usize::MAX,
    ensures
        ranges_view(out@) == spec_extend_left(readings_view(readings@), focused as int),
{
    let ghost r = readings_view(readings@);
    let n = readings.len();
    if n == 0 {
        let out: Vec<Range<usize>> = Vec::new();
        proof {
            assert(ranges_view(out@) =~= Seq::<(int, int)>::empty());
        }
        return out;
    }
    let f = if focused < n - 1 { focused } else { n - 1 };
    let chars = chars_of(readings[f]);
    if chars.len() <= 1 {
        return keep_current(readings);
    }
    let last_len = char_width(chars[chars.len() - 1]);
    let ghost g = f as int;
    let ghost cut = spec_offset(r, g + 1) - last_len;
    proof {
        lemma_last_width(r[g]);
        lemma_offset_step(r, g);
        lemma_offset_mono(r, g + 1, n as int);
        lemma_offset_mono(r, 0, g);
        assert(r[g].last() == chars@[chars@.len() - 1]);
    }
    let mut out: Vec<Range<usize>> = Vec::new();
    let mut offset: usize = 0;
    let mut i: usize = 0;
    while i < n
        invariant
            n == readings@.len(),
            i <= n,
            g == f as int,
            0 <= g < n,
            r == readings_view(readings@),
            r[g].len() > 1,
            last_len == spec_char_width(r[g].last()),
            last_len < spec_byte_len(r[g]),
            cut == spec_offset(r, g + 1) - last_len,
            spec_offset(r, g + 1) == spec_offset(r, g) + spec_byte_len(r[g]),
            spec_offset(r, g) >= 0,
            offset == spec_offset(r, i as int),
            spec_offset(r, n as int) <= usize::MAX,
            i <= g ==> ranges_view(out@) == spec_keep_between(r, 0, i as int),
            i == g + 1 && g + 1 == n ==> ranges_view(out@) == spec_keep_between(r, 0, g) + seq![(spec_offset(r, g), cut)]
                + seq![(cut, spec_offset(r, g + 1))],
            i == g + 1 && g + 1 < n ==> ranges_view(out@) == spec_keep_between(r, 0, g) + seq![(spec_offset(r, g), cut)],
            i > g + 1 ==> ranges_view(out@) == spec_keep_between(r, 0, g) + seq![(spec_offset(r, g), cut)]
                + (seq![(cut, spec_offset(r, g + 2))] + spec_keep_between(r, g + 2, i as int)),
        decreases n - i,
    {
        proof {
            lemma_offset_step(r, i as int);
            lemma_offset_mono(r, i as int + 1, n as int);
            assert(r[i as int] == readings@[i as int]@);
        }
        let len = reading_len(readings[i]);
        let ghost old_out = out@;
        let ghost head = spec_keep_between(r, 0, g) + seq![(spec_offset(r, g), cut)];
        if i == f {
            out.push(Range { start: offset, end: offset + len - last_len });
            proof {
                assert(ranges_view(out@) =~= ranges_view(old_out).push((offset as int, (offset + len - last_len) as int)));
            }
            if f + 1 == n {
                let start = offset + len - last_len;
                let ghost mid_out = out@;
                out.push(Range { start: start, end: offset + len });
                proof {
                    assert(ranges_view(out@) =~= ranges_view(mid_out).push((start as int, (offset + len) as int)));
                }
            }
        } else if i == f + 1 {
            let start = offset - last_len;
            out.push(Range { start: start, end: offset + len });
            proof {
                assert(ranges_view(out@) =~= ranges_view(old_out).push((start as int, (offset + len) as int)));
                assert(spec_keep_between(r, g + 2, g + 2) =~= Seq::<(int, int)>::empty());
                assert(ranges_view(out@) =~= head + (seq![(cut, spec_offset(r, g + 2))] + spec_keep_between(r, g + 2, i as int + 1)));
            }
        } else {
            out.push(Range { start: offset, end: offset + len });
            proof {
                assert(ranges_view(out@) =~= ranges_view(old_out).push((offset as int, (offset + len) as int)));
                if i < f {
                    lemma_keep_between_push(r, 0, i as int);
                } else {
                    lemma_keep_between_push(r, g + 2, i as int);
                    assert(ranges_view(out@) =~= head + (seq![(cut, spec_offset(r, g + 2))] + spec_keep_between(r, g + 2, i as int + 1)));
                }
            }
        }
        offset = offset + len;
        i = i + 1;
    }
    out
}

// ------------------------------------------------------------------ laws

proof fn lemma_keep_tiles_part(r: Seq<Seq<char>>, a: int, b: int)
    requires
        0 <= a <= b <= r.len(),
    ensures
        forall|k: int| 0 <= k < b - a ==> #[trigger] spec_keep_between(r, a, b)[k].0 <= spec_keep_between(r, a, b)[k].1,
        forall|k: int| 0 <= k < b - a - 1 ==> #[trigger] spec_keep_between(r, a, b)[k].1 == spec_keep_between(r, a, b)[k + 1].0,
        a < b ==> spec_keep_between(r, a, b)[0].0 == spec_offset(r, a),
        a < b ==> spec_keep_between(r, a, b).last().1 == spec_offset(r, b),
{
    assert forall|k: int| 0 <= k < b - a implies #[trigger] spec_keep_between(r, a, b)[k].0 <= spec_keep_between(r, a, b)[k].1 by {
        lemma_offset_step(r, a + k);
    }
}

/// Law: keeping the current boundaries tiles the whole reading.
pub proof fn lemma_keep_tiles(r: Seq<Seq<char>>)
    requires
        r.len() > 0,
    ensures
        spec_tiles(spec_keep(r), spec_offset(r, r.len() as int)),
{
    lemma_keep_tiles_part(r, 0, r.len() as int);
}

/// Law: the boundaries after `extend_right` tile the whole reading (so the
/// total byte length is kept).
#[verifier::spinoff_prover]
#[verifier::rlimit(60)]
pub proof fn lemma_extend_right_tiles(r: Seq<Seq<char>>, f: int)
    requires
        r.len() > 0,
        0 <= f,
    ensures
        spec_tiles(spec_extend_right(r, f), spec_offset(r, r.len() as int)),
{
    let n = r.len() as int;
    if f >= n - 1 || r[f + 1].len() == 0 {
        lemma_keep_tiles(r);
    } else {
        let w = spec_char_width(r[f + 1][0]) as int;
        let mid = spec_offset(r, f + 1) + w;
        lemma_first_width(r[f + 1]);
        lemma_offset_step(r, f + 1);
        lemma_offset_step(r, f);
        lemma_keep_tiles_part(r, 0, f);
        lemma_keep_tiles_part(r, f + 2, n);
        lemma_offset_mono(r, f + 2, n);
        let a = spec_keep_between(r, 0, f);
        let b = spec_keep_between(r, f + 2, n);
        let neighbour = if mid < spec_offset(r, f + 2) {
            seq![(mid, spec_offset(r, f + 2))]
        } else {
            Seq::<(int, int)>::empty()
        };
        let res = a + seq![(spec_offset(r, f), mid)] + neighbour + b;
        assert(res == spec_extend_right(r, f));
        let mid_end = if mid < spec_offset(r, f + 2) { spec_offset(r, f + 2) } else { mid };
        assert(mid_end == spec_offset(r, f + 2));
        assert forall|k: int| 0 <= k < res.len() implies #[trigger] res[k].0 <= res[k].1 by {
            if k < f {
                assert(res[k] == a[k]);
            } else if k == f {
            } else if k < f + 1 + neighbour.len() {
                assert(res[k] == neighbour[k - f - 1]);
            } else {
                assert(res[k] == b[k - f - 1 - neighbour.len()]);
            }
        }
        assert forall|k: int| 0 <= k < res.len() - 1 implies #[trigger] res[k].1 == res[k + 1].0 by {
            if k < f - 1 {
                assert(res[k] == a[k]);
                assert(res[k + 1] == a[k + 1]);
            } else if k == f - 1 {
                assert(res[k] == a[k]);
            } else if k == f {
                if neighbour.len() > 0 {
                    assert(res[k + 1] == neighbour[0]);
                } else {
                    assert(res[k + 1] == b[0]);
                }
            } else if k < f + neighbour.len() {
                assert(false);
            } else if k == f + neighbour.len() {
                assert(res[k] == neighbour[0]);
                assert(res[k + 1] == b[0]);
            } else {
                let j = k - f - 1 - neighbour.len();
                assert(res[k] == b[j]);
                assert(res[k + 1] == b[j + 1]);
            }
        }
        if f == 0 {
            assert(res[0] == (spec_offset(r, 0), mid));
        } else {
            assert(res[0] == a[0]);
        }
        if b.len() > 0 {
            assert(res.last() == b.last());
        } else if neighbour.len() > 0 {
            assert(res.last() == neighbour[0]);
            assert(n == f + 2);
        } else {
            assert(n == f + 2);
        }
    }
}

/// Law: the boundaries after `extend_left` tile the whole reading (so the
/// total byte length is kept).
#[verifier::spinoff_prover]
#[verifier::rlimit(60)]
pub proof fn lemma_extend_left_tiles(r: Seq<Seq<char>>, f: int)
    requires
        r.len() > 0,
        0 <= f,
    ensures
        spec_tiles(spec_extend_left(r, f), spec_offset(r, r.len() as int)),
{
    let n = r.len() as int;
    let g = if f < n - 1 { f } else { n - 1 };
    if r[g].len() <= 1 {
        lemma_keep_tiles(r);
    } else {
        let lw = spec_char_width(r[g].last()) as int;
        let cut = spec_offset(r, g + 1) - lw;
        lemma_last_width(r[g]);
        lemma_offset_step(r, g);
        lemma_keep_tiles_part(r, 0, g);
        let a = spec_keep_between(r, 0, g);
        if g + 1 == n {
            let res = a + seq![(spec_offset(r, g), cut)] + seq![(cut, spec_offset(r, g + 1))];
            assert(res == spec_extend_left(r, f));
            assert forall|k: int| 0 <= k < res.len() implies #[trigger] res[k].0 <= res[k].1 by {
                if k < g {
                    assert(res[k] == a[k]);
                }
            }
            assert forall|k: int| 0 <= k < res.len() - 1 implies #[trigger] res[k].1 == res[k + 1].0 by {
                if k < g {
                    assert(res[k] == a[k]);
                    if k + 1 < g {
                        assert(res[k + 1] == a[k + 1]);
                    }
                }
            }
            if g > 0 {
                assert(res[0] == a[0]);
            }
        } else {
            lemma_offset_step(r, g + 1);
            lemma_keep_tiles_part(r, g + 2, n);
            lemma_offset_mono(r, g + 2, n);
            let b = spec_keep_between(r, g + 2, n);
            let res = a + seq![(spec_offset(r, g), cut)] + (seq![(cut, spec_offset(r, g + 2))] + b);
            assert(res == spec_extend_left(r, f));
            assert forall|k: int| 0 <= k < res.len() implies #[trigger] res[k].0 <= res[k].1 by {
                if k < g {
                    assert(res[k] == a[k]);
                } else if k > g + 1 {
                    assert(res[k] == b[k - g - 2]);
                }
            }
            assert forall|k: int| 0 <= k < res.len() - 1 implies #[trigger] res[k].1 == res[k + 1].0 by {
                if k < g {
                    assert(res[k] == a[k]);
                    if k + 1 < g {
                        assert(res[k + 1] == a[k + 1]);
                    }
                } else if k == g + 1 {
                    assert(res[k + 1] == b[0]);
                } else if k > g + 1 {
                    assert(res[k] == b[k - g - 2]);
                    assert(res[k + 1] == b[k - g - 1]);
                }
            }
            if g > 0 {
                assert(res[0] == a[0]);
            }
            if b.len() > 0 {
                assert(res.last() == b.last());
            }
        }
    }
}


/// The segment readings after `extend_left`: the focused segment (clamped to
/// the last one) gives its last character to the start of its right
/// neighbour, or to a new last segment; unchanged when it has at most one
/// character.
pub open spec fn spec_shrink(r: Seq<Seq<char>>, f: int) -> Seq<Seq<char>> {
    let n = r.len() as int;
    if n == 0 {
        r
    } else {
        let g = if f < n - 1 { f } else { n - 1 };
        if r[g].len() <= 1 {
            r
        } else {
            let last = r[g].last();
            let tail = if g + 1 == n {
                seq![seq![last]]
            } else {
                seq![seq![last] + r[g + 1]] + r.skip(g + 2)
            };
            r.take(g) + seq![r[g].drop_last()] + tail
        }
    }
}

/// Offsets agree from `a` to `b` when they agree at `a` and the segments in
/// between are the same.
proof fn lemma_offset_agree(r: Seq<Seq<char>>, s: Seq<Seq<char>>, a: int, b: int)
    requires
        0 <= a <= b,
        b <= r.len(),
        b <= s.len(),
        spec_offset(r, a) == spec_offset(s, a),
        forall|j: int| a <= j < b ==> r[j] == s[j],
    ensures
        forall|i: int| a <= i <= b ==> #[trigger] spec_offset(r, i) == spec_offset(s, i),
    decreases b - a,
{
    if a < b {
        lemma_offset_step(r, a);
        lemma_offset_step(s, a);
        lemma_offset_agree(r, s, a + 1, b);
    }
}

/// The byte length of a one-character sequence is that character's width.
proof fn lemma_byte_len_single(c: char)
    ensures
        spec_byte_len(seq![c]) == spec_char_width(c),
{
    crate::text::lemma_byte_len_push(Seq::<char>::empty(), c);
    assert(Seq::<char>::empty().push(c) =~= seq![c]);
}

/// The offsets of the shrunk readings: equal to the original ones up to the
/// focused segment and from the one after its neighbour on; the focused
/// segment ends one character (of width `w`) earlier.
proof fn lemma_shrink_offsets(r: Seq<Seq<char>>, g: int)
    requires
        0 <= g < r.len(),
        r[g].len() > 1,
    ensures
        ({
            let s = spec_shrink(r, g);
            let w = spec_char_width(r[g].last()) as int;
            &&& forall|i: int| 0 <= i <= g ==> #[trigger] spec_offset(s, i) == spec_offset(r, i)
            &&& spec_offset(s, g + 1) == spec_offset(r, g + 1) - w
            &&& g + 1 == r.len() ==> spec_offset(s, g + 2) == spec_offset(r, g + 1)
            &&& g + 1 < r.len() ==> forall|i: int| g + 2 <= i <= r.len() ==> #[trigger] spec_offset(s, i) == spec_offset(r, i)
        }),
{
    let s = spec_shrink(r, g);
    let n = r.len() as int;
    let last = r[g].last();
    let w = spec_char_width(last) as int;
    assert(forall|j: int| 0 <= j < g ==> s[j] == r[j]);
    lemma_offset_agree(r, s, 0, g);
    lemma_offset_step(s, g);
    lemma_offset_step(r, g);
    assert(s[g] == r[g].drop_last());
    crate::text::lemma_byte_len_push(r[g].drop_last(), last);
    assert(r[g].drop_last().push(last) =~= r[g]);
    lemma_byte_len_single(last);
    if g + 1 == n {
        assert(s.len() == n + 1);
        assert(s[g + 1] == seq![last]);
        lemma_offset_step(s, g + 1);
    } else {
        assert(s.len() == n);
        assert(s[g + 1] == seq![last] + r[g + 1]);
        lemma_offset_step(s, g + 1);
        lemma_offset_step(r, g + 1);
        crate::text::lemma_byte_len_concat(seq![last], r[g + 1]);
        assert(forall|j: int| g + 2 <= j < n ==> s[j] == r[j]);
        lemma_offset_agree(r, s, g + 2, n);
    }
}

/// Law: the boundaries that `extend_left` gives are the boundaries of the
/// shrunk readings [`spec_shrink`]: slicing the whole reading by them gives
/// those readings.
pub proof fn lemma_extend_left_is_shrink(r: Seq<Seq<char>>, f: int)
    requires
        0 <= f,
    ensures
        spec_extend_left(r, f) == spec_keep(spec_shrink(r, f)),
{
    let n = r.len() as int;
    if n == 0 {
        assert(spec_keep(r) =~= Seq::<(int, int)>::empty());
        return;
    }
    let g = if f < n - 1 { f } else { n - 1 };
    if r[g].len() <= 1 {
        return;
    }
    let s = spec_shrink(r, f);
    assert(s == spec_shrink(r, g));
    lemma_shrink_offsets(r, g);
    let w = spec_char_width(r[g].last()) as int;
    let cut = spec_offset(r, g + 1) - w;
    assert(spec_keep_between(s, 0, g) =~= spec_keep_between(r, 0, g));
    if g + 1 == n {
        assert(spec_keep(s) =~= spec_keep_between(s, 0, g) + seq![(spec_offset(s, g), spec_offset(s, g + 1))]
            + seq![(spec_offset(s, g + 1), spec_offset(s, g + 2))]);
        assert(spec_extend_left(r, f) =~= spec_keep(s));
    } else {
        assert(spec_keep_between(s, g + 2, n) =~= spec_keep_between(r, g + 2, n));
        assert(spec_keep(s) =~= spec_keep_between(s, 0, g) + seq![(spec_offset(s, g), spec_offset(s, g + 1))]
            + (seq![(spec_offset(s, g + 1), spec_offset(s, g + 2))] + spec_keep_between(s, g + 2, n)));
        assert(spec_extend_left(r, f) =~= spec_keep(s));
    }
}

/// Law: shrinking the focused segment and then growing it again restores the
/// segments: `extend_right` on the readings that `extend_left` made gives the
/// boundaries of the original readings (when the focused segment has at
/// least two characters and no segment is empty).
pub proof fn lemma_left_then_right_restores(r: Seq<Seq<char>>, f: int)
    requires
        0 <= f < r.len(),
        r[f].len() >= 2,
        forall|i: int| 0 <= i < r.len() ==> #[trigger] r[i].len() > 0,
    ensures
        spec_extend_right(spec_shrink(r, f), f) == spec_keep(r),
{
    let n = r.len() as int;
    let s = spec_shrink(r, f);
    lemma_shrink_offsets(r, f);
    let last = r[f].last();
    assert(s[f + 1][0] == last) by {
        if f + 1 == n {
            assert(s[f + 1] == seq![last]);
        } else {
            assert(s[f + 1] == seq![last] + r[f + 1]);
        }
    }
    assert(spec_keep_between(s, 0, f) =~= spec_keep_between(r, 0, f));
    if f + 1 == n {
        assert(s.len() == n + 1);
        assert(spec_keep_between(s, f + 2, n + 1) =~= Seq::<(int, int)>::empty());
        assert(spec_keep(r) =~= spec_keep_between(r, 0, f) + seq![(spec_offset(r, f), spec_offset(r, f + 1))]);
        assert(spec_extend_right(s, f) =~= spec_keep(r));
    } else {
        assert(s.len() == n);
        lemma_offset_step(r, f + 1);
        crate::text::lemma_byte_len_positive(r[f + 1]);
        assert(spec_keep_between(s, f + 2, n) =~= spec_keep_between(r, f + 2, n));
        assert(spec_keep(r) =~= spec_keep_between(r, 0, f) + seq![(spec_offset(r, f), spec_offset(r, f + 1))]
            + seq![(spec_offset(r, f + 1), spec_offset(r, f + 2))] + spec_keep_between(r, f + 2, n));
        assert(spec_extend_right(s, f) =~= spec_keep(r));
    }
}


/// The segments' readings joined into the whole reading.
pub open spec fn spec_concat(s: Seq<Seq<char>>) -> Seq<char>
    decreases s.len(),
{
    if s.len() == 0 {
        Seq::empty()
    } else {
        spec_concat(s.drop_last()) + s.last()
    }
}

/// The character index at which byte offset `a` of `t` lies (meaningful
/// when `a` falls on a character boundary).
pub open spec fn spec_char_at_byte(t: Seq<char>, a: int) -> int {
    choose|i: int| 0 <= i <= t.len() && spec_byte_len(t.take(i)) == a
}

/// The characters of `t` between byte offsets `a` and `b`, as `&y[a..b]`
/// gives them on a string.
pub open spec fn spec_byte_slice(t: Seq<char>, a: int, b: int) -> Seq<char> {
    t.subrange(spec_char_at_byte(t, a), spec_char_at_byte(t, b))
}

/// The pieces of `t` cut out by byte ranges.
pub open spec fn spec_sliced(t: Seq<char>, ranges: Seq<(int, int)>) -> Seq<Seq<char>> {
    Seq::new(ranges.len(), |k: int| spec_byte_slice(t, ranges[k].0, ranges[k].1))
}

proof fn lemma_concat_take_step(s: Seq<Seq<char>>, i: int)
    requires
        0 <= i < s.len(),
    ensures
        spec_concat(s.take(i + 1)) == spec_concat(s.take(i)) + s[i],
{
    assert(s.take(i + 1).drop_last() =~= s.take(i));
}

proof fn lemma_concat_append(a: Seq<Seq<char>>, b: Seq<Seq<char>>)
    ensures
        spec_concat(a + b) == spec_concat(a) + spec_concat(b),
    decreases b.len(),
{
    if b.len() == 0 {
        assert(a + b =~= a);
        assert(spec_concat(a) + Seq::<char>::empty() =~= spec_concat(a));
    } else {
        assert((a + b).drop_last() =~= a + b.drop_last());
        lemma_concat_append(a, b.drop_last());
        assert(spec_concat(a) + spec_concat(b.drop_last()) + b.last() =~= spec_concat(a) + (spec_concat(b.drop_last()) + b.last()));
    }
}

proof fn lemma_concat_single(x: Seq<char>)
    ensures
        spec_concat(seq![x]) == x,
{
    let one = seq![x];
    assert(one.drop_last() =~= Seq::<Seq<char>>::empty());
    assert(spec_concat(one.drop_last()) == Seq::<char>::empty());
    assert(one.last() == x);
    assert(spec_concat(one) == spec_concat(one.drop_last()) + one.last());
    assert(Seq::<char>::empty() + x =~= x);
}

proof fn lemma_offset_is_concat_len(s: Seq<Seq<char>>, i: int)
    requires
        0 <= i <= s.len(),
    ensures
        spec_offset(s, i) == spec_byte_len(spec_concat(s.take(i))),
    decreases i,
{
    if i == 0 {
        assert(s.take(0) =~= Seq::<Seq<char>>::empty());
    } else {
        lemma_offset_is_concat_len(s, i - 1);
        lemma_concat_take_step(s, i - 1);
        crate::text::lemma_byte_len_concat(spec_concat(s.take(i - 1)), s[i - 1]);
    }
}

proof fn lemma_concat_prefix(s: Seq<Seq<char>>, k: int)
    requires
        0 <= k <= s.len(),
    ensures
        spec_concat(s.take(k)).len() <= spec_concat(s).len(),
        spec_concat(s).take(spec_concat(s.take(k)).len() as int) == spec_concat(s.take(k)),
    decreases s.len() - k,
{
    if k == s.len() {
        assert(s.take(k) =~= s);
        assert(spec_concat(s).take(spec_concat(s).len() as int) =~= spec_concat(s));
    } else {
        lemma_concat_prefix(s, k + 1);
        lemma_concat_take_step(s, k);
        let a = spec_concat(s.take(k));
        let b = spec_concat(s.take(k + 1));
        assert(b.take(a.len() as int) =~= a);
        assert(spec_concat(s).take(a.len() as int) =~= spec_concat(s).take(b.len() as int).take(a.len() as int));
    }
}

proof fn lemma_take_bytes_strict(t: Seq<char>, i: int, j: int)
    requires
        0 <= i < j <= t.len(),
    ensures
        spec_byte_len(t.take(i)) < spec_byte_len(t.take(j)),
    decreases j - i,
{
    assert(t.take(j) =~= t.take(j - 1).push(t[j - 1]));
    crate::text::lemma_byte_len_push(t.take(j - 1), t[j - 1]);
    if i < j - 1 {
        lemma_take_bytes_strict(t, i, j - 1);
    }
}

proof fn lemma_char_at_byte(t: Seq<char>, m: int)
    requires
        0 <= m <= t.len(),
    ensures
        spec_char_at_byte(t, spec_byte_len(t.take(m)) as int) == m,
{
    let a = spec_byte_len(t.take(m)) as int;
    let i = spec_char_at_byte(t, a);
    assert(0 <= i <= t.len() && spec_byte_len(t.take(i)) == a);
    if i < m {
        lemma_take_bytes_strict(t, i, m);
    } else if i > m {
        lemma_take_bytes_strict(t, m, i);
    }
}

/// Law: cutting the whole reading at the current boundaries gives back the
/// segments' readings.
pub proof fn lemma_slice_keep(s: Seq<Seq<char>>)
    ensures
        spec_sliced(spec_concat(s), spec_keep(s)) == s,
{
    let t = spec_concat(s);
    let ks = spec_keep(s);
    assert forall|k: int| 0 <= k < s.len() implies #[trigger] spec_byte_slice(t, ks[k].0, ks[k].1) == s[k] by {
        lemma_concat_prefix(s, k);
        lemma_concat_prefix(s, k + 1);
        lemma_concat_take_step(s, k);
        lemma_offset_is_concat_len(s, k);
        lemma_offset_is_concat_len(s, k + 1);
        let a = spec_concat(s.take(k));
        let b = spec_concat(s.take(k + 1));
        lemma_char_at_byte(t, a.len() as int);
        lemma_char_at_byte(t, b.len() as int);
        assert(t.take(a.len() as int) == a);
        assert(t.take(b.len() as int) == b);
        assert(ks[k] == (spec_offset(s, k), spec_offset(s, k + 1)));
        assert(t.subrange(a.len() as int, b.len() as int) =~= b.subrange(a.len() as int, b.len() as int));
        assert(b.subrange(a.len() as int, b.len() as int) =~= s[k]);
    }
    assert(spec_sliced(t, ks) =~= s);
}

/// The shrunk readings join into the same whole reading.
proof fn lemma_shrink_concat(r: Seq<Seq<char>>, f: int)
    requires
        0 <= f,
    ensures
        spec_concat(spec_shrink(r, f)) == spec_concat(r),
{
    let n = r.len() as int;
    if n == 0 {
        return;
    }
    let g = if f < n - 1 { f } else { n - 1 };
    if r[g].len() <= 1 {
        return;
    }
    let last = r[g].last();
    let x = r[g].drop_last();
    assert(x.push(last) =~= r[g]);
    lemma_concat_single(x);
    lemma_concat_single(r[g]);
    if g + 1 == n {
        let y = seq![last];
        lemma_concat_single(y);
        assert(spec_shrink(r, f) =~= r.take(g) + seq![x] + seq![y]);
        lemma_concat_append(r.take(g) + seq![x], seq![y]);
        lemma_concat_append(r.take(g), seq![x]);
        assert(r =~= r.take(g) + seq![r[g]]);
        lemma_concat_append(r.take(g), seq![r[g]]);
        assert(spec_concat(r.take(g)) + x + y =~= spec_concat(r.take(g)) + r[g]);
    } else {
        let y = seq![last] + r[g + 1];
        let rest = r.skip(g + 2);
        lemma_concat_single(y);
        lemma_concat_single(r[g + 1]);
        assert(spec_shrink(r, f) =~= r.take(g) + seq![x] + (seq![y] + rest));
        lemma_concat_append(r.take(g) + seq![x], seq![y] + rest);
        lemma_concat_append(r.take(g), seq![x]);
        lemma_concat_append(seq![y], rest);
        assert(r =~= r.take(g) + seq![r[g]] + (seq![r[g + 1]] + rest));
        lemma_concat_append(r.take(g) + seq![r[g]], seq![r[g + 1]] + rest);
        lemma_concat_append(r.take(g), seq![r[g]]);
        lemma_concat_append(seq![r[g + 1]], rest);
        assert(spec_concat(r.take(g)) + x + (y + spec_concat(rest))
            =~= spec_concat(r.take(g)) + r[g] + (r[g + 1] + spec_concat(rest)));
    }
}

/// Law: cutting the whole reading by the ranges of `extend_left` (as
/// `&y[range]` does) gives the shrunk readings [`spec_shrink`], which join
/// into the same whole reading.
pub proof fn lemma_extend_left_slices(r: Seq<Seq<char>>, f: int)
    requires
        0 <= f,
    ensures
        spec_sliced(spec_concat(r), spec_extend_left(r, f)) == spec_shrink(r, f),
        spec_concat(spec_shrink(r, f)) == spec_concat(r),
{
    lemma_extend_left_is_shrink(r, f);
    lemma_shrink_concat(r, f);
    lemma_slice_keep(spec_shrink(r, f));
}

/// Law: shrinking the focused segment and growing it again restores the
/// segments, on the strings: cut the whole reading by the ranges of
/// `extend_left`, call `extend_right` on those pieces with the same focus,
/// and cutting the joined pieces by its ranges gives the original readings
/// (when the focused segment has at least two characters and no segment is
/// empty).
pub proof fn lemma_left_then_right_slices(r: Seq<Seq<char>>, f: int)
    requires
        0 <= f < r.len(),
        r[f].len() >= 2,
        forall|i: int| 0 <= i < r.len() ==> #[trigger] r[i].len() > 0,
    ensures
        spec_sliced(spec_concat(r), spec_extend_left(r, f)) == spec_shrink(r, f),
        spec_sliced(spec_concat(spec_shrink(r, f)), spec_extend_right(spec_shrink(r, f), f)) == r,
{
    lemma_extend_left_slices(r, f);
    lemma_left_then_right_restores(r, f);
    lemma_slice_keep(r);
}

} // verus!
