//! The text of the candidate panel: an optional header with the segments of
//! a segmented conversion (the focused one in 【】), the page of candidates
//! that holds the selection (numbered 1 to 9, the selected line marked ▶),
//! and a page indicator when there are several pages, together with the
//! UTF-16 ranges to highlight. Drawing it is the platform's part.

use vstd::prelude::*;
use crate::candidate_window::PAGE_SIZE;
use crate::text::{append_str, chars_of, decimal_string, lemma_utf16_add, push_all, spec_decimal, spec_utf16_len, utf16_count};

verus! {

/// The header line: the segments separated by spaces, the focused one in 【】.
pub open spec fn spec_header_text(segs: Seq<Seq<char>>, focused: int) -> Seq<char>
    decreases segs.len(),
{
    if segs.len() == 0 {
        Seq::empty()
    } else {
        let i = segs.len() - 1;
        spec_header_text(segs.drop_last(), focused) + (if i > 0 { seq![' '] } else { Seq::empty() }) + (if i == focused {
            seq!['【'] + segs[i] + seq!['】']
        } else {
            segs[i]
        })
    }
}

/// `line` after `t`, on a new line when `t` is not empty.
pub open spec fn spec_join_line(t: Seq<char>, line: Seq<char>) -> Seq<char> {
    if t.len() == 0 {
        line
    } else {
        t.push('\n') + line
    }
}

/// Candidate line `j` of a page: the marker (▶ for the selected line), the
/// number `j + 1`, a dot and the candidate.
pub open spec fn spec_candidate_line(j: nat, selected: nat, item: Seq<char>) -> Seq<char> {
    (if j == selected { seq!['▶', ' '] } else { seq![' ', ' '] }) + spec_decimal(j + 1) + seq!['.', ' '] + item
}

/// `t` followed by the first `n` lines of the page starting at `start`.
pub open spec fn spec_with_lines(t: Seq<char>, items: Seq<Seq<char>>, start: nat, selected: nat, n: nat) -> Seq<char>
    decreases n,
{
    if n == 0 {
        t
    } else {
        spec_join_line(spec_with_lines(t, items, start, selected, (n - 1) as nat), spec_candidate_line((n - 1) as nat, selected, items[start + n - 1]))
    }
}

/// The page indicator line.
pub open spec fn spec_page_line(page: nat, pages: nat) -> Seq<char> {
    seq![' ', ' ', ' ', ' '] + spec_decimal(page + 1) + seq![' ', '/', ' '] + spec_decimal(pages)
}

/// Number of pages of nine.
pub open spec fn spec_pages(len: nat) -> nat {
    ((len + 8) / 9) as nat
}

/// The header of a panel, if any: segments and focused index.
pub type HeaderView = Option<(Seq<Seq<char>>, usize)>;

/// The header text (empty without a header).
pub open spec fn spec_header_of(h: HeaderView) -> Seq<char> {
    match h {
        Some(x) => spec_header_text(x.0, x.1 as int),
        None => Seq::empty(),
    }
}

/// First index of the page holding the selection.
pub open spec fn spec_page_start(selected: nat) -> nat {
    ((selected / 9) * 9) as nat
}

/// Number of candidate lines on that page.
pub open spec fn spec_page_lines(len: nat, selected: nat) -> nat {
    let start = spec_page_start(selected);
    if start + 9 < len { 9 } else { (len - start) as nat }
}

/// The text before the page indicator.
pub open spec fn spec_panel_body(h: HeaderView, items: Seq<Seq<char>>, selected: nat) -> Seq<char> {
    let start = spec_page_start(selected);
    spec_with_lines(spec_header_of(h), items, start, (selected - start) as nat, spec_page_lines(items.len(), selected))
}

/// The whole panel text.
pub open spec fn spec_panel_text(h: HeaderView, items: Seq<Seq<char>>, selected: nat) -> Seq<char> {
    let body = spec_panel_body(h, items, selected);
    let pages = spec_pages(items.len());
    if pages > 1 {
        spec_join_line(body, spec_page_line(selected / 9, pages))
    } else {
        body
    }
}

/// The UTF-16 range of the focused segment in the header.
pub open spec fn spec_header_focus(h: HeaderView) -> Option<(nat, nat)> {
    match h {
        Some(x) => if x.1 < x.0.len() {
            let f = x.1 as int;
            let before = spec_header_text(x.0.take(f), f) + (if f > 0 { seq![' '] } else { Seq::empty() });
            Some((spec_utf16_len(before), spec_utf16_len(seq!['【'] + x.0[f] + seq!['】'])))
        } else {
            None
        },
        None => None,
    }
}

/// The UTF-16 range of the selected candidate line.
pub open spec fn spec_selected_line(h: HeaderView, items: Seq<Seq<char>>, selected: nat) -> Option<(nat, nat)> {
    let start = spec_page_start(selected);
    let sel = (selected - start) as nat;
    if sel < spec_page_lines(items.len(), selected) {
        let before = spec_with_lines(spec_header_of(h), items, start, sel, sel);
        let line = spec_candidate_line(sel, sel, items[(start + sel) as int]);
        Some((spec_utf16_len(before) + if before.len() > 0 { 1nat } else { 0nat }, spec_utf16_len(line)))
    } else {
        None
    }
}

/// Number of lines of the panel.
pub open spec fn spec_line_count(h: HeaderView, items: Seq<Seq<char>>, selected: nat) -> nat {
    (if h is Some { 1nat } else { 0nat }) + spec_page_lines(items.len(), selected) + if spec_pages(items.len()) > 1 {
        1nat
    } else {
        0nat
    }
}

/// The laid-out panel.
#[derive(Debug)]
pub struct PanelLayout {
    /// The text to show.
    pub text: String,
    /// UTF-16 `(start, length)` of the focused segment in the header.
    pub header_focus: Option<(usize, usize)>,
    /// UTF-16 `(start, length)` of the selected candidate line.
    pub selected_line: Option<(usize, usize)>,
    /// Number of lines.
    pub line_count: usize,
}

proof fn lemma_utf16_newline()
    ensures
        spec_utf16_len(seq!['\n']) == 1,
{
    assert(seq!['\n'].drop_last() =~= Seq::<char>::empty());
    assert(spec_utf16_len(Seq::<char>::empty()) == 0);
    assert(('\n' as u32) == 10u32);
}

/// Adding lines only appends to the text.
proof fn lemma_with_lines_grows(t: Seq<char>, items: Seq<Seq<char>>, start: nat, selected: nat, m: nat, n: nat)
    requires
        m <= n,
    ensures
        spec_utf16_len(spec_with_lines(t, items, start, selected, m)) <= spec_utf16_len(spec_with_lines(t, items, start, selected, n)),
    decreases n,
{
    if m < n {
        lemma_with_lines_grows(t, items, start, selected, m, (n - 1) as nat);
        let p = spec_with_lines(t, items, start, selected, (n - 1) as nat);
        let l = spec_candidate_line((n - 1) as nat, selected, items[start + n - 1]);
        if p.len() > 0 {
            lemma_utf16_add(p.push('\n'), l);
            lemma_utf16_add(p, seq!['\n']);
            assert(p.push('\n') =~= p + seq!['\n']);
        }
    }
}

proof fn lemma_header_grows(segs: Seq<Seq<char>>, f: int, k: int)
    requires
        0 <= k <= segs.len(),
    ensures
        spec_utf16_len(spec_header_text(segs.take(k), f)) <= spec_utf16_len(spec_header_text(segs, f)),
    decreases segs.len() - k,
{
    if k < segs.len() {
        lemma_header_grows(segs, f, k + 1);
        let s = segs.take(k + 1);
        assert(s.drop_last() =~= segs.take(k));
        let a = spec_header_text(segs.take(k), f);
        let b = (if k > 0 { seq![' '] } else { Seq::<char>::empty() }) + (if k == f {
            seq!['【'] + segs[k] + seq!['】']
        } else {
            segs[k]
        });
        lemma_utf16_add(a, b);
        assert(spec_header_text(s, f) =~= a + b);
    } else {
        assert(segs.take(k) =~= segs);
    }
}


/// The view of an optional header.
pub open spec fn header_view(h: Option<(&[String], usize)>) -> HeaderView {
    match h {
        Some(x) => Some((x.0@.map_values(|s: String| s@), x.1)),
        None => None,
    }
}

/// The view of a list of strings.
pub open spec fn strs_view(v: Seq<String>) -> Seq<Seq<char>> {
    v.map_values(|s: String| s@)
}

/// Appends `piece` to `text`, whose UTF-16 length is `n`, giving the new length.
fn append_counted(text: &mut String, n: usize, piece: &str, Ghost(bound): Ghost<nat>) -> (r: usize)
    requires
        n == spec_utf16_len(old(text)@),
        spec_utf16_len(old(text)@ + piece@) <= bound,
        bound <= usize::MAX,
    ensures
        final(text)@ == old(text)@ + piece@,
        r == spec_utf16_len(final(text)@),
{
    proof {
        lemma_utf16_add(old(text)@, piece@);
    }
    let k = utf16_count(piece);
    append_str(text, piece);
    n + k
}

/// The header line and the UTF-16 range of its focused segment.
fn layout_header(segments: &[String], focused: usize) -> (r: (String, Option<(usize, usize)>))
    requires
        spec_utf16_len(spec_header_text(strs_view(segments@), focused as int)) <= usize::MAX,
    ensures
        r.0@ == spec_header_text(strs_view(segments@), focused as int),
        r.1 == match spec_header_focus(Some((strs_view(segments@), focused))) {
            Some(x) => Some((x.0 as usize, x.1 as usize)),
            None => None::<(usize, usize)>,
        },
{
    let ghost segs = strs_view(segments@);
    let ghost bound = spec_utf16_len(spec_header_text(segs, focused as int));
    let mut combined = String::new();
    let mut cur16: usize = 0;
    let mut header_focus: Option<(usize, usize)> = None;
    let mut i: usize = 0;
    proof {
        assert(segs.take(0) =~= Seq::<Seq<char>>::empty());
    }
    while i < segments.len()
        invariant
            i <= segments.len(),
            segs == strs_view(segments@),
            bound == spec_utf16_len(spec_header_text(segs, focused as int)),
            bound <= usize::MAX,
            combined@ == spec_header_text(segs.take(i as int), focused as int),
            cur16 == spec_utf16_len(combined@),
            header_focus == (if focused < i {
                match spec_header_focus(Some((segs, focused))) {
                    Some(x) => Some((x.0 as usize, x.1 as usize)),
                    None => None::<(usize, usize)>,
                }
            } else {
                None::<(usize, usize)>
            }),
        decreases segments.len() - i,
    {
        let ghost before = combined@;
        let ghost sp = if i > 0 { seq![' '] } else { Seq::<char>::empty() };
        let ghost piece = if i == focused { seq!['【'] + segs[i as int] + seq!['】'] } else { segs[i as int] };
        proof {
            assert(segs.take(i as int + 1).drop_last() =~= segs.take(i as int));
            lemma_header_grows(segs, focused as int, i as int + 1);
            assert(spec_header_text(segs.take(i as int + 1), focused as int) =~= (before + sp) + piece);
            lemma_utf16_add(before + sp, piece);
        }
        if i > 0 {
            proof {
                reveal_strlit(" ");
                assert(combined@ + " "@ =~= before + sp);
                lemma_utf16_add(before, sp);
            }
            cur16 = append_counted(&mut combined, cur16, " ", Ghost(bound));
        }
        proof {
            assert(combined@ =~= before + sp);
        }
        let start = cur16;
        if i == focused {
            let ghost mid = combined@;
            let mut p = String::new();
            p.push('【');
            push_all(&mut p, &segments[i]);
            p.push('】');
            proof {
                assert(p@ =~= piece);
            }
            cur16 = append_counted(&mut combined, cur16, p.as_str(), Ghost(bound));
            proof {
                lemma_utf16_add(mid, piece);
                assert(segs.take(i as int) =~= segs.take(focused as int));
            }
            header_focus = Some((start, cur16 - start));
        } else {
            cur16 = append_counted(&mut combined, cur16, segments[i].as_str(), Ghost(bound));
        }
        proof {
            assert(combined@ =~= spec_header_text(segs.take(i as int + 1), focused as int));
        }
        i = i + 1;
    }
    proof {
        assert(segs.take(i as int) =~= segs);
    }
    (combined, header_focus)
}

/// Appends the candidate lines `0..n` of the page starting at `start`, and
/// gives the UTF-16 range of line `sel` when it is one of them.
fn append_page_lines(
    combined: &mut String,
    cur: usize,
    items: &[String],
    start: usize,
    sel: usize,
    n: usize,
) -> (r: (usize, Option<(usize, usize)>))
    requires
        start + n <= items@.len(),
        cur == spec_utf16_len(old(combined)@),
        spec_utf16_len(spec_with_lines(old(combined)@, strs_view(items@), start as nat, sel as nat, n as nat)) <= usize::MAX,
        n <= 9,
    ensures
        final(combined)@ == spec_with_lines(old(combined)@, strs_view(items@), start as nat, sel as nat, n as nat),
        r.0 == spec_utf16_len(final(combined)@),
        r.1 == (if sel < n {
            let before = spec_with_lines(old(combined)@, strs_view(items@), start as nat, sel as nat, sel as nat);
            Some(((spec_utf16_len(before) + if before.len() > 0 { 1nat } else { 0nat }) as usize,
                spec_utf16_len(spec_candidate_line(sel as nat, sel as nat, strs_view(items@)[start + sel])) as usize))
        } else {
            None::<(usize, usize)>
        }),
{
    let ghost t = old(combined)@;
    let ghost iv = strs_view(items@);
    let ghost bound = spec_utf16_len(spec_with_lines(t, iv, start as nat, sel as nat, n as nat));
    let mut cur16 = cur;
    let mut selected_line: Option<(usize, usize)> = None;
    let mut j: usize = 0;
    while j < n
        invariant
            j <= n,
            n <= 9,
            start + n <= items@.len(),
            start + n <= items.len(),
            iv == strs_view(items@),
            bound == spec_utf16_len(spec_with_lines(t, iv, start as nat, sel as nat, n as nat)),
            bound <= usize::MAX,
            combined@ == spec_with_lines(t, iv, start as nat, sel as nat, j as nat),
            cur16 == spec_utf16_len(combined@),
            selected_line == (if sel < j {
                let before = spec_with_lines(t, iv, start as nat, sel as nat, sel as nat);
                Some(((spec_utf16_len(before) + if before.len() > 0 { 1nat } else { 0nat }) as usize,
                    spec_utf16_len(spec_candidate_line(sel as nat, sel as nat, iv[start + sel])) as usize))
            } else {
                None::<(usize, usize)>
            }),
        decreases n - j,
    {
        let ghost before = combined@;
        let ghost line = spec_candidate_line(j as nat, sel as nat, iv[(start + j) as int]);
        proof {
            lemma_with_lines_grows(t, iv, start as nat, sel as nat, j as nat + 1, n as nat);
            assert(spec_with_lines(t, iv, start as nat, sel as nat, j as nat + 1) == spec_join_line(before, line));
            if before.len() > 0 {
                assert(spec_join_line(before, line) =~= (before + seq!['\n']) + line);
                lemma_utf16_add(before + seq!['\n'], line);
            }
        }
        if !combined.as_str().is_empty() {
            proof {
                reveal_strlit("\n");
                assert(combined@ + "\n"@ =~= before + seq!['\n']);
                lemma_utf16_add(before, seq!['\n']);
            }
            cur16 = append_counted(combined, cur16, "\n", Ghost(bound));
        }
        let ghost mid = combined@;
        proof {
            if before.len() > 0 {
                assert(mid =~= before + seq!['\n']);
                lemma_utf16_add(before, seq!['\n']);
                lemma_utf16_newline();
            } else {
                assert(mid =~= before);
            }
            assert(spec_join_line(before, line) =~= mid + line);
            lemma_utf16_add(mid, line);
        }
        let line_start = cur16;
        let mut l = String::new();
        if j == sel {
            append_str(&mut l, "▶ ");
        } else {
            append_str(&mut l, "  ");
        }
        let num = decimal_string((j as u64) + 1);
        push_all(&mut l, &num);
        append_str(&mut l, ". ");
        push_all(&mut l, &items[start + j]);
        proof {
            reveal_strlit("▶ ");
            reveal_strlit("  ");
            reveal_strlit(". ");
            assert(l@ =~= line);
        }
        cur16 = append_counted(combined, cur16, l.as_str(), Ghost(bound));
        if j == sel {
            selected_line = Some((line_start, cur16 - line_start));
        }
        j = j + 1;
    }
    (cur16, selected_line)
}

/// The header is no longer than the body, the body no longer than the text.
proof fn lemma_panel_prefixes(hv: HeaderView, iv: Seq<Seq<char>>, selected: nat)
    ensures
        spec_utf16_len(spec_header_of(hv)) <= spec_utf16_len(spec_panel_body(hv, iv, selected)),
        spec_utf16_len(spec_panel_body(hv, iv, selected)) <= spec_utf16_len(spec_panel_text(hv, iv, selected)),
{
    let body = spec_panel_body(hv, iv, selected);
    let pages = spec_pages(iv.len());
    if pages > 1 {
        let pl = spec_page_line(selected / 9, pages);
        if body.len() > 0 {
            assert(spec_join_line(body, pl) =~= (body + seq!['\n']) + pl);
            lemma_utf16_add(body + seq!['\n'], pl);
            lemma_utf16_add(body, seq!['\n']);
        } else {
            lemma_utf16_add(body, pl);
            assert(body + pl =~= pl);
        }
    }
    let start = spec_page_start(selected);
    lemma_with_lines_grows(spec_header_of(hv), iv, start, (selected - start) as nat, 0, spec_page_lines(iv.len(), selected));
}

/// Lays out the candidate panel for the page holding `selected`.
#[verifier::spinoff_prover]
#[verifier::rlimit(60)]
pub fn panel_layout(header: Option<(&[String], usize)>, items: &[String], selected: usize) -> (r: PanelLayout)
    requires
        spec_page_start(selected as nat) <= items@.len(),
        spec_utf16_len(spec_panel_text(header_view(header), strs_view(items@), selected as nat)) <= usize::MAX,
    ensures
        r.text@ == spec_panel_text(header_view(header), strs_view(items@), selected as nat),
        r.header_focus == match spec_header_focus(header_view(header)) {
            Some(x) => Some((x.0 as usize, x.1 as usize)),
            None => None::<(usize, usize)>,
        },
        r.selected_line == match spec_selected_line(header_view(header), strs_view(items@), selected as nat) {
            Some(x) => Some((x.0 as usize, x.1 as usize)),
            None => None::<(usize, usize)>,
        },
        r.line_count == spec_line_count(header_view(header), strs_view(items@), selected as nat),
{
    let ghost hv = header_view(header);
    let ghost iv = strs_view(items@);
    let ghost total = spec_panel_text(hv, iv, selected as nat);
    let ghost start_n = spec_page_start(selected as nat);
    let ghost sel_n = (selected as nat - start_n) as nat;
    let ghost nlines = spec_page_lines(iv.len(), selected as nat);
    let ghost body = spec_panel_body(hv, iv, selected as nat);
    let pages = items.len() / PAGE_SIZE + if items.len() % PAGE_SIZE != 0 { 1 } else { 0 };
    proof {
        assert(pages == spec_pages(iv.len())) by (nonlinear_arith)
            requires pages == iv.len() / 9 + (if iv.len() % 9 != 0 { 1int } else { 0int });
        lemma_panel_prefixes(hv, iv, selected as nat);
    }
    // 1. header
    let (mut combined, header_focus, mut line_count) = match header {
        Some(h) => {
            let (t, f) = layout_header(h.0, h.1);
            (t, f, 1usize)
        },
        None => (String::new(), None, 0usize),
    };
    let cur16 = utf16_count(combined.as_str());
    // 2. the page holding the selection
    let page = selected / PAGE_SIZE;
    let page_start = page * PAGE_SIZE;
    let n = if items.len() - page_start <= PAGE_SIZE { items.len() - page_start } else { PAGE_SIZE };
    proof {
        assert(page_start == start_n);
        assert(n == nlines);
    }
    let (_end16, selected_line) = append_page_lines(&mut combined, cur16, items, page_start, selected - page_start, n);
    line_count = line_count + n;
    // 3. page indicator
    if pages > 1 {
        if !combined.as_str().is_empty() {
            combined.push('\n');
        }
        append_str(&mut combined, "    ");
        let a = decimal_string((page as u64) + 1);
        push_all(&mut combined, &a);
        append_str(&mut combined, " / ");
        let b = decimal_string(pages as u64);
        push_all(&mut combined, &b);
        proof {
            reveal_strlit("    ");
            reveal_strlit(" / ");
        }
        line_count = line_count + 1;
    }
    proof {
        assert(combined@ =~= total);
    }
    PanelLayout { text: combined, header_focus, selected_line, line_count }
}

} // verus!
