//! Text layout for the board: word wrapping of form fields, cursor
//! placement in wrapped text, and shortening of titles and paths.
use vstd::prelude::*;
use crate::text::{chars_of, len_utf8, is_whitespace, string_of, char_width, utf8_len, is_ws,
    lemma_utf8_len_step, lemma_utf8_len_prefix, lemma_char_width, lemma_utf8_len_grows};

verus! {

// ---------------------------------------------------------------------------
// Word wrapping
// ---------------------------------------------------------------------------

/// The state of the wrapping pass after some prefix of the text: the lines
/// already finished (each with the byte offset at which it starts), the line
/// being filled, its start offset, and the last whitespace on it (byte offset
/// in the text, character index in the line).
pub struct WrapState {
    pub lines: Seq<(Seq<char>, int)>,
    pub line: Seq<char>,
    pub start: int,
    pub last_ws: Option<(int, int)>,
}

pub open spec fn wrap_init() -> WrapState {
    WrapState { lines: seq![], line: seq![], start: 0, last_ws: None }
}

/// Close a full line: at its last whitespace (which is dropped, the next
/// line starting after it) where it has one, else right where the next
/// character would go.
pub open spec fn wrap_break(st: WrapState, byte_idx: int) -> WrapState {
    match st.last_ws {
        Some(ws) => WrapState {
            lines: st.lines.push((st.line.take(ws.1), st.start)),
            line: st.line.skip(ws.1 + 1),
            start: ws.0 + char_width(st.line[ws.1]),
            last_ws: None,
        },
        None => WrapState {
            lines: st.lines.push((st.line, st.start)),
            line: seq![],
            start: byte_idx,
            last_ws: None,
        },
    }
}

/// One character of the text, found at byte offset `byte_idx`.
pub open spec fn wrap_step(st: WrapState, byte_idx: int, ch: char, width: nat) -> WrapState {
    if ch == '\n' {
        WrapState {
            lines: st.lines.push((st.line, st.start)),
            line: seq![],
            start: byte_idx + char_width(ch),
            last_ws: None,
        }
    } else {
        let b = if st.line.len() == width {
            wrap_break(st, byte_idx)
        } else {
            st
        };
        WrapState {
            lines: b.lines,
            line: b.line.push(ch),
            start: b.start,
            last_ws: if is_ws(ch) {
                Some((byte_idx, b.line.len() as int))
            } else {
                b.last_ws
            },
        }
    }
}

/// The wrapping pass over a whole text.
pub open spec fn wrap_fold(text: Seq<char>, width: nat) -> WrapState
    decreases text.len(),
{
    if text.len() == 0 {
        wrap_init()
    } else {
        let pre = text.drop_last();
        wrap_step(wrap_fold(pre, width), utf8_len(pre) as int, text.last(), width)
    }
}

/// The lines of a text wrapped to `width` columns, each with the byte offset
/// in the text at which it starts. A width of zero leaves the text whole.
pub open spec fn wrapped(text: Seq<char>, width: nat) -> Seq<(Seq<char>, int)> {
    if width == 0 {
        seq![(text, 0)]
    } else {
        let st = wrap_fold(text, width);
        st.lines.push((st.line, st.start))
    }
}

/// Wrapped lines as plain values.
pub open spec fn lines_view(v: Seq<(String, usize)>) -> Seq<(Seq<char>, int)> {
    v.map_values(|p: (String, usize)| (p.0@, p.1 as int))
}

fn copy_range(v: &Vec<char>, lo: usize, hi: usize) -> (r: Vec<char>)
    requires
        lo <= hi <= v.len(),
    ensures
        r@ == v@.subrange(lo as int, hi as int),
{
    let mut out: Vec<char> = Vec::new();
    let mut i: usize = lo;
    while i < hi
        invariant
            lo <= i <= hi <= v.len(),
            out@ =~= v@.subrange(lo as int, i as int),
        decreases hi - i,
    {
        out.push(v[i]);
        i = i + 1;
    }
    out
}

/// Wrap text to `width` columns, breaking at explicit newlines, at the last
/// whitespace of a full line where it has one, and inside words longer than
/// a line. Each line comes with the byte offset at which it starts.
pub fn wrap_text(text: &str, width: usize) -> (r: Vec<(String, usize)>)
    ensures
        lines_view(r@) == wrapped(text@, width as nat),
{
    let mut lines: Vec<(String, usize)> = Vec::new();
    if width == 0 {
        lines.push((text.to_string(), 0));
        proof {
            assert(lines_view(lines@) =~= wrapped(text@, width as nat));
        }
        return lines;
    }
    let cs = chars_of(text);
    let total: usize = text.as_bytes().len();
    let ghost w = width as nat;
    let mut line: Vec<char> = Vec::new();
    let mut start: usize = 0;
    let mut last_ws: Option<(usize, usize)> = None;
    let mut byte_idx: usize = 0;
    let mut i: usize = 0;
    while i < cs.len()
        invariant
            width > 0,
            w == width as nat,
            cs@ == text@,
            total == utf8_len(text@),
            0 <= i <= cs.len(),
            byte_idx == utf8_len(cs@.take(i as int)),
            line@.len() <= width,
            match last_ws {
                Some(p) => p.1 < line@.len() && p.0 + char_width(line@[p.1 as int]) <= byte_idx,
                None => true,
            },
            ({
                let st = wrap_fold(cs@.take(i as int), w);
                &&& lines_view(lines@) == st.lines
                &&& line@ == st.line
                &&& start as int == st.start
                &&& st.last_ws == match last_ws {
                    Some(p) => Some((p.0 as int, p.1 as int)),
                    None => None::<(int, int)>,
                }
            }),
        decreases cs.len() - i,
    {
        let ch = cs[i];
        let ghost pre = cs@.take(i as int);
        let ghost st = wrap_fold(pre, w);
        proof {
            assert(cs@.take(i + 1).drop_last() =~= pre);
            assert(cs@.take(i + 1).last() == ch);
            lemma_utf8_len_step(cs@, i as int);
            lemma_utf8_len_prefix(cs@, i + 1);
            assert(cs@.take(cs@.len() as int) =~= cs@);
            lemma_char_width(ch);
        }
        let cw = len_utf8(ch);
        if ch == '\n' {
            let s = string_of(&line);
            lines.push((s, start));
            line = Vec::new();
            start = byte_idx + cw;
            last_ws = None;
            proof {
                assert(lines_view(lines@) =~= st.lines.push((st.line, st.start)));
                assert(line@ =~= Seq::<char>::empty());
            }
        } else {
            if line.len() == width {
                match last_ws {
                    Some(p) => {
                        let (ws_byte, ws_idx) = p;
                        let ws_width = len_utf8(line[ws_idx]);
                        let head = copy_range(&line, 0, ws_idx);
                        let carry = copy_range(&line, ws_idx + 1, line.len());
                        let s = string_of(&head);
                        lines.push((s, start));
                        proof {
                            assert(head@ =~= st.line.take(ws_idx as int));
                            assert(carry@ =~= st.line.skip(ws_idx + 1));
                            assert(lines_view(lines@) =~= st.lines.push(
                                (st.line.take(ws_idx as int), st.start),
                            ));
                        }
                        line = carry;
                        start = ws_byte + ws_width;
                        last_ws = None;
                    },
                    None => {
                        let s = string_of(&line);
                        lines.push((s, start));
                        proof {
                            assert(lines_view(lines@) =~= st.lines.push((st.line, st.start)));
                        }
                        line = Vec::new();
                        start = byte_idx;
                        last_ws = None;
                        proof {
                            assert(line@ =~= Seq::<char>::empty());
                        }
                    },
                }
            }
            if is_whitespace(ch) {
                last_ws = Some((byte_idx, line.len()));
            }
            line.push(ch);
        }
        byte_idx = byte_idx + cw;
        i = i + 1;
    }
    proof {
        assert(cs@.take(i as int) =~= text@);
    }
    let s = string_of(&line);
    lines.push((s, start));
    proof {
        let st = wrap_fold(text@, w);
        assert(lines_view(lines@) =~= st.lines.push((st.line, st.start)));
    }
    lines
}

/// What holds of the wrapping pass at every step.
pub open spec fn fits(st: WrapState, width: nat) -> bool {
    &&& forall|j: int| 0 <= j < st.lines.len() ==> (#[trigger] st.lines[j]).0.len() <= width
    &&& st.line.len() <= width
    &&& match st.last_ws {
        Some(ws) => 0 <= ws.1 < st.line.len(),
        None => true,
    }
}

proof fn lemma_wrap_fold_fits(text: Seq<char>, width: nat)
    requires
        width > 0,
    ensures
        fits(wrap_fold(text, width), width),
    decreases text.len(),
{
    if text.len() > 0 {
        lemma_wrap_fold_fits(text.drop_last(), width);
    }
}

/// No wrapped line is wider than the width asked for.
pub proof fn law_wrapped_lines_fit(text: Seq<char>, width: nat)
    requires
        width > 0,
    ensures
        forall|j: int|
            0 <= j < wrapped(text, width).len() ==> (#[trigger] wrapped(text, width)[j]).0.len()
                <= width,
{
    lemma_wrap_fold_fits(text, width);
}

/// Where a wrapped line stands in the text: its offset falls between two
/// characters, and the text there begins with the line.
pub open spec fn placed(text: Seq<char>, line: (Seq<char>, int)) -> bool {
    exists|k: int|
        0 <= k && k + line.0.len() <= text.len() && line.1 == utf8_len(text.take(k)) && #[trigger] text.subrange(
            k,
            k + line.0.len(),
        ) == line.0
}

/// What holds of the wrapping pass after the prefix `p` of the text: the
/// line being filled is the tail of `p` and starts where its offset says,
/// the last whitespace is where its offset says, every finished line stands
/// in `p`, and the offsets increase.
pub open spec fn wrap_inv(st: WrapState, p: Seq<char>) -> bool {
    let k0 = p.len() - st.line.len();
    &&& 0 <= k0
    &&& st.start == utf8_len(p.take(k0))
    &&& st.line == p.subrange(k0, p.len() as int)
    &&& match st.last_ws {
        Some(ws) => 0 <= ws.1 < st.line.len() && ws.0 == utf8_len(p.take(k0 + ws.1)) && is_ws(st.line[ws.1]),
        None => true,
    }
    &&& forall|i: int| 0 <= i < st.lines.len() ==> placed(p, #[trigger] st.lines[i])
    &&& forall|i: int, j: int| 0 <= i < j < st.lines.len() ==> #[trigger] st.lines[i].1 < #[trigger] st.lines[j].1
    &&& forall|i: int| 0 <= i < st.lines.len() ==> #[trigger] st.lines[i].1 < st.start
}

proof fn lemma_placed_extend(p: Seq<char>, c: char, l: (Seq<char>, int))
    requires
        placed(p, l),
    ensures
        placed(p.push(c), l),
{
    let k = choose|k: int|
        0 <= k && k + l.0.len() <= p.len() && l.1 == utf8_len(p.take(k)) && #[trigger] p.subrange(k, k + l.0.len())
            == l.0;
    let q = p.push(c);
    assert(q.take(k) =~= p.take(k));
    assert(q.subrange(k, k + l.0.len()) =~= p.subrange(k, k + l.0.len()));
}

proof fn lemma_placed_at(p: Seq<char>, k: int, l: (Seq<char>, int))
    requires
        0 <= k,
        k + l.0.len() <= p.len(),
        l.1 == utf8_len(p.take(k)),
        p.subrange(k, k + l.0.len()) == l.0,
    ensures
        placed(p, l),
{
}

proof fn lemma_lines_push(
    lines: Seq<(Seq<char>, int)>,
    p: Seq<char>,
    l: (Seq<char>, int),
    bound: int,
    new_bound: int,
)
    requires
        forall|i: int| 0 <= i < lines.len() ==> placed(p, #[trigger] lines[i]),
        forall|i: int, j: int| 0 <= i < j < lines.len() ==> #[trigger] lines[i].1 < #[trigger] lines[j].1,
        forall|i: int| 0 <= i < lines.len() ==> #[trigger] lines[i].1 < bound,
        placed(p, l),
        l.1 == bound,
        bound < new_bound,
    ensures
        forall|i: int| 0 <= i < lines.push(l).len() ==> placed(p, #[trigger] lines.push(l)[i]),
        forall|i: int, j: int| 0 <= i < j < lines.push(l).len() ==> #[trigger] lines.push(l)[i].1 < #[trigger] lines.push(l)[j].1,
        forall|i: int| 0 <= i < lines.push(l).len() ==> #[trigger] lines.push(l)[i].1 < new_bound,
{
    let q = lines.push(l);
    assert forall|i: int| 0 <= i < q.len() implies placed(p, #[trigger] q[i]) by {
        if i < lines.len() {
            assert(q[i] == lines[i]);
        }
    }
    assert forall|i: int, j: int| 0 <= i < j < q.len() implies #[trigger] q[i].1 < #[trigger] q[j].1 by {
        assert(q[i] == lines[i]);
        if j < lines.len() {
            assert(q[j] == lines[j]);
        }
    }
    assert forall|i: int| 0 <= i < q.len() implies #[trigger] q[i].1 < new_bound by {
        if i < lines.len() {
            assert(q[i] == lines[i]);
        }
    }
}

proof fn lemma_lines_extend(lines: Seq<(Seq<char>, int)>, p: Seq<char>, c: char)
    requires
        forall|i: int| 0 <= i < lines.len() ==> placed(p, #[trigger] lines[i]),
    ensures
        forall|i: int| 0 <= i < lines.len() ==> placed(p.push(c), #[trigger] lines[i]),
{
    assert forall|i: int| 0 <= i < lines.len() implies placed(p.push(c), #[trigger] lines[i]) by {
        lemma_placed_extend(p, c, lines[i]);
    }
}

#[verifier::rlimit(60)]
proof fn lemma_wrap_inv(text: Seq<char>, width: nat)
    requires
        width > 0,
    ensures
        wrap_inv(wrap_fold(text, width), text),
    decreases text.len(),
{
    if text.len() == 0 {
        assert(text.take(0) =~= Seq::<char>::empty());
        assert(text.subrange(0, 0) =~= Seq::<char>::empty());
    } else {
        let pre = text.drop_last();
        let n = text.len() as int;
        let ch = text.last();
        lemma_wrap_inv(pre, width);
        let st = wrap_fold(pre, width);
        let bi = utf8_len(pre) as int;
        let k0 = pre.len() - st.line.len();
        lemma_wrap_fold_fits(pre, width);
        assert(text.take(n - 1) =~= pre);
        assert(text.take(n) =~= text);
        lemma_utf8_len_step(text, n - 1);
        lemma_char_width(ch);
        assert(pre.take(pre.len() as int) =~= pre);
        lemma_utf8_len_grows(pre, k0, pre.len() as int);
        lemma_lines_extend(st.lines, pre, ch);
        assert(pre.push(ch) =~= text);
        assert(text.take(k0) =~= pre.take(k0));
        lemma_placed_at(pre, k0, (st.line, st.start));
        lemma_placed_extend(pre, ch, (st.line, st.start));
        if ch == '\n' {
            lemma_lines_push(st.lines, text, (st.line, st.start), st.start, bi + char_width(ch));
            assert(text.subrange(n, n) =~= Seq::<char>::empty());
        } else {
            let b = if st.line.len() == width {
                wrap_break(st, bi)
            } else {
                st
            };
            let kb = pre.len() - b.line.len();
            if st.line.len() == width {
                match st.last_ws {
                    Some(ws) => {
                        let j = ws.1;
                        let head = st.line.take(j);
                        assert(pre.subrange(k0, k0 + j) =~= head);
                        lemma_placed_at(pre, k0, (head, st.start));
                        lemma_placed_extend(pre, ch, (head, st.start));
                        assert(st.line[j] == pre[k0 + j]);
                        lemma_utf8_len_step(pre, k0 + j);
                        lemma_utf8_len_grows(pre, k0, k0 + j);
                        lemma_lines_push(st.lines, text, (head, st.start), st.start, b.start);
                        assert(b.line =~= pre.subrange(k0 + j + 1, pre.len() as int));
                        assert(kb == k0 + j + 1);
                    },
                    None => {
                        lemma_utf8_len_grows(pre, k0, pre.len() as int);
                        lemma_lines_push(st.lines, text, (st.line, st.start), st.start, bi);
                        assert(b.line =~= Seq::<char>::empty());
                    },
                }
            }
            assert(text.take(kb) =~= pre.take(kb));
            assert(b.line.push(ch) =~= text.subrange(kb, n));
            match b.last_ws {
                Some(ws) => {
                    assert(text.take(kb + ws.1) =~= pre.take(kb + ws.1));
                },
                None => {},
            }
        }
    }
}

/// Wrapped lines stand in the text: each starts at a byte offset that falls
/// between two characters, the text there begins with the line, and the
/// offsets increase from line to line.
pub proof fn law_wrapped_lines_stand_in_the_text(text: Seq<char>, width: nat)
    requires
        width > 0,
    ensures
        forall|i: int| 0 <= i < wrapped(text, width).len() ==> placed(text, #[trigger] wrapped(text, width)[i]),
        forall|i: int, j: int|
            0 <= i < j < wrapped(text, width).len() ==> #[trigger] wrapped(text, width)[i].1 < #[trigger] wrapped(
                text,
                width,
            )[j].1,
{
    lemma_wrap_inv(text, width);
    let st = wrap_fold(text, width);
    let k0 = text.len() - st.line.len();
    lemma_placed_at(text, k0, (st.line, st.start));
    lemma_lines_push(st.lines, text, (st.line, st.start), st.start, st.start + 1);
}

/// The character positions at which the finished lines of the wrapping pass
/// start.
spec fn wrap_starts(text: Seq<char>, width: nat) -> Seq<int>
    decreases text.len(),
{
    if text.len() == 0 {
        seq![]
    } else {
        let pre = text.drop_last();
        let st = wrap_fold(pre, width);
        let ks = wrap_starts(pre, width);
        let k0 = pre.len() - st.line.len();
        if text.last() == '\n' || st.line.len() == width {
            ks.push(k0)
        } else {
            ks
        }
    }
}

/// Lines `l` starting at character positions `k` lie in `p` in order, from
/// its start, with only whitespace between one line and the next.
#[verifier::opaque]
spec fn tiles(p: Seq<char>, l: Seq<(Seq<char>, int)>, k: Seq<int>) -> bool {
    &&& l.len() == k.len()
    &&& forall|i: int|
        0 <= i < l.len() ==> 0 <= #[trigger] k[i] && k[i] + l[i].0.len() <= p.len() && l[i].1 == utf8_len(
            p.take(k[i]),
        ) && p.subrange(k[i], k[i] + l[i].0.len()) == l[i].0
    &&& l.len() > 0 ==> k[0] == 0
    &&& forall|i: int| 0 <= i < l.len() - 1 ==> #[trigger] k[i] + l[i].0.len() <= k[i + 1]
    &&& forall|i: int, m: int| 0 <= i < l.len() - 1 && #[trigger] k[i] + l[i].0.len() <= m < k[i + 1] ==> is_ws(
        #[trigger] p[m],
    )
}

proof fn lemma_tiles_extend(p: Seq<char>, c: char, l: Seq<(Seq<char>, int)>, k: Seq<int>)
    requires
        tiles(p, l, k),
    ensures
        tiles(p.push(c), l, k),
{
    reveal(tiles);
    let q = p.push(c);
    assert forall|i: int| 0 <= i < l.len() implies 0 <= #[trigger] k[i] && k[i] + l[i].0.len() <= q.len() && l[i].1
        == utf8_len(q.take(k[i])) && q.subrange(k[i], k[i] + l[i].0.len()) == l[i].0 by {
        assert(q.take(k[i]) =~= p.take(k[i]));
        assert(q.subrange(k[i], k[i] + l[i].0.len()) =~= p.subrange(k[i], k[i] + l[i].0.len()));
    }
    assert forall|i: int, m: int| 0 <= i < l.len() - 1 && #[trigger] k[i] + l[i].0.len() <= m < k[i + 1] implies is_ws(
        #[trigger] q[m],
    ) by {
        assert(q[m] == p[m]);
    }
}

/// Replace the last line by another at the same place.
proof fn lemma_tiles_set_last(p: Seq<char>, l: Seq<(Seq<char>, int)>, k: Seq<int>, x: (Seq<char>, int))
    requires
        tiles(p, l, k),
        l.len() > 0,
        k.last() + x.0.len() <= p.len(),
        x.1 == utf8_len(p.take(k.last())),
        p.subrange(k.last(), k.last() + x.0.len()) == x.0,
    ensures
        tiles(p, l.drop_last().push(x), k),
{
    reveal(tiles);
    let l2 = l.drop_last().push(x);
    let n = l.len() - 1;
    assert forall|i: int| 0 <= i < l2.len() implies 0 <= #[trigger] k[i] && k[i] + l2[i].0.len() <= p.len() && l2[i].1
        == utf8_len(p.take(k[i])) && p.subrange(k[i], k[i] + l2[i].0.len()) == l2[i].0 by {
        if i < n {
            assert(l2[i] == l[i]);
        }
    }
    assert forall|i: int| 0 <= i < l2.len() - 1 implies #[trigger] k[i] + l2[i].0.len() <= k[i + 1] by {
        assert(l2[i] == l[i]);
    }
    assert forall|i: int, m: int| 0 <= i < l2.len() - 1 && #[trigger] k[i] + l2[i].0.len() <= m < k[i + 1] implies is_ws(
        #[trigger] p[m],
    ) by {
        assert(l2[i] == l[i]);
    }
}

/// Add a line after the last one, with only whitespace in between.
proof fn lemma_tiles_push(p: Seq<char>, l: Seq<(Seq<char>, int)>, k: Seq<int>, x: (Seq<char>, int), kx: int)
    requires
        tiles(p, l, k),
        l.len() > 0,
        k.last() + l.last().0.len() <= kx,
        forall|m: int| k.last() + l.last().0.len() <= m < kx ==> is_ws(#[trigger] p[m]),
        kx + x.0.len() <= p.len(),
        x.1 == utf8_len(p.take(kx)),
        p.subrange(kx, kx + x.0.len()) == x.0,
    ensures
        tiles(p, l.push(x), k.push(kx)),
{
    reveal(tiles);
    let l2 = l.push(x);
    let k2 = k.push(kx);
    let n = l.len();
    assert forall|i: int| 0 <= i < l2.len() implies 0 <= #[trigger] k2[i] && k2[i] + l2[i].0.len() <= p.len()
        && l2[i].1 == utf8_len(p.take(k2[i])) && p.subrange(k2[i], k2[i] + l2[i].0.len()) == l2[i].0 by {
        if i < n {
            assert(l2[i] == l[i] && k2[i] == k[i]);
        }
    }
    assert forall|i: int| 0 <= i < l2.len() - 1 implies #[trigger] k2[i] + l2[i].0.len() <= k2[i + 1] by {
        assert(l2[i] == l[i] && k2[i] == k[i]);
        if i + 1 < n {
            assert(k2[i + 1] == k[i + 1]);
        }
    }
    assert forall|i: int, m: int| 0 <= i < l2.len() - 1 && #[trigger] k2[i] + l2[i].0.len() <= m < k2[i + 1] implies is_ws(
        #[trigger] p[m],
    ) by {
        assert(l2[i] == l[i] && k2[i] == k[i]);
        if i + 1 < n {
            assert(k2[i + 1] == k[i + 1]);
            assert(k[i] + l[i].0.len() <= m < k[i + 1]);
        }
    }
    if n > 0 {
        assert(k2[0] == k[0]);
    }
}

/// What the wrapping pass has tiled after the prefix `p`.
spec fn tiled(p: Seq<char>, width: nat) -> bool {
    let st = wrap_fold(p, width);
    let k0 = p.len() - st.line.len();
    &&& tiles(p, st.lines.push((st.line, st.start)), wrap_starts(p, width).push(k0))
    &&& wrap_starts(p, width).len() == st.lines.len()
}

/// The facts every case of a step starts from.
proof fn lemma_step_setup(text: Seq<char>, width: nat)
    requires
        width > 0,
        text.len() > 0,
        tiled(text.drop_last(), width),
    ensures
        ({
            let pre = text.drop_last();
            let st = wrap_fold(pre, width);
            let k0 = pre.len() - st.line.len();
            let l = st.lines.push((st.line, st.start));
            let kk = wrap_starts(pre, width).push(k0);
            &&& tiles(text, l, kk)
            &&& text.take(k0) == pre.take(k0)
            &&& text.take(text.len() - 1) == pre
            &&& text[text.len() - 1] == text.last()
            &&& utf8_len(text) == utf8_len(pre) + char_width(text.last())
            &&& l.drop_last() == st.lines
            &&& l.last() == (st.line, st.start)
            &&& kk.last() == k0
            &&& 0 <= k0
            &&& st.start == utf8_len(pre.take(k0))
            &&& st.line == pre.subrange(k0, pre.len() as int)
        }),
{
    let pre = text.drop_last();
    let n = text.len() as int;
    let ch = text.last();
    lemma_wrap_inv(pre, width);
    let st = wrap_fold(pre, width);
    let ks = wrap_starts(pre, width);
    let k0 = pre.len() - st.line.len();
    let l = st.lines.push((st.line, st.start));
    let kk = ks.push(k0);
    assert(pre.push(ch) =~= text);
    lemma_tiles_extend(pre, ch, l, kk);
    assert(text.take(k0) =~= pre.take(k0));
    assert(text.take(n - 1) =~= pre);
    assert(text.take(n) =~= text);
    lemma_utf8_len_step(text, n - 1);
    assert(l.drop_last() =~= st.lines);
}

proof fn lemma_step_newline(text: Seq<char>, width: nat)
    requires
        width > 0,
        text.len() > 0,
        text.last() == '\n',
        tiled(text.drop_last(), width),
    ensures
        tiled(text, width),
{
    lemma_step_setup(text, width);
    let pre = text.drop_last();
    let n = text.len() as int;
    let st = wrap_fold(pre, width);
    let k0 = pre.len() - st.line.len();
    let l = st.lines.push((st.line, st.start));
    let kk = wrap_starts(pre, width).push(k0);
    let bi = utf8_len(pre) as int;
    assert(text.take(n) =~= text);
    assert(text.subrange(n, n) =~= Seq::<char>::empty());
    lemma_tiles_push(text, l, kk, (seq![], bi + char_width('\n')), n);
}

proof fn lemma_step_plain(text: Seq<char>, width: nat)
    requires
        width > 0,
        text.len() > 0,
        text.last() != '\n',
        wrap_fold(text.drop_last(), width).line.len() != width,
        tiled(text.drop_last(), width),
    ensures
        tiled(text, width),
{
    lemma_step_setup(text, width);
    let pre = text.drop_last();
    let n = text.len() as int;
    let ch = text.last();
    let st = wrap_fold(pre, width);
    let k0 = pre.len() - st.line.len();
    let l = st.lines.push((st.line, st.start));
    let kk = wrap_starts(pre, width).push(k0);
    let line2 = st.line.push(ch);
    assert(text.subrange(k0, n) =~= line2);
    lemma_tiles_set_last(text, l, kk, (line2, st.start));
    assert(l.drop_last().push((line2, st.start)) =~= st.lines.push((line2, st.start)));
}

proof fn lemma_step_hard_break(text: Seq<char>, width: nat)
    requires
        width > 0,
        text.len() > 0,
        text.last() != '\n',
        wrap_fold(text.drop_last(), width).line.len() == width,
        wrap_fold(text.drop_last(), width).last_ws is None,
        tiled(text.drop_last(), width),
    ensures
        tiled(text, width),
{
    lemma_step_setup(text, width);
    let pre = text.drop_last();
    let n = text.len() as int;
    let ch = text.last();
    let st = wrap_fold(pre, width);
    let k0 = pre.len() - st.line.len();
    let l = st.lines.push((st.line, st.start));
    let kk = wrap_starts(pre, width).push(k0);
    let bi = utf8_len(pre) as int;
    assert(text.subrange(n - 1, n) =~= seq![ch]);
    lemma_tiles_push(text, l, kk, (seq![ch], bi), n - 1);
    assert(wrap_fold(text, width).line =~= seq![ch]);
}

proof fn lemma_step_ws_break(text: Seq<char>, width: nat)
    requires
        width > 0,
        text.len() > 0,
        text.last() != '\n',
        wrap_fold(text.drop_last(), width).line.len() == width,
        wrap_fold(text.drop_last(), width).last_ws is Some,
        tiled(text.drop_last(), width),
    ensures
        tiled(text, width),
{
    lemma_step_setup(text, width);
    let pre = text.drop_last();
    let n = text.len() as int;
    let ch = text.last();
    let st = wrap_fold(pre, width);
    let k0 = pre.len() - st.line.len();
    let l = st.lines.push((st.line, st.start));
    let kk = wrap_starts(pre, width).push(k0);
    lemma_wrap_inv(pre, width);
    let ws = st.last_ws->0;
    let j = ws.1;
    assert(0 <= j < st.line.len());
    assert(ws.0 == utf8_len(pre.take(k0 + j)));
    let head = st.line.take(j);
    assert(text.subrange(k0, k0 + j) =~= head);
    lemma_tiles_set_last(text, l, kk, (head, st.start));
    let l2 = st.lines.push((head, st.start));
    assert(l.drop_last().push((head, st.start)) =~= l2);
    let rest = st.line.skip(j + 1).push(ch);
    assert(text.subrange(k0 + j + 1, n) =~= rest);
    assert(st.line[j] == text[k0 + j]);
    lemma_utf8_len_step(text, k0 + j);
    assert(text.take(k0 + j) =~= pre.take(k0 + j));
    assert(l2.last() == (head, st.start));
    lemma_tiles_push(text, l2, kk, (rest, ws.0 + char_width(st.line[j])), k0 + j + 1);
    assert(wrap_fold(text, width).lines == l2);
    assert(wrap_fold(text, width).line == rest);
}

/// The lines of the wrapping pass, the one being filled included, tile the
/// text read so far, the one being filled reaching its end.
proof fn lemma_wrap_tiles(text: Seq<char>, width: nat)
    requires
        width > 0,
    ensures
        tiled(text, width),
    decreases text.len(),
{
    if text.len() == 0 {
        reveal(tiles);
        let st = wrap_fold(text, width);
        assert(st.lines.push((st.line, st.start)) =~= seq![(st.line, st.start)]);
        assert(text.take(0) =~= Seq::<char>::empty());
        assert(text.subrange(0, 0) =~= Seq::<char>::empty());
        assert(wrap_starts(text, width).push(0) =~= seq![0int]);
    } else {
        lemma_wrap_tiles(text.drop_last(), width);
        let st = wrap_fold(text.drop_last(), width);
        if text.last() == '\n' {
            lemma_step_newline(text, width);
        } else if st.line.len() != width {
            lemma_step_plain(text, width);
        } else if st.last_ws is None {
            lemma_step_hard_break(text, width);
        } else {
            lemma_step_ws_break(text, width);
        }
    }
}

// ---------------------------------------------------------------------------
// Cursor placement
// ---------------------------------------------------------------------------

/// How many lines, counted from the first, start at or before a byte offset
/// (stopping at the first that starts after it).
pub open spec fn lines_started(w: Seq<(Seq<char>, int)>, pos: int) -> nat
    decreases w.len(),
{
    if w.len() == 0 || w[0].1 > pos {
        0
    } else {
        1 + lines_started(w.drop_first(), pos)
    }
}

/// The row of the cursor: the last of those lines (the first line if none).
pub open spec fn cursor_row(w: Seq<(Seq<char>, int)>, pos: int) -> int {
    let n = lines_started(w, pos);
    if n == 0 {
        0
    } else {
        n - 1
    }
}

/// How many leading characters of a line start less than `room` bytes into
/// it.
pub open spec fn chars_before(line: Seq<char>, room: int) -> nat
    decreases line.len(),
{
    if line.len() == 0 || room <= 0 {
        0
    } else {
        1 + chars_before(line.drop_first(), room - char_width(line[0]))
    }
}

/// The visual cell `(row, column)` of a cursor at a byte offset: its row,
/// and the number of characters of that row before it, kept within the
/// width.
pub open spec fn cursor_cell(w: Seq<(Seq<char>, int)>, pos: int, width: int) -> (int, int) {
    let row = cursor_row(w, pos);
    let line = w[row];
    let col: int = if pos >= line.1 {
        chars_before(line.0, pos - line.1) as int
    } else {
        0
    };
    (row, if col <= width {
        col
    } else {
        width
    })
}

proof fn lemma_lines_started_skip(w: Seq<(Seq<char>, int)>, pos: int, k: int)
    requires
        0 <= k < w.len(),
    ensures
        lines_started(w.skip(k), pos) == if w[k].1 > pos {
            0
        } else {
            1 + lines_started(w.skip(k + 1), pos)
        },
{
    assert(w.skip(k).drop_first() =~= w.skip(k + 1));
    assert(w.skip(k)[0] == w[k]);
}

proof fn lemma_chars_before_skip(s: Seq<char>, room: int, k: int)
    requires
        0 <= k < s.len(),
        room > 0,
    ensures
        chars_before(s.skip(k), room) == 1 + chars_before(s.skip(k + 1), room - char_width(s[k])),
{
    assert(s.skip(k).drop_first() =~= s.skip(k + 1));
    assert(s.skip(k)[0] == s[k]);
}

/// The visual `(row, column)` of a cursor at byte offset `cursor_pos` in
/// text wrapped by [`wrap_text`] to `width` columns.
pub fn cursor_row_col(wrapped: &[(String, usize)], cursor_pos: usize, width: usize) -> (r: (
    usize,
    usize,
))
    requires
        wrapped@.len() > 0,
    ensures
        (r.0 as int, r.1 as int) == cursor_cell(lines_view(wrapped@), cursor_pos as int, width as int),
{
    let ghost w = lines_view(wrapped@);
    let ghost pos = cursor_pos as int;
    let mut i: usize = 0;
    let mut done = false;
    proof {
        assert(w.skip(0) =~= w);
    }
    while i < wrapped.len() && !done
        invariant
            w == lines_view(wrapped@),
            pos == cursor_pos as int,
            0 <= i <= wrapped@.len(),
            lines_started(w, pos) == i + (if done {
                0
            } else {
                lines_started(w.skip(i as int), pos)
            }),
        decreases wrapped@.len() - i + (if done { 0int } else { 1 }),
    {
        proof {
            lemma_lines_started_skip(w, pos, i as int);
        }
        if wrapped[i].1 <= cursor_pos {
            i = i + 1;
        } else {
            done = true;
        }
    }
    proof {
        if !done {
            assert(w.skip(i as int).len() == 0);
        }
    }
    let row: usize = if i == 0 {
        0
    } else {
        i - 1
    };
    let line_text = &wrapped[row].0;
    let start_byte = wrapped[row].1;
    let mut col: usize = 0;
    if cursor_pos >= start_byte {
        let room: usize = cursor_pos - start_byte;
        let cs = chars_of(line_text.as_str());
        let n: usize = line_text.as_str().as_bytes().len();
        let mut off: usize = 0;
        let mut j: usize = 0;
        proof {
            assert(cs@.skip(0) =~= cs@);
            assert(cs@.take(0) =~= Seq::<char>::empty());
        }
        while j < cs.len() && off < room
            invariant
                cs@ == line_text@,
                n == utf8_len(cs@),
                0 <= j <= cs.len(),
                off == utf8_len(cs@.take(j as int)),
                chars_before(cs@, room as int) == j + chars_before(cs@.skip(j as int), room - off),
            decreases cs.len() - j,
        {
            proof {
                lemma_chars_before_skip(cs@, room - off, j as int);
                lemma_utf8_len_step(cs@, j as int);
                lemma_utf8_len_prefix(cs@, j + 1);
            }
            off = off + len_utf8(cs[j]);
            j = j + 1;
        }
        proof {
            assert(cs@.skip(0) =~= cs@);
            if j == cs.len() {
                assert(cs@.skip(j as int).len() == 0);
            }
        }
        col = j;
    }
    if col > width {
        col = width;
    }
    (row, col)
}

// ---------------------------------------------------------------------------
// Shortening
// ---------------------------------------------------------------------------

/// The ellipsis that marks shortened text.
pub open spec fn ellipsis() -> char {
    '\u{2026}'
}

/// A title cut to `max_len` characters: whole where it fits, else its first
/// `max_len - 1` characters and an ellipsis (nothing at all for a limit of
/// zero).
pub open spec fn truncated_title(title: Seq<char>, max_len: int) -> Seq<char> {
    if title.len() <= max_len {
        title
    } else if max_len <= 0 {
        seq![]
    } else {
        title.take(max_len - 1).push(ellipsis())
    }
}

/// Truncate a title to `max_len` characters, ending it with an ellipsis
/// where it was cut.
pub fn truncate_title(title: &str, max_len: usize) -> (r: String)
    ensures
        r@ == truncated_title(title@, max_len as int),
{
    let cs = chars_of(title);
    if cs.len() <= max_len {
        title.to_string()
    } else if max_len == 0 {
        String::new()
    } else {
        let mut out = copy_range(&cs, 0, max_len - 1);
        out.push('\u{2026}');
        string_of(&out)
    }
}

/// A path fitted into `max_len` characters: whole where it fits; else with
/// the home directory written `~` where that fits; else its last
/// `max_len - 1` characters after an ellipsis.
pub open spec fn shortened_path(path: Seq<char>, max_len: int, home: Option<Seq<char>>) -> Seq<
    char,
> {
    if max_len == 0 {
        seq![ellipsis()]
    } else if path.len() <= max_len {
        path
    } else if home is Some && home->0.is_prefix_of(path) && 1 + path.len() - home->0.len()
        <= max_len {
        seq!['~'] + path.skip(home->0.len() as int)
    } else {
        seq![ellipsis()] + path.skip(path.len() - max_len + 1)
    }
}

fn is_prefix(pre: &Vec<char>, s: &Vec<char>) -> (r: bool)
    ensures
        r == pre@.is_prefix_of(s@),
{
    if pre.len() > s.len() {
        return false;
    }
    let mut i: usize = 0;
    while i < pre.len()
        invariant
            pre@.len() <= s@.len(),
            0 <= i <= pre.len(),
            forall|k: int| 0 <= k < i ==> pre@[k] == s@[k],
        decreases pre.len() - i,
    {
        if pre[i] != s[i] {
            return false;
        }
        i = i + 1;
    }
    true
}

/// Shorten a path to fit within `max_len` characters, given the home
/// directory (if known).
pub fn shorten_path_with_home(path: &str, max_len: usize, home: Option<&str>) -> (r: String)
    ensures
        r@ == shortened_path(path@, max_len as int, match home {
            Some(h) => Some(h@),
            None => None,
        }),
{
    let cs = chars_of(path);
    if max_len == 0 {
        let mut out: Vec<char> = Vec::new();
        out.push('\u{2026}');
        proof {
            assert(out@ =~= seq![ellipsis()]);
        }
        return string_of(&out);
    }
    if cs.len() <= max_len {
        return path.to_string();
    }
    if let Some(h) = home {
        let hs = chars_of(h);
        if is_prefix(&hs, &cs) && cs.len() - hs.len() < max_len {
            let mut out: Vec<char> = Vec::new();
            out.push('~');
            let rest = copy_range(&cs, hs.len(), cs.len());
            let mut k: usize = 0;
            while k < rest.len()
                invariant
                    0 <= k <= rest.len(),
                    out@ =~= seq!['~'] + rest@.take(k as int),
                decreases rest.len() - k,
            {
                out.push(rest[k]);
                k = k + 1;
            }
            proof {
                assert(rest@.take(k as int) =~= path@.skip(hs@.len() as int));
            }
            return string_of(&out);
        }
    }
    let skip: usize = cs.len() - max_len + 1;
    let rest = copy_range(&cs, skip, cs.len());
    let mut out: Vec<char> = Vec::new();
    out.push('\u{2026}');
    let mut k: usize = 0;
    while k < rest.len()
        invariant
            0 <= k <= rest.len(),
            out@ =~= seq![ellipsis()] + rest@.take(k as int),
        decreases rest.len() - k,
    {
        out.push(rest[k]);
        k = k + 1;
    }
    proof {
        assert(rest@.take(k as int) =~= path@.skip(skip as int));
    }
    string_of(&out)
}

/// `dirs::home_dir`, as text. What it returns depends on the environment
/// and the user database, so nothing is stated of it.
#[verifier::external_body]
fn home_dir_text() -> (r: Option<String>) {
    dirs::home_dir().map(|p| p.to_string_lossy().to_string())
}

/// Shorten a path to fit within `max_len` characters, writing the current
/// user's home directory as `~` where that helps.
pub fn shorten_path(path: &str, max_len: usize) -> (r: String)
    ensures
        exists|home: Option<Seq<char>>| r@ == shortened_path(path@, max_len as int, home),
{
    let home = home_dir_text();
    match home {
        Some(h) => shorten_path_with_home(path, max_len, Some(h.as_str())),
        None => shorten_path_with_home(path, max_len, None),
    }
}

/// A truncated title takes at most `max_len` characters, and a title that
/// fits is kept as it is.
pub proof fn law_truncated_title_fits(title: Seq<char>, max_len: int)
    requires
        max_len >= 0,
    ensures
        truncated_title(title, max_len).len() <= max_len,
        title.len() <= max_len ==> truncated_title(title, max_len) == title,
{
}

/// A shortened path takes at most `max_len` characters (for a positive
/// `max_len`), and a path that fits is kept as it is.
pub proof fn law_shortened_path_fits(path: Seq<char>, max_len: int, home: Option<Seq<char>>)
    requires
        max_len >= 1,
    ensures
        shortened_path(path, max_len, home).len() <= max_len,
        path.len() <= max_len ==> shortened_path(path, max_len, home) == path,
{
}

// ---------------------------------------------------------------------------
// One-line input boxes
// ---------------------------------------------------------------------------

/// The part of a one-line box's text that is shown, `width` characters
/// wide and scrolled just enough to keep the cursor (at character `cursor`)
/// in view: the first and past-the-last character shown, and the cursor's
/// column.
pub open spec fn field_window_spec(len: int, cursor: int, width: int) -> (int, int, int) {
    let scroll = if cursor <= width {
        0
    } else {
        cursor - width
    };
    let end = if len <= scroll + width {
        len
    } else {
        scroll + width
    };
    (scroll, end, cursor - scroll)
}

/// The shown part of a one-line box's text and the cursor's column in it
/// (see [`field_window_spec`]); `cursor_pos` is a byte offset.
pub fn field_window(value: &str, cursor_pos: usize, width: usize) -> (r: (String, usize))
    requires
        crate::text::at_char_start(value@, cursor_pos as int),
    ensures
        ({
            let w = field_window_spec(
                value@.len() as int,
                crate::text::char_index(value@, cursor_pos as int),
                width as int,
            );
            r.0@ == value@.subrange(w.0, w.1) && r.1 as int == w.2
        }),
{
    let cs = chars_of(value);
    let k = crate::input::cursor_index(&cs, cursor_pos);
    let scroll: usize = if k <= width {
        0
    } else {
        k - width
    };
    let end: usize = if cs.len() - scroll <= width {
        cs.len()
    } else {
        scroll + width
    };
    let shown = copy_range(&cs, scroll, end);
    (string_of(&shown), k - scroll)
}

} // verus!

verus! {

// ---------------------------------------------------------------------------
// The cursor lands on its character
// ---------------------------------------------------------------------------

proof fn lemma_starts_increase(l: Seq<(Seq<char>, int)>, k: Seq<int>, p: Seq<char>, i: int, j: int)
    requires
        tiles(p, l, k),
        0 <= i <= j < l.len(),
    ensures
        k[i] <= k[j],
        i < j ==> k[i] + l[i].0.len() <= k[j],
    decreases j - i,
{
    reveal(tiles);
    if i < j {
        lemma_starts_increase(l, k, p, i, j - 1);
        assert(k[j - 1] + l[j - 1].0.len() <= k[j]);
    }
}

proof fn lemma_exists_row(l: Seq<(Seq<char>, int)>, k: Seq<int>, p: Seq<char>, c: int, i: int)
    requires
        tiles(p, l, k),
        0 <= i < l.len(),
        k[i] <= c,
    ensures
        exists|r: int| 0 <= r < l.len() && #[trigger] k[r] <= c && (r == l.len() - 1 || k[r + 1] > c),
    decreases l.len() - i,
{
    if i < l.len() - 1 && k[i + 1] <= c {
        lemma_exists_row(l, k, p, c, i + 1);
    } else {
        assert(0 <= i < l.len() && k[i] <= c && (i == l.len() - 1 || k[i + 1] > c));
    }
}

proof fn lemma_lines_started_count(w: Seq<(Seq<char>, int)>, pos: int, r: int)
    requires
        0 <= r < w.len(),
        forall|i: int| 0 <= i <= r ==> #[trigger] w[i].1 <= pos,
        r + 1 < w.len() ==> w[r + 1].1 > pos,
    ensures
        lines_started(w, pos) == r + 1,
    decreases r,
{
    let d = w.drop_first();
    assert(w[0].1 <= pos);
    if r > 0 {
        assert forall|i: int| 0 <= i <= r - 1 implies #[trigger] d[i].1 <= pos by {
            assert(d[i] == w[i + 1]);
        }
        if r < w.len() - 1 {
            assert(d[r] == w[r + 1]);
        }
        lemma_lines_started_count(d, pos, r - 1);
    } else {
        if w.len() > 1 {
            assert(d[0] == w[1]);
        }
        assert(lines_started(d, pos) == 0);
    }
    assert(lines_started(w, pos) == 1 + lines_started(d, pos));
}

proof fn lemma_tiles_line(p: Seq<char>, l: Seq<(Seq<char>, int)>, k: Seq<int>, i: int)
    requires
        tiles(p, l, k),
        0 <= i < l.len(),
    ensures
        0 <= k[i],
        k[i] + l[i].0.len() <= p.len(),
        l[i].1 == utf8_len(p.take(k[i])),
        p.subrange(k[i], k[i] + l[i].0.len()) == l[i].0,
        l.len() == k.len(),
        k[0] == 0,
{
    reveal(tiles);
}

proof fn lemma_tiles_gap(p: Seq<char>, l: Seq<(Seq<char>, int)>, k: Seq<int>, i: int, m: int)
    requires
        tiles(p, l, k),
        0 <= i < l.len() - 1,
        k[i] + l[i].0.len() <= m < k[i + 1],
    ensures
        is_ws(p[m]),
{
    reveal(tiles);
}

proof fn lemma_chars_before_exact(line: Seq<char>, d: int)
    requires
        0 <= d < line.len(),
    ensures
        chars_before(line, utf8_len(line.take(d)) as int) == d,
    decreases d,
{
    if d == 0 {
        assert(line.take(0) =~= Seq::<char>::empty());
        assert(utf8_len(line.take(0)) == 0);
    } else {
        let rest = line.drop_first();
        lemma_chars_before_exact(rest, d - 1);
        assert(line.take(d) =~= seq![line[0]] + rest.take(d - 1));
        crate::text::lemma_encode_concat(seq![line[0]], rest.take(d - 1));
        lemma_char_width(line[0]);
    }
}

/// The cell that [`cursor_row_col`] finds for a cursor on a character that
/// is not whitespace holds that very character: the text as shown and the
/// cursor never disagree.
pub proof fn law_cursor_lands_on_its_character(text: Seq<char>, width: nat, k: int)
    requires
        width > 0,
        0 <= k < text.len(),
        !is_ws(text[k]),
    ensures
        ({
            let w = wrapped(text, width);
            let cell = cursor_cell(w, utf8_len(text.take(k)) as int, width as int);
            &&& 0 <= cell.0 < w.len()
            &&& 0 <= cell.1 < w[cell.0].0.len()
            &&& w[cell.0].0[cell.1] == text[k]
        }),
{
    lemma_wrap_tiles(text, width);
    lemma_wrap_inv(text, width);
    let st = wrap_fold(text, width);
    let k0 = text.len() - st.line.len();
    let w = wrapped(text, width);
    let ks = wrap_starts(text, width).push(k0);
    assert(w == st.lines.push((st.line, st.start)));
    lemma_tiles_line(text, w, ks, 0);
    let n = w.len() as int;
    assert(ks[n - 1] == k0);
    assert(w[n - 1] == (st.line, st.start));
    lemma_exists_row(w, ks, text, k, 0);
    let r = choose|r: int| 0 <= r < w.len() && #[trigger] ks[r] <= k && (r == w.len() - 1 || ks[r + 1] > k);
    lemma_cursor_in_row(text, width, k, w, ks, r);
}

/// The cursor law once the row holding the character is known.
proof fn lemma_cursor_in_row(text: Seq<char>, width: nat, k: int, w: Seq<(Seq<char>, int)>, ks: Seq<int>, r: int)
    requires
        width > 0,
        0 <= k < text.len(),
        !is_ws(text[k]),
        w == wrapped(text, width),
        tiles(text, w, ks),
        ks[w.len() - 1] + w[w.len() - 1].0.len() == text.len(),
        0 <= r < w.len(),
        ks[r] <= k,
        r == w.len() - 1 || ks[r + 1] > k,
    ensures
        ({
            let cell = cursor_cell(w, utf8_len(text.take(k)) as int, width as int);
            &&& 0 <= cell.0 < w.len()
            &&& 0 <= cell.1 < w[cell.0].0.len()
            &&& w[cell.0].0[cell.1] == text[k]
        }),
{
    law_wrapped_lines_fit(text, width);
    lemma_tiles_line(text, w, ks, r);
    let n = w.len() as int;
    let c = ks[r];
    let line = w[r].0;
    if k >= c + line.len() {
        if r < n - 1 {
            lemma_tiles_gap(text, w, ks, r, k);
        }
    }
    assert(k < c + line.len());
    let pos = utf8_len(text.take(k)) as int;
    assert forall|i: int| 0 <= i <= r implies #[trigger] w[i].1 <= pos by {
        lemma_starts_increase(w, ks, text, i, r);
        lemma_tiles_line(text, w, ks, i);
        lemma_utf8_len_grows(text, ks[i], k);
    }
    if r + 1 < n {
        lemma_tiles_line(text, w, ks, r + 1);
        lemma_utf8_len_grows(text, k, ks[r + 1]);
    }
    lemma_lines_started_count(w, pos, r);
    assert(cursor_row(w, pos) == r);
    let d = k - c;
    assert(line.take(d) =~= text.subrange(c, k));
    assert(text.take(k) =~= text.take(c) + text.subrange(c, k));
    crate::text::lemma_encode_concat(text.take(c), text.subrange(c, k));
    lemma_chars_before_exact(line, d);
    assert(line.len() <= width);
    assert(line[d] == text.subrange(c, c + line.len())[d]);
}

} // verus!
