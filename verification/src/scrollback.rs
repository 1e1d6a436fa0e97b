//! Replaying a restored session's saved output: choosing the tail of the
//! session log that is pasted back into the new session through a shell
//! heredoc, so that the user can scroll back through the earlier work.
use vstd::prelude::*;
use crate::text::{chars_of, string_of, len_utf8, utf8_len, char_width, matches_at, occurs_at,
    lemma_utf8_len_step, lemma_utf8_len_prefix, lemma_char_width, lemma_encode_concat};

verus! {

/// The heredoc terminator used while replaying.
pub const SCROLLBACK_MARKER: &'static str = "AB_SCROLLBACK_EOF";
/// What a replayed line that contains the terminator gets instead of it.
pub const NEUTRAL_MARKER: &'static str = "AB_SCROLLBACK_EOF_";
/// Longest line replayed as it is, in bytes.
pub const MAX_LINE_BYTES: usize = 2000;
/// Most bytes replayed in all (each line counted with its newline).
pub const MAX_TOTAL_BYTES: usize = 8192;

/// Every occurrence of `pat`, read left to right without overlap, replaced
/// by `rep` (as `str::replace` does).
pub open spec fn replace_all(s: Seq<char>, pat: Seq<char>, rep: Seq<char>) -> Seq<char>
    decreases s.len(),
{
    if s.len() == 0 {
        s
    } else if pat.len() > 0 && pat.len() <= s.len() && s.take(pat.len() as int) == pat {
        rep + replace_all(s.skip(pat.len() as int), pat, rep)
    } else {
        seq![s[0]] + replace_all(s.drop_first(), pat, rep)
    }
}

/// Replace every occurrence of `pat` by `rep`.
pub fn replace_chars(s: &Vec<char>, pat: &Vec<char>, rep: &Vec<char>) -> (r: Vec<char>)
    ensures
        r@ == replace_all(s@, pat@, rep@),
{
    let n = s.len();
    let m = pat.len();
    let mut out: Vec<char> = Vec::new();
    let mut i: usize = 0;
    proof {
        assert(s@.skip(0) =~= s@);
    }
    while i < n
        invariant
            n == s@.len(),
            m == pat@.len(),
            0 <= i <= n,
            replace_all(s@, pat@, rep@) == out@ + replace_all(s@.skip(i as int), pat@, rep@),
        decreases n - i,
    {
        let ghost t = s@.skip(i as int);
        if m > 0 && m <= n - i && matches_at(s, pat, i) {
            proof {
                assert(t.take(m as int) =~= pat@);
                assert(t.skip(m as int) =~= s@.skip(i + m));
                assert(out@ + rep@ + replace_all(s@.skip(i + m), pat@, rep@) =~= out@ + (rep@
                    + replace_all(t.skip(m as int), pat@, rep@)));
            }
            let ghost before = out@;
            let mut k: usize = 0;
            while k < rep.len()
                invariant
                    0 <= k <= rep@.len(),
                    out@ =~= before + rep@.take(k as int),
                decreases rep@.len() - k,
            {
                out.push(rep[k]);
                k = k + 1;
            }
            proof {
                assert(rep@.take(k as int) =~= rep@);
            }
            i = i + m;
        } else {
            proof {
                if m > 0 && m <= n - i {
                    assert(!occurs_at(s@, pat@, i as int));
                    if t.take(m as int) == pat@ {
                        assert forall|k: int| 0 <= k < m implies s@[i + k] == pat@[k] by {
                            assert(t.take(m as int)[k] == s@[i + k]);
                        }
                    }
                }
                assert(t[0] == s@[i as int]);
                assert(t.drop_first() =~= s@.skip(i + 1));
            }
            out.push(s[i]);
            proof {
                assert(out@.drop_last() + (seq![s@[i as int]] + replace_all(s@.skip(i + 1), pat@, rep@)) =~= out@ + replace_all(s@.skip(i + 1), pat@, rep@));
            }
            i = i + 1;
        }
    }
    proof {
        assert(s@.skip(n as int) =~= Seq::<char>::empty());
        assert(out@ + Seq::<char>::empty() =~= out@);
    }
    out
}

/// How many leading characters of a text fit in `budget` bytes.
pub open spec fn fit_chars(s: Seq<char>, budget: int) -> nat
    decreases s.len(),
{
    if s.len() == 0 || char_width(s[0]) > budget {
        0
    } else {
        1 + fit_chars(s.drop_first(), budget - char_width(s[0]))
    }
}

/// A line longer than `MAX_LINE_BYTES` cut to the characters that fit,
/// with an ellipsis.
pub open spec fn cut_line(line: Seq<char>) -> Seq<char> {
    if utf8_len(line) > MAX_LINE_BYTES {
        line.take(fit_chars(line, MAX_LINE_BYTES as int) as int).push('\u{2026}')
    } else {
        line
    }
}

/// A line as replayed: cut, and with the heredoc terminator neutralised.
pub open spec fn prepared_line(line: Seq<char>) -> Seq<char> {
    replace_all(cut_line(line), SCROLLBACK_MARKER@, NEUTRAL_MARKER@)
}

proof fn lemma_fit_chars_skip(s: Seq<char>, budget: int, k: int)
    requires
        0 <= k < s.len(),
    ensures
        fit_chars(s.skip(k), budget) == if char_width(s[k]) > budget {
            0
        } else {
            1 + fit_chars(s.skip(k + 1), budget - char_width(s[k]))
        },
{
    assert(s.skip(k).drop_first() =~= s.skip(k + 1));
    assert(s.skip(k)[0] == s[k]);
}

/// Cut a line that is too long (see [`cut_line`]).
fn cut_long_line(line: &Vec<char>) -> (r: Vec<char>)
    ensures
        r@ == cut_line(line@),
{
    let n = line.len();
    let mut off: usize = 0;
    let mut j: usize = 0;
    proof {
        assert(line@.skip(0) =~= line@);
        assert(line@.take(0) =~= Seq::<char>::empty());
    }
    while j < n && off + len_utf8(line[j]) <= MAX_LINE_BYTES
        invariant
            n == line@.len(),
            0 <= j <= n,
            off <= MAX_LINE_BYTES,
            off == utf8_len(line@.take(j as int)),
            fit_chars(line@, MAX_LINE_BYTES as int) == j + fit_chars(line@.skip(j as int), MAX_LINE_BYTES - off),
        decreases n - j,
    {
        proof {
            lemma_fit_chars_skip(line@, MAX_LINE_BYTES - off, j as int);
            lemma_utf8_len_step(line@, j as int);
        }
        off = off + len_utf8(line[j]);
        j = j + 1;
    }
    proof {
        assert(line@.take(n as int) =~= line@);
        if j < n {
            lemma_fit_chars_skip(line@, MAX_LINE_BYTES - off, j as int);
            lemma_utf8_len_step(line@, j as int);
            lemma_utf8_len_prefix(line@, j + 1);
        } else {
            assert(line@.skip(j as int).len() == 0);
        }
    }
    if j < n {
        let mut out: Vec<char> = Vec::new();
        let mut k: usize = 0;
        while k < j
            invariant
                0 <= k <= j <= n,
                n == line@.len(),
                out@ =~= line@.take(k as int),
            decreases j - k,
        {
            out.push(line[k]);
            k = k + 1;
        }
        out.push('\u{2026}');
        out
    } else {
        line.clone()
    }
}

/// Prepare a line for replay (see [`prepared_line`]).
pub fn prepare_line(line: &Vec<char>) -> (r: Vec<char>)
    ensures
        r@ == prepared_line(line@),
{
    let cut = cut_long_line(line);
    let pat = chars_of(SCROLLBACK_MARKER);
    let rep = chars_of(NEUTRAL_MARKER);
    replace_chars(&cut, &pat, &rep)
}

/// The lines replayed from `lines[lo..hi]`, in order: walking back from the
/// newest, each prepared line is taken while the bytes taken so far (each
/// line with its newline, `used` at the start) stay within
/// `MAX_TOTAL_BYTES`; the first that does not fit ends the walk.
pub open spec fn select_back(lines: Seq<Seq<char>>, lo: int, hi: int, used: int) -> Seq<Seq<char>>
    decreases hi - lo,
{
    if hi <= lo {
        seq![]
    } else {
        let s = prepared_line(lines[hi - 1]);
        let cost = utf8_len(s) + 1;
        if used + cost > MAX_TOTAL_BYTES {
            seq![]
        } else {
            select_back(lines, lo, hi - 1, used + cost).push(s)
        }
    }
}

/// The text replayed from a session log: nothing for a blank log; else the
/// last `max_lines` lines of the cleaned log, as many as the byte budget
/// takes, joined by newlines and ending with one (nothing if that is blank).
pub open spec fn scrollback_tail_spec(content: Seq<char>, max_lines: int) -> Option<Seq<char>> {
    if crate::text::trim(content).len() == 0 {
        None
    } else {
        let lines = crate::text::lines_of(crate::tmux::utf8_lossy(
            crate::tmux::strip_controls(vstd::utf8::encode_utf8(content)),
        ));
        let lo = if lines.len() > max_lines {
            lines.len() - max_lines
        } else {
            0
        };
        let tail = crate::text::join(select_back(lines, lo, lines.len() as int, 0), "\n"@);
        if crate::text::trim(tail).len() == 0 {
            None
        } else if tail.len() > 0 && tail.last() == '\n' {
            Some(tail)
        } else {
            Some(tail.push('\n'))
        }
    }
}

/// The text to replay from a session log's contents (see
/// [`scrollback_tail_spec`]).
pub fn scrollback_tail(content: &str, max_lines: usize) -> (r: Option<String>)
    ensures
        match r {
            Some(s) => scrollback_tail_spec(content@, max_lines as int) == Some(s@),
            None => scrollback_tail_spec(content@, max_lines as int) is None,
        },
{
    if crate::text::trim_str(content).len() == 0 {
        return None;
    }
    let sanitized = crate::tmux::sanitize_for_heredoc(content);
    let lines = crate::text::split_lines(sanitized.as_str());
    let ghost lv = crate::text::lines_of(sanitized@);
    let n = lines.len();
    let lo: usize = if n > max_lines {
        n - max_lines
    } else {
        0
    };
    let mut selected: Vec<Vec<char>> = Vec::new();
    let mut total: usize = 0;
    let mut hi: usize = n;
    let mut done = false;
    proof {
        assert(select_back(lv, lo as int, n as int, 0) =~= select_back(lv, lo as int, n as int, 0) + Seq::<Seq<char>>::empty());
    }
    while hi > lo && !done
        invariant
            n == lv.len(),
            lines@.len() == n,
            forall|k: int| 0 <= k < n ==> #[trigger] lines@[k]@ == lv[k],
            lo <= hi <= n,
            total <= MAX_TOTAL_BYTES,
            select_back(lv, lo as int, n as int, 0) == (if done {
                Seq::<Seq<char>>::empty()
            } else {
                select_back(lv, lo as int, hi as int, total as int)
            }) + crate::text::strings_chars_view(selected@),
        decreases hi, (if done { 0int } else { 1 }),
    {
        let s = prepare_line(&lines[hi - 1]);
        let st = string_of(&s);
        let len: usize = st.as_str().as_bytes().len();
        let ghost sel = crate::text::strings_chars_view(selected@);
        if len >= MAX_TOTAL_BYTES - total {
            done = true;
        } else {
            selected.insert(0, s);
            proof {
                assert(crate::text::strings_chars_view(selected@) =~= seq![prepared_line(lv[hi - 1])] + sel);
                assert(select_back(lv, lo as int, hi - 1, total + len + 1).push(prepared_line(lv[hi - 1])) + sel =~= select_back(lv, lo as int, hi - 1, total + len + 1) + (seq![prepared_line(lv[hi - 1])] + sel));
            }
            total = total + len + 1;
            hi = hi - 1;
        }
    }
    let ghost chosen = crate::text::strings_chars_view(selected@);
    proof {
        if !done {
            assert(chosen =~= select_back(lv, lo as int, n as int, 0));
        } else {
            assert(Seq::<Seq<char>>::empty() + chosen =~= chosen);
        }
    }
    let mut tail: Vec<char> = Vec::new();
    let mut i: usize = 0;
    while i < selected.len()
        invariant
            chosen == crate::text::strings_chars_view(selected@),
            0 <= i <= selected@.len(),
            tail@ == crate::text::join(chosen.take(i as int), "\n"@),
        decreases selected@.len() - i,
    {
        proof {
            if i > 0 {
                crate::text::lemma_join_push(chosen.take(i as int), "\n"@, chosen[i as int]);
            }
            assert(chosen.take(i + 1) =~= chosen.take(i as int).push(chosen[i as int]));
        }
        if i > 0 {
            tail.push('\n');
        }
        let w = &selected[i];
        let mut k: usize = 0;
        let ghost before = tail@;
        while k < w.len()
            invariant
                0 <= k <= w@.len(),
                tail@ =~= before + w@.take(k as int),
            decreases w@.len() - k,
        {
            tail.push(w[k]);
            k = k + 1;
        }
        proof {
            assert(w@.take(k as int) =~= w@);
            if i == 0 {
                assert(chosen.take(1) =~= seq![chosen[0]]);
                assert(tail@ =~= chosen[0]);
            } else {
                reveal_strlit("\n");
                assert("\n"@ =~= seq!['\n']);
                assert(before =~= crate::text::join(chosen.take(i as int), "\n"@).push('\n'));
                assert(tail@ =~= crate::text::join(chosen.take(i as int), "\n"@) + "\n"@ + chosen[i as int]);
            }
        }
        i = i + 1;
    }
    proof {
        assert(chosen.take(i as int) =~= chosen);
    }
    if crate::text::trim_chars(&tail).len() == 0 {
        return None;
    }
    if !(tail.len() > 0 && tail[tail.len() - 1] == '\n') {
        tail.push('\n');
    }
    Some(string_of(&tail))
}

/// The bytes that replayed lines take, each with its newline.
pub open spec fn replay_bytes(lines: Seq<Seq<char>>) -> int
    decreases lines.len(),
{
    if lines.len() == 0 {
        0
    } else {
        replay_bytes(lines.drop_last()) + utf8_len(lines.last()) + 1
    }
}

proof fn lemma_select_back_budget(lines: Seq<Seq<char>>, lo: int, hi: int, used: int)
    requires
        0 <= used <= MAX_TOTAL_BYTES,
    ensures
        used + replay_bytes(select_back(lines, lo, hi, used)) <= MAX_TOTAL_BYTES,
    decreases hi - lo,
{
    if hi > lo {
        let s = prepared_line(lines[hi - 1]);
        let cost = utf8_len(s) + 1;
        if used + cost <= MAX_TOTAL_BYTES {
            lemma_select_back_budget(lines, lo, hi - 1, used + cost);
            let inner = select_back(lines, lo, hi - 1, used + cost);
            assert(inner.push(s).drop_last() =~= inner);
        }
    }
}

proof fn lemma_join_bytes(words: Seq<Seq<char>>)
    requires
        words.len() > 0,
    ensures
        utf8_len(crate::text::join(words, "\n"@)) + 1 == replay_bytes(words),
    decreases words.len(),
{
    reveal_strlit("\n");
    assert("\n"@ =~= seq!['\n']);
    if words.len() == 1 {
        assert(words.drop_last() =~= Seq::<Seq<char>>::empty());
        assert(replay_bytes(words.drop_last()) == 0);
        assert(words.last() == words[0]);
    } else {
        lemma_join_bytes(words.drop_last());
        let j = crate::text::join(words.drop_last(), "\n"@);
        assert(crate::text::join(words, "\n"@) == j + seq!['\n'] + words.last());
        lemma_encode_concat(j, seq!['\n']);
        lemma_encode_concat(j + seq!['\n'], words.last());
        lemma_char_width('\n');
        assert(utf8_len(j + seq!['\n']) == utf8_len(j) + 1);
    }
}

/// The replayed text never takes more than `MAX_TOTAL_BYTES` bytes.
pub proof fn law_scrollback_within_budget(content: Seq<char>, max_lines: int)
    ensures
        scrollback_tail_spec(content, max_lines) matches Some(t) ==> utf8_len(t) <= MAX_TOTAL_BYTES,
{
    if crate::text::trim(content).len() != 0 {
        let lines = crate::text::lines_of(crate::tmux::utf8_lossy(
            crate::tmux::strip_controls(vstd::utf8::encode_utf8(content)),
        ));
        let lo = if lines.len() > max_lines {
            lines.len() - max_lines
        } else {
            0
        };
        let sel = select_back(lines, lo, lines.len() as int, 0);
        lemma_select_back_budget(lines, lo, lines.len() as int, 0);
        let tail = crate::text::join(sel, "\n"@);
        if sel.len() > 0 {
            lemma_join_bytes(sel);
            lemma_encode_concat(tail, seq!['\n']);
            lemma_char_width('\n');
            assert(tail.push('\n') =~= tail + seq!['\n']);
        } else {
            assert(tail.len() == 0);
            assert(crate::text::trim(tail).len() == 0) by {
                reveal_with_fuel(crate::text::trim_start, 1);
                reveal_with_fuel(crate::text::trim_end, 1);
            }
        }
    }
}

} // verus!
