//! The text side of driving tmux: session and window names, log paths, and
//! the cleaning of captured pane output before it is replayed. Running the
//! `tmux` commands themselves is left to the caller.

use vstd::prelude::*;

use crate::text::{chars_of, owned, push_str};

verus! {

/// The window that runs the agent.
pub const AGENT_WINDOW: &'static str = "agent";
/// The window that holds a plain shell in the task's worktree.
pub const SHELL_WINDOW: &'static str = "shell";

// ---------------------------------------------------------------------------
// Cleaning captured output for a heredoc
// ---------------------------------------------------------------------------

/// Bytes that survive cleaning: newline, tab, printable ASCII, and every byte
/// of a multi-byte UTF-8 character.
pub open spec fn is_kept(b: u8) -> bool {
    b == 0x0a || b == 0x09 || (0x20 <= b && b < 0x7f) || b >= 0x80
}

/// What follows a CSI sequence's parameters: the rest after its final byte
/// (0x40..=0x7e), or nothing if it never ends.
pub open spec fn after_csi(s: Seq<u8>) -> Seq<u8>
    decreases s.len(),
{
    if s.len() == 0 {
        s
    } else if 0x40 <= s[0] && s[0] <= 0x7e {
        s.drop_first()
    } else {
        after_csi(s.drop_first())
    }
}

/// What follows an OSC sequence's text: the rest after BEL or after
/// `ESC \`, or nothing if it never ends.
pub open spec fn after_osc(s: Seq<u8>) -> Seq<u8>
    decreases s.len(),
{
    if s.len() == 0 {
        s
    } else if s[0] == 0x07 {
        s.drop_first()
    } else if s[0] == 0x1b && s.len() >= 2 && s[1] == 0x5c {
        s.skip(2)
    } else {
        after_osc(s.drop_first())
    }
}

pub proof fn lemma_after_csi_shorter(s: Seq<u8>)
    ensures
        after_csi(s).len() <= s.len(),
    decreases s.len(),
{
    if s.len() > 0 && !(0x40 <= s[0] && s[0] <= 0x7e) {
        lemma_after_csi_shorter(s.drop_first());
    }
}

pub proof fn lemma_after_osc_shorter(s: Seq<u8>)
    ensures
        after_osc(s).len() <= s.len(),
    decreases s.len(),
{
    if s.len() > 0 && !(s[0] == 0x07) && !(s[0] == 0x1b && s.len() >= 2 && s[1] == 0x5c) {
        lemma_after_osc_shorter(s.drop_first());
    }
}

/// Captured output with terminal control sequences removed: CSI sequences
/// (`ESC [ ... final`), OSC sequences (`ESC ] ... BEL` or `... ESC \`),
/// other two-byte escapes, a trailing lone ESC, and every control byte other
/// than newline and tab.
pub open spec fn strip_controls(s: Seq<u8>) -> Seq<u8>
    decreases s.len(),
{
    if s.len() == 0 {
        Seq::empty()
    } else if s[0] == 0x1b {
        if s.len() == 1 {
            Seq::empty()
        } else if s[1] == 0x5b {
            proof {
                lemma_after_csi_shorter(s.skip(2));
            }
            strip_controls(after_csi(s.skip(2)))
        } else if s[1] == 0x5d {
            proof {
                lemma_after_osc_shorter(s.skip(2));
            }
            strip_controls(after_osc(s.skip(2)))
        } else {
            strip_controls(s.skip(2))
        }
    } else if is_kept(s[0]) {
        seq![s[0]] + strip_controls(s.drop_first())
    } else {
        strip_controls(s.drop_first())
    }
}

/// Remove terminal control sequences and control bytes from captured bytes.
pub fn strip_control_bytes(bytes: &[u8]) -> (r: Vec<u8>)
    ensures
        r@ == strip_controls(bytes@),
{
    let n = bytes.len();
    let mut out: Vec<u8> = Vec::new();
    let mut i: usize = 0;
    assert(bytes@.skip(0) =~= bytes@);
    while i < n
        invariant
            n == bytes@.len(),
            i <= n,
            strip_controls(bytes@) == out@ + strip_controls(bytes@.skip(i as int)),
        decreases n - i,
    {
        let b = bytes[i];
        let ghost rest = bytes@.skip(i as int);
        if b == 0x1b {
            if i + 1 >= n {
                assert(rest.len() == 1);
                assert(out@ + Seq::<u8>::empty() =~= out@);
                i = i + 1;
                assert(bytes@.skip(i as int).len() == 0);
            } else {
                let next = bytes[i + 1];
                assert(rest.skip(2) =~= bytes@.skip(i + 2));
                if next == 0x5b {
                    let mut j: usize = i + 2;
                    assert(bytes@.skip(j as int) =~= rest.skip(2));
                    let mut done = false;
                    while j < n && !done
                        invariant
                            n == bytes@.len(),
                            i + 2 <= j <= n,
                            !done ==> after_csi(rest.skip(2)) == after_csi(bytes@.skip(j as int)),
                            done ==> after_csi(rest.skip(2)) == bytes@.skip(j as int),
                        decreases n - j,
                    {
                        let c = bytes[j];
                        assert(bytes@.skip(j as int)[0] == c);
                        assert(bytes@.skip(j as int).drop_first() =~= bytes@.skip(j + 1));
                        j = j + 1;
                        if 0x40 <= c && c <= 0x7e {
                            done = true;
                        }
                    }
                    assert(after_csi(rest.skip(2)) == bytes@.skip(j as int)) by {
                        if !done {
                            assert(bytes@.skip(j as int).len() == 0);
                        }
                    }
                    i = j;
                } else if next == 0x5d {
                    let mut j: usize = i + 2;
                    assert(bytes@.skip(j as int) =~= rest.skip(2));
                    let mut done = false;
                    while j < n && !done
                        invariant
                            n == bytes@.len(),
                            i + 2 <= j <= n,
                            !done ==> after_osc(rest.skip(2)) == after_osc(bytes@.skip(j as int)),
                            done ==> after_osc(rest.skip(2)) == bytes@.skip(j as int),
                        decreases n - j,
                    {
                        let ghost t = bytes@.skip(j as int);
                        assert(t[0] == bytes@[j as int]);
                        if bytes[j] == 0x07 {
                            assert(t.drop_first() =~= bytes@.skip(j + 1));
                            j = j + 1;
                            done = true;
                        } else if bytes[j] == 0x1b && j + 1 < n && bytes[j + 1] == 0x5c {
                            assert(t.len() >= 2 && t[1] == 0x5c);
                            assert(t.skip(2) =~= bytes@.skip(j + 2));
                            j = j + 2;
                            done = true;
                        } else {
                            assert(t.drop_first() =~= bytes@.skip(j + 1));
                            j = j + 1;
                        }
                    }
                    assert(after_osc(rest.skip(2)) == bytes@.skip(j as int)) by {
                        if !done {
                            assert(bytes@.skip(j as int).len() == 0);
                        }
                    }
                    i = j;
                } else {
                    i = i + 2;
                }
            }
        } else {
            assert(rest[0] == b);
            assert(rest.drop_first() =~= bytes@.skip(i + 1));
            if b == 0x0a || b == 0x09 || (0x20 <= b && b < 0x7f) || b >= 0x80 {
                out.push(b);
                assert(out@ + strip_controls(bytes@.skip(i + 1)) =~= out@.drop_last() + (seq![b] + strip_controls(bytes@.skip(i + 1))));
            }
            i = i + 1;
        }
    }
    assert(out@ + Seq::<u8>::empty() =~= out@);
    out
}

/// Every byte left after cleaning is one that cleaning keeps: no escape, no
/// carriage return, no Ctrl-C or other control byte but newline and tab.
pub proof fn law_cleaned_bytes_are_kept(s: Seq<u8>)
    ensures
        forall|i: int| 0 <= i < strip_controls(s).len() ==> is_kept(#[trigger] strip_controls(s)[i]),
    decreases s.len(),
{
    if s.len() > 0 {
        if s[0] == 0x1b {
            if s.len() > 1 {
                if s[1] == 0x5b {
                    lemma_after_csi_shorter(s.skip(2));
                    law_cleaned_bytes_are_kept(after_csi(s.skip(2)));
                    assert(strip_controls(s) == strip_controls(after_csi(s.skip(2))));
                } else if s[1] == 0x5d {
                    lemma_after_osc_shorter(s.skip(2));
                    law_cleaned_bytes_are_kept(after_osc(s.skip(2)));
                    assert(strip_controls(s) == strip_controls(after_osc(s.skip(2))));
                } else {
                    law_cleaned_bytes_are_kept(s.skip(2));
                    assert(strip_controls(s) == strip_controls(s.skip(2)));
                }
            } else {
                assert(strip_controls(s).len() == 0);
            }
        } else {
            law_cleaned_bytes_are_kept(s.drop_first());
            let rest = strip_controls(s.drop_first());
            if is_kept(s[0]) {
                assert(strip_controls(s) == seq![s[0]] + rest);
                assert forall|i: int| 0 <= i < strip_controls(s).len() implies is_kept(#[trigger] strip_controls(s)[i]) by {
                    if i > 0 {
                        assert(strip_controls(s)[i] == rest[i - 1]);
                    }
                }
            } else {
                assert(strip_controls(s) == rest);
            }
        }
    }
}

/// Text that holds only bytes that cleaning keeps comes out unchanged; so
/// cleaning twice is cleaning once.
pub proof fn law_clean_text_is_unchanged(s: Seq<u8>)
    requires
        forall|i: int| 0 <= i < s.len() ==> is_kept(#[trigger] s[i]),
    ensures
        strip_controls(s) == s,
        strip_controls(strip_controls(s)) == strip_controls(s),
    decreases s.len(),
{
    if s.len() > 0 {
        assert(is_kept(s[0]));
        assert forall|i: int| 0 <= i < s.drop_first().len() implies is_kept(#[trigger] s.drop_first()[i]) by {
            assert(s.drop_first()[i] == s[i + 1]);
        }
        law_clean_text_is_unchanged(s.drop_first());
        assert(seq![s[0]] + s.drop_first() =~= s);
    } else {
        assert(strip_controls(s) =~= s);
    }
}

/// Cleaning is idempotent.
pub proof fn law_cleaning_is_idempotent(s: Seq<u8>)
    ensures
        strip_controls(strip_controls(s)) == strip_controls(s),
{
    law_cleaned_bytes_are_kept(s);
    law_clean_text_is_unchanged(strip_controls(s));
}

/// Decode bytes leniently, as `String::from_utf8_lossy` does.
pub uninterp spec fn utf8_lossy(bytes: Seq<u8>) -> Seq<char>;

/// `String::from_utf8_lossy`: decode bytes, replacing invalid sequences with
/// U+FFFD. Valid UTF-8 is decoded as it stands, and every ASCII character
/// of the result is an ASCII byte of the input (an invalid sequence never
/// takes in an ASCII byte, and U+FFFD is not ASCII).
#[verifier::external_body]
pub(crate) fn from_utf8_lossy(bytes: &[u8]) -> (r: String)
    ensures
        r@ == utf8_lossy(bytes@),
        vstd::utf8::valid_utf8(bytes@) ==> r@ == vstd::utf8::decode_utf8(bytes@),
        forall|i: int|
            0 <= i < r@.len() && (r@[i] as u32) < 0x80 ==> bytes@.contains(#[trigger] (r@[i] as u32) as u8),
{
    String::from_utf8_lossy(bytes).into_owned()
}

/// Strip terminal control sequences and control characters from captured
/// pane output, so that it is plain text that is safe to feed through a
/// shell heredoc. The result holds only bytes that cleaning keeps, and text
/// made only of such bytes comes out unchanged; so cleaning twice is
/// cleaning once.
pub fn sanitize_for_heredoc(input: &str) -> (r: String)
    ensures
        r@ == utf8_lossy(strip_controls(vstd::utf8::encode_utf8(input@))),
        all_kept(vstd::utf8::encode_utf8(r@)),
        all_kept(vstd::utf8::encode_utf8(input@)) ==> r@ == input@,
{
    broadcast use vstd::utf8::group_utf8_lib;

    let kept = strip_control_bytes(input.as_bytes());
    let r = from_utf8_lossy(kept.as_slice());
    proof {
        let bytes = vstd::utf8::encode_utf8(input@);
        law_cleaned_bytes_are_kept(bytes);
        assert forall|i: int| 0 <= i < r@.len() implies char_kept(#[trigger] r@[i]) by {
            if (r@[i] as u32) < 0x80 {
                let b = (r@[i] as u32) as u8;
                assert(kept@.contains(b));
                let j = choose|j: int| 0 <= j < kept@.len() && kept@[j] == b;
                assert(is_kept(kept@[j]));
            }
        }
        lemma_encode_all_kept(r@);
        if all_kept(bytes) {
            law_clean_text_is_unchanged(bytes);
        }
    }
    r
}

/// A character whose UTF-8 bytes cleaning keeps: any character from U+0080
/// on, or a kept ASCII one.
pub open spec fn char_kept(c: char) -> bool {
    (c as u32) >= 0x80 || is_kept((c as u32) as u8)
}

proof fn lemma_high_bytes(x: u8)
    by (bit_vector)
    ensures
        (0x80u8 | x) >= 0x80u8,
        (0xC0u8 | x) >= 0x80u8,
        (0xE0u8 | x) >= 0x80u8,
        (0xF0u8 | x) >= 0x80u8,
{
}

proof fn lemma_ascii_byte(v: u32)
    by (bit_vector)
    requires
        v <= 0x7F,
    ensures
        (v & 0x7F) as u8 == v as u8,
{
}

proof fn lemma_encode_all_kept(t: Seq<char>)
    requires
        forall|i: int| 0 <= i < t.len() ==> char_kept(#[trigger] t[i]),
    ensures
        all_kept(vstd::utf8::encode_utf8(t)),
    decreases t.len(),
{
    if t.len() > 0 {
        let rest = t.drop_first();
        assert forall|i: int| 0 <= i < rest.len() implies char_kept(#[trigger] rest[i]) by {
            assert(rest[i] == t[i + 1]);
        }
        lemma_encode_all_kept(rest);
        let v = t[0] as u32;
        assert(char_kept(t[0]));
        let head = vstd::utf8::encode_scalar(v);
        lemma_high_bytes(((v >> 6) & 0x1F) as u8);
        lemma_high_bytes(((v >> 12) & 0x0F) as u8);
        lemma_high_bytes(((v >> 18) & 0x7) as u8);
        lemma_high_bytes((v & 0x3F) as u8);
        lemma_high_bytes(((v >> 6) & 0x3F) as u8);
        lemma_high_bytes(((v >> 12) & 0x3F) as u8);
        if v <= 0x7F {
            lemma_ascii_byte(v);
        }
        assert(all_kept(head));
        let all = vstd::utf8::encode_utf8(t);
        assert(all == head + vstd::utf8::encode_utf8(rest));
        assert forall|i: int| 0 <= i < all.len() implies is_kept(#[trigger] all[i]) by {
            if i < head.len() {
                assert(all[i] == head[i]);
            } else {
                assert(all[i] == vstd::utf8::encode_utf8(rest)[i - head.len()]);
            }
        }
    }
}

/// Every byte is one that cleaning keeps.
pub open spec fn all_kept(s: Seq<u8>) -> bool {
    forall|i: int| 0 <= i < s.len() ==> is_kept(#[trigger] s[i])
}



} // verus!

verus! {

// ---------------------------------------------------------------------------
// Names and paths
// ---------------------------------------------------------------------------

/// The tmux session name for a task: `ab-` and the first eight characters
/// of its id (all of a shorter id).
pub open spec fn session_name_spec(task_id: Seq<char>) -> Seq<char> {
    "ab-"@ + crate::text::take_chars(task_id, 8)
}

/// Return the tmux session name for a given task id: `ab-<first 8 chars>`.
pub fn session_name(task_id: &str) -> (r: String)
    ensures
        r@ == session_name_spec(task_id@),
{
    let mut out = owned("ab-");
    let first = crate::text::first_chars(&chars_of(task_id), 8);
    crate::text::push_chars(&mut out, &first);
    out
}

/// The tmux target of a session's agent window.
pub fn agent_target(session: &str) -> (r: String)
    ensures
        r@ == session@ + ":agent"@,
{
    let mut out = owned(session);
    push_str(&mut out, ":agent");
    out
}

/// The tmux invocations (their arguments) that send a command to a
/// session's agent window: the text typed literally (`-l`, with `--` so
/// that a leading `-` is no flag), then the Enter key on its own.
pub fn send_command(session: &str, command: &str) -> (r: Vec<Vec<String>>)
    ensures
        r@.len() == 2,
        crate::text::strings_view(r@[0]@) == seq![
            "send-keys"@,
            "-t"@,
            session@ + ":agent"@,
            "-l"@,
            "--"@,
            command@,
        ],
        crate::text::strings_view(r@[1]@) == seq!["send-keys"@, "-t"@, session@ + ":agent"@, "Enter"@],
{
    let typed = vec![
        owned("send-keys"),
        owned("-t"),
        agent_target(session),
        owned("-l"),
        owned("--"),
        owned(command),
    ];
    let enter = vec![owned("send-keys"), owned("-t"), agent_target(session), owned("Enter")];
    proof {
        assert(crate::text::strings_view(typed@) =~= seq![
            "send-keys"@,
            "-t"@,
            session@ + ":agent"@,
            "-l"@,
            "--"@,
            command@,
        ]);
        assert(crate::text::strings_view(enter@) =~= seq![
            "send-keys"@,
            "-t"@,
            session@ + ":agent"@,
            "Enter"@,
        ]);
    }
    vec![typed, enter]
}

/// The tmux arguments that print the visible part of a session's agent
/// window.
pub fn capture_visible_pane(session: &str) -> (r: Vec<String>)
    ensures
        crate::text::strings_view(r@) == seq!["capture-pane"@, "-t"@, session@ + ":agent"@, "-p"@],
{
    let r = vec![owned("capture-pane"), owned("-t"), agent_target(session), owned("-p")];
    proof {
        assert(crate::text::strings_view(r@) =~= seq![
            "capture-pane"@,
            "-t"@,
            session@ + ":agent"@,
            "-p"@,
        ]);
    }
    r
}

/// The visible pane text from what `tmux capture-pane` printed: decoded
/// (invalid UTF-8 replaced) and without trailing whitespace.
pub fn visible_pane_text(stdout: &[u8]) -> (r: String)
    ensures
        r@ == crate::text::trim_end(utf8_lossy(stdout@)),
{
    let text = from_utf8_lossy(stdout);
    let cs = chars_of(text.as_str());
    crate::text::string_of(&crate::text::trim_end_chars(&cs))
}

/// The conventional log path for a task's session inside its worktree.
pub fn session_log_path(worktree_path: &str) -> (r: String)
    ensures
        r@ == worktree_path@ + "/.agentboard/session.log"@,
{
    let mut out = owned(worktree_path);
    push_str(&mut out, "/.agentboard/session.log");
    out
}

// ---------------------------------------------------------------------------
// Reading tmux output
// ---------------------------------------------------------------------------

/// The shells that a pane may fall back to when its command has finished.
pub open spec fn is_shell_name(s: Seq<char>) -> bool {
    s == "bash"@ || s == "zsh"@ || s == "sh"@ || s == "fish"@ || s == "dash"@ || s == "tcsh"@ || s == "csh"@
        || s == "ksh"@
}

/// Whether a pane's current command (as tmux reports it) is a known shell,
/// ignoring case; a command that could not be read is not.
pub fn is_pane_at_shell(current_command: Option<&str>) -> (r: bool)
    ensures
        r == match current_command {
            Some(c) => is_shell_name(crate::text::lowercase(c@)),
            None => false,
        },
{
    match current_command {
        Some(c) => {
            let lower = crate::text::to_lowercase(c);
            let l = lower.as_str();
            crate::text::str_eq(l, "bash") || crate::text::str_eq(l, "zsh") || crate::text::str_eq(l, "sh")
                || crate::text::str_eq(l, "fish") || crate::text::str_eq(l, "dash") || crate::text::str_eq(l, "tcsh")
                || crate::text::str_eq(l, "csh") || crate::text::str_eq(l, "ksh")
        },
        None => false,
    }
}

/// Whether tmux's error output says that the session does not exist (so
/// killing it has nothing left to do).
pub open spec fn is_missing_session_spec(stderr: Seq<char>) -> bool {
    let l = crate::text::lowercase(stderr);
    crate::text::contains_seq(l, "session not found"@) || crate::text::contains_seq(l, "no such session"@)
        || crate::text::contains_seq(l, "can't find session"@)
}

/// Whether a failed `kill-session` failed only because the session was gone.
pub fn is_missing_session_error(stderr: &str) -> (r: bool)
    ensures
        r == is_missing_session_spec(stderr@),
{
    let lower = crate::text::to_lowercase(stderr);
    let l = lower.as_str();
    crate::text::contains_str(l, "session not found") || crate::text::contains_str(l, "no such session")
        || crate::text::contains_str(l, "can't find session")
}

/// The last line of the pane that holds more than whitespace.
pub open spec fn last_nonblank(lines: Seq<Seq<char>>) -> Option<Seq<char>>
    decreases lines.len(),
{
    if lines.len() == 0 {
        None
    } else if crate::text::trim(lines.last()).len() > 0 {
        Some(lines.last())
    } else {
        last_nonblank(lines.drop_last())
    }
}

pub open spec fn ends_with_prompt_char(s: Seq<char>) -> bool {
    s.len() > 0 && (s.last() == '$' || s.last() == '#' || s.last() == '%' || s.last() == '>')
}

/// Whether the pane shows a shell prompt: its last non-blank line, without
/// trailing whitespace, ends with `$`, `#`, `%` or `>`.
pub open spec fn shows_prompt_spec(content: Seq<char>) -> bool {
    match last_nonblank(crate::text::lines_of(content)) {
        Some(line) => ends_with_prompt_char(crate::text::trim_end(line)),
        None => false,
    }
}

/// Whether the pane's visible content shows a shell prompt, meaning the
/// shell has initialised and waits for input.
pub fn shows_shell_prompt(content: &str) -> (r: bool)
    ensures
        r == shows_prompt_spec(content@),
{
    let lines = crate::text::split_lines(content);
    let ghost all = crate::text::lines_of(content@);
    let mut k: usize = lines.len();
    assert(all.take(k as int) =~= all);
    while k > 0
        invariant
            k <= lines.len(),
            lines@.len() == all.len(),
            forall|j: int| 0 <= j < lines@.len() ==> #[trigger] lines@[j]@ == all[j],
            last_nonblank(all) == last_nonblank(all.take(k as int)),
            all == crate::text::lines_of(content@),
        decreases k,
    {
        let line = &lines[k - 1];
        assert(line@ == all[k - 1]);
        let t = crate::text::trim_chars(line);
        proof {
            assert(all.take(k as int).last() == all[k - 1]);
            assert(all.take(k as int).drop_last() =~= all.take(k - 1));
        }
        if t.len() > 0 {
            assert(last_nonblank(all.take(k as int)) == Some(all[k - 1]));
            let e = trim_end_chars(line);
            if e.len() == 0 {
                return false;
            }
            let c = e[e.len() - 1];
            assert(c == e@.last());
            return c == '$' || c == '#' || c == '%' || c == '>';
        }
        k = k - 1;
    }
    assert(all.take(0) =~= Seq::<Seq<char>>::empty());
    false
}

fn trim_end_chars(s: &Vec<char>) -> (r: Vec<char>)
    ensures
        r@ == crate::text::trim_end(s@),
{
    let mut end: usize = s.len();
    assert(s@.take(end as int) =~= s@);
    while end > 0 && crate::text::is_whitespace(s[end - 1])
        invariant
            end <= s.len(),
            crate::text::trim_end(s@) == crate::text::trim_end(s@.take(end as int)),
        decreases end,
    {
        assert(s@.take(end as int).drop_last() =~= s@.take(end - 1));
        end = end - 1;
    }
    let mut out: Vec<char> = Vec::new();
    let mut i: usize = 0;
    while i < end
        invariant
            i <= end <= s.len(),
            out@ =~= s@.take(i as int),
        decreases end - i,
    {
        out.push(s[i]);
        i = i + 1;
    }
    assert(s@.take(end as int) =~= out@);
    assert(s@.take(end as int).len() == 0 || !crate::text::is_ws(s@.take(end as int).last()));
    out
}

} // verus!

verus! {

// ---------------------------------------------------------------------------
// The task's windows
// ---------------------------------------------------------------------------

/// Number of characters before the first tab (all of them if none).
pub open spec fn tab_index(s: Seq<char>) -> nat
    decreases s.len(),
{
    if s.len() == 0 || s[0] == '\t' {
        0
    } else {
        1 + tab_index(s.drop_first())
    }
}

proof fn lemma_tab_index(s: Seq<char>)
    ensures
        tab_index(s) <= s.len(),
        tab_index(s) < s.len() ==> s[tab_index(s) as int] == '\t',
        forall|j: int| 0 <= j < tab_index(s) ==> s[j] != '\t',
    decreases s.len(),
{
    if s.len() > 0 && s[0] != '\t' {
        lemma_tab_index(s.drop_first());
        assert forall|j: int| 0 <= j < tab_index(s) implies s[j] != '\t' by {
            if j > 0 {
                assert(s[j] == s.drop_first()[j - 1]);
            }
        }
    }
}

/// A line of `list-windows -F "#{window_name}\t#{window_id}"`: the name
/// before the first tab, the id after it (empty if there is no tab).
pub open spec fn window_name_of(line: Seq<char>) -> Seq<char> {
    line.take(tab_index(line) as int)
}

pub open spec fn window_id_of(line: Seq<char>) -> Seq<char> {
    if tab_index(line) < line.len() {
        line.skip(tab_index(line) as int + 1)
    } else {
        Seq::empty()
    }
}

/// The first non-empty window id among the lines.
pub open spec fn first_window_id(lines: Seq<Seq<char>>) -> Option<Seq<char>>
    decreases lines.len(),
{
    if lines.len() == 0 {
        None
    } else if window_id_of(lines[0]).len() > 0 {
        Some(window_id_of(lines[0]))
    } else {
        first_window_id(lines.drop_first())
    }
}

pub open spec fn has_window(lines: Seq<Seq<char>>, name: Seq<char>) -> bool {
    exists|i: int| 0 <= i < lines.len() && window_name_of(#[trigger] lines[i]) == name
}

/// What a task session's window list holds.
pub struct WindowList {
    pub has_agent: bool,
    pub has_shell: bool,
    pub first_window_id: Option<String>,
}

fn split_tab(line: &Vec<char>) -> (r: (Vec<char>, Vec<char>))
    ensures
        r.0@ == window_name_of(line@),
        r.1@ == window_id_of(line@),
{
    proof {
        lemma_tab_index(line@);
    }
    let mut i: usize = 0;
    while i < line.len() && line[i] != '\t'
        invariant
            i <= line.len(),
            i <= tab_index(line@),
            tab_index(line@) <= line@.len(),
            tab_index(line@) < line@.len() ==> line@[tab_index(line@) as int] == '\t',
            forall|j: int| 0 <= j < i ==> line@[j] != '\t',
        decreases line.len() - i,
    {
        i = i + 1;
    }
    assert(i == tab_index(line@));
    let mut name: Vec<char> = Vec::new();
    let mut k: usize = 0;
    while k < i
        invariant
            k <= i <= line.len(),
            name@ =~= line@.take(k as int),
        decreases i - k,
    {
        name.push(line[k]);
        k = k + 1;
    }
    let mut id: Vec<char> = Vec::new();
    if i < line.len() {
        let mut m: usize = i + 1;
        while m < line.len()
            invariant
                i + 1 <= m <= line.len(),
                id@ =~= line@.subrange(i + 1, m as int),
            decreases line.len() - m,
        {
            id.push(line[m]);
            m = m + 1;
        }
        assert(line@.skip(i + 1) =~= line@.subrange(i + 1, line.len() as int));
    } else {
        assert(id@ =~= Seq::<char>::empty());
    }
    (name, id)
}

/// Read the output of `list-windows`: whether the `agent` and `shell`
/// windows exist, and the first window's id.
pub fn parse_window_list(output: &str) -> (r: WindowList)
    ensures
        r.has_agent == has_window(crate::text::lines_of(output@), "agent"@),
        r.has_shell == has_window(crate::text::lines_of(output@), "shell"@),
        crate::text::opt_view(r.first_window_id) == first_window_id(crate::text::lines_of(output@)),
{
    let lines = crate::text::split_lines(output);
    let ghost all = crate::text::lines_of(output@);
    let agent = chars_of("agent");
    let shell = chars_of("shell");
    let mut has_agent = false;
    let mut has_shell = false;
    let mut first: Option<String> = None;
    let mut k: usize = 0;
    assert(all.skip(0) =~= all);
    while k < lines.len()
        invariant
            k <= lines.len(),
            all == crate::text::lines_of(output@),
            lines@.len() == all.len(),
            forall|j: int| 0 <= j < lines@.len() ==> #[trigger] lines@[j]@ == all[j],
            agent@ == "agent"@,
            shell@ == "shell"@,
            has_agent == exists|i: int| 0 <= i < k && window_name_of(#[trigger] all[i]) == "agent"@,
            has_shell == exists|i: int| 0 <= i < k && window_name_of(#[trigger] all[i]) == "shell"@,
            first_window_id(all) == match first {
                Some(f) => Some(f@),
                None => first_window_id(all.skip(k as int)),
            },
        decreases lines.len() - k,
    {
        let (name, id) = split_tab(&lines[k]);
        assert(lines@[k as int]@ == all[k as int]);
        if crate::text::seq_eq(&name, &agent) {
            has_agent = true;
        }
        if crate::text::seq_eq(&name, &shell) {
            has_shell = true;
        }
        proof {
            assert(all.skip(k as int)[0] == all[k as int]);
            assert(all.skip(k as int).drop_first() =~= all.skip(k + 1));
        }
        if first.is_none() && id.len() > 0 {
            first = Some(crate::text::string_of(&id));
        }
        k = k + 1;
    }
    proof {
        assert(all.skip(k as int).len() == 0);
    }
    WindowList { has_agent, has_shell, first_window_id: first }
}

// ---------------------------------------------------------------------------
// Session logging
// ---------------------------------------------------------------------------

/// A log path that can stand in the `pipe-pane` shell command: no NUL,
/// newline or carriage return.
pub open spec fn log_path_is_safe_spec(path: Seq<char>) -> bool {
    !path.contains('\0') && !path.contains('\n') && !path.contains('\r')
}

/// Whether a log path can stand in the `pipe-pane` shell command.
pub fn log_path_is_safe(path: &str) -> (r: bool)
    ensures
        r == log_path_is_safe_spec(path@),
{
    let cs = chars_of(path);
    let mut i: usize = 0;
    while i < cs.len()
        invariant
            i <= cs.len(),
            cs@ == path@,
            forall|j: int| 0 <= j < i ==> cs@[j] != '\0' && cs@[j] != '\n' && cs@[j] != '\r',
        decreases cs.len() - i,
    {
        let c = cs[i];
        if c == '\0' || c == '\n' || c == '\r' {
            assert(cs@[i as int] == c);
            assert(path@.contains(c));
            return false;
        }
        i = i + 1;
    }
    true
}

/// The shell command that `pipe-pane` runs to append the pane's output to
/// the log: `cat >> '<path>'`, the path quoted as one shell word.
pub fn pipe_to_log_command(log_path: &str) -> (r: String)
    ensures
        r@ == "cat >> "@ + crate::agent::shell_quoted(log_path@),
{
    let mut out = owned("cat >> ");
    let q = crate::agent::shell_quote(log_path);
    push_str(&mut out, q.as_str());
    out
}

} // verus!

verus! {

// ---------------------------------------------------------------------------
// Finding the agent in a pane's process tree
// ---------------------------------------------------------------------------

/// What is known of one process: its short name (`/proc/<pid>/comm`), the
/// file name of its lower-cased first argument, and its whole command line
/// decoded leniently; each `None` when it could not be read.
pub struct ProcessInfo {
    pub comm: Option<String>,
    pub argv0_name: Option<String>,
    pub cmdline: Option<String>,
}

pub open spec fn opt_contains_lower(o: Option<String>, needle: Seq<char>) -> bool {
    match o {
        Some(s) => crate::text::contains_seq(crate::text::lowercase(s@), needle),
        None => false,
    }
}

pub open spec fn opt_contains(o: Option<String>, needle: Seq<char>) -> bool {
    match o {
        Some(s) => crate::text::contains_seq(s@, needle),
        None => false,
    }
}

/// The process is the agent itself: its short name or its program's file
/// name names it (`needle` is lower-case).
pub open spec fn identity_matches_spec(p: ProcessInfo, needle: Seq<char>) -> bool {
    opt_contains_lower(p.comm, needle) || opt_contains(p.argv0_name, needle)
}

/// The process mentions the agent: its short name or anywhere in its
/// command line, ignoring case (`needle` is lower-case).
pub open spec fn process_matches_spec(p: ProcessInfo, needle: Seq<char>) -> bool {
    opt_contains_lower(p.comm, needle) || opt_contains_lower(p.cmdline, needle)
}

fn contains_lower(o: &Option<String>, needle: &str) -> (r: bool)
    ensures
        r == opt_contains_lower(*o, needle@),
{
    match o {
        Some(s) => crate::text::contains_str(crate::text::to_lowercase(s.as_str()).as_str(), needle),
        None => false,
    }
}

/// Whether the process is the agent named by the lower-case `needle`.
pub fn process_identity_matches(p: &ProcessInfo, needle: &str) -> (r: bool)
    ensures
        r == identity_matches_spec(*p, needle@),
{
    contains_lower(&p.comm, needle) || match &p.argv0_name {
        Some(s) => crate::text::contains_str(s.as_str(), needle),
        None => false,
    }
}

/// Whether the process mentions the agent named by the lower-case `needle`.
pub fn process_matches(p: &ProcessInfo, needle: &str) -> (r: bool)
    ensures
        r == process_matches_spec(*p, needle@),
{
    contains_lower(&p.comm, needle) || contains_lower(&p.cmdline, needle)
}

/// Whether the candidate agent matches the process, by identity or by
/// mention.
pub open spec fn candidate_matches(p: ProcessInfo, candidate: Seq<char>, by_identity: bool) -> bool {
    if by_identity {
        identity_matches_spec(p, crate::text::lowercase(candidate))
    } else {
        process_matches_spec(p, crate::text::lowercase(candidate))
    }
}

/// The first (process, candidate) pair, in process order and then candidate
/// order, that matches.
pub open spec fn first_match(procs: Seq<ProcessInfo>, candidates: Seq<Seq<char>>, by_identity: bool) -> Option<int> {
    if exists|i: int, j: int|
        0 <= i < procs.len() && 0 <= j < candidates.len() && candidate_matches(#[trigger] procs[i], #[trigger] candidates[j], by_identity)
    {
        let (i, j) = choose|i: int, j: int|
            0 <= i < procs.len() && 0 <= j < candidates.len() && candidate_matches(#[trigger] procs[i], #[trigger] candidates[j], by_identity)
                && forall|i2: int, j2: int|
                0 <= i2 < procs.len() && 0 <= j2 < candidates.len() && (i2 < i || (i2 == i && j2 < j)) ==> !candidate_matches(#[trigger] procs[i2], #[trigger] candidates[j2], by_identity);
        Some(j)
    } else {
        None
    }
}

/// Which supported agent a pane's process tree runs, as an index into
/// `candidates`. Identity is checked across the whole tree before command
/// lines, because an agent's prompt can itself mention another agent.
pub open spec fn detect_agent_spec(procs: Seq<ProcessInfo>, candidates: Seq<Seq<char>>) -> Option<int> {
    match first_match(procs, candidates, true) {
        Some(j) => Some(j),
        None => first_match(procs, candidates, false),
    }
}

fn scan(procs: &Vec<ProcessInfo>, candidates: &Vec<&str>, by_identity: bool) -> (r: Option<usize>)
    ensures
        match r {
            Some(j) => j < candidates.len() && exists|i: int|
                0 <= i < procs@.len() && candidate_matches(#[trigger] procs@[i], strs(candidates@)[j as int], by_identity)
                && forall|i2: int, j2: int|
                0 <= i2 < procs@.len() && 0 <= j2 < candidates@.len() && (i2 < i || (i2 == i && j2 < j)) ==> !candidate_matches(#[trigger] procs@[i2], #[trigger] strs(candidates@)[j2], by_identity),
            None => forall|i: int, j: int|
                0 <= i < procs@.len() && 0 <= j < candidates@.len() ==> !candidate_matches(#[trigger] procs@[i], #[trigger] strs(candidates@)[j], by_identity),
        },
{
    let mut lowered: Vec<String> = Vec::new();
    let mut c: usize = 0;
    while c < candidates.len()
        invariant
            c <= candidates.len(),
            lowered@.len() == c,
            forall|j: int| 0 <= j < c ==> #[trigger] lowered@[j]@ == crate::text::lowercase(candidates@[j]@),
        decreases candidates.len() - c,
    {
        lowered.push(crate::text::to_lowercase(candidates[c]));
        c = c + 1;
    }
    let mut i: usize = 0;
    while i < procs.len()
        invariant
            i <= procs.len(),
            lowered@.len() == candidates@.len(),
            forall|j: int| 0 <= j < candidates@.len() ==> #[trigger] lowered@[j]@ == crate::text::lowercase(candidates@[j]@),
            forall|i2: int, j2: int|
                0 <= i2 < i && 0 <= j2 < candidates@.len() ==> !candidate_matches(#[trigger] procs@[i2], #[trigger] strs(candidates@)[j2], by_identity),
        decreases procs.len() - i,
    {
        let mut j: usize = 0;
        while j < candidates.len()
            invariant
                i < procs.len(),
                j <= candidates.len(),
                lowered@.len() == candidates@.len(),
                forall|j3: int| 0 <= j3 < candidates@.len() ==> #[trigger] lowered@[j3]@ == crate::text::lowercase(candidates@[j3]@),
                forall|i2: int, j2: int|
                    0 <= i2 < i && 0 <= j2 < candidates@.len() ==> !candidate_matches(#[trigger] procs@[i2], #[trigger] strs(candidates@)[j2], by_identity),
                forall|j2: int| 0 <= j2 < j ==> !candidate_matches(procs@[i as int], #[trigger] strs(candidates@)[j2], by_identity),
            decreases candidates.len() - j,
        {
            assert(strs(candidates@)[j as int] == candidates@[j as int]@);
            let hit = if by_identity {
                process_identity_matches(&procs[i], lowered[j].as_str())
            } else {
                process_matches(&procs[i], lowered[j].as_str())
            };
            if hit {
                assert(candidate_matches(procs@[i as int], strs(candidates@)[j as int], by_identity));
                return Some(j);
            }
            j = j + 1;
        }
        i = i + 1;
    }
    None
}

pub open spec fn strs(v: Seq<&str>) -> Seq<Seq<char>> {
    crate::text::strs_view(v)
}

/// Identify which supported agent owns a pane's process tree, given what is
/// known of each process in the tree (root first).
pub fn detect_agent_descendant(procs: &Vec<ProcessInfo>, candidates: &Vec<&str>) -> (r: Option<usize>)
    ensures
        match r {
            Some(j) => detect_agent_spec(procs@, strs(candidates@)) == Some(j as int),
            None => detect_agent_spec(procs@, strs(candidates@)) is None,
        },
{
    let ghost cs = strs(candidates@);
    assert(cs.len() == candidates@.len());
    match scan(procs, candidates, true) {
        Some(j) => {
            proof {
                let i = choose|i: int|
                    0 <= i < procs@.len() && candidate_matches(#[trigger] procs@[i], cs[j as int], true)
                    && forall|i2: int, j2: int|
                    0 <= i2 < procs@.len() && 0 <= j2 < candidates@.len() && (i2 < i || (i2 == i && j2 < j)) ==> !candidate_matches(#[trigger] procs@[i2], #[trigger] cs[j2], true);
                lemma_first_match_is(procs@, cs, true, i, j as int);
            }
            Some(j)
        },
        None => {
            let second = scan(procs, candidates, false);
            proof {
                assert(first_match(procs@, cs, true) is None);
                if let Some(j) = second {
                    let i = choose|i: int|
                        0 <= i < procs@.len() && candidate_matches(#[trigger] procs@[i], cs[j as int], false)
                        && forall|i2: int, j2: int|
                        0 <= i2 < procs@.len() && 0 <= j2 < candidates@.len() && (i2 < i || (i2 == i && j2 < j)) ==> !candidate_matches(#[trigger] procs@[i2], #[trigger] cs[j2], false);
                    lemma_first_match_is(procs@, cs, false, i, j as int);
                }
            }
            second
        },
    }
}

proof fn lemma_first_match_is(procs: Seq<ProcessInfo>, candidates: Seq<Seq<char>>, by_identity: bool, i: int, j: int)
    requires
        0 <= i < procs.len(),
        0 <= j < candidates.len(),
        candidate_matches(procs[i], candidates[j], by_identity),
        forall|i2: int, j2: int|
            0 <= i2 < procs.len() && 0 <= j2 < candidates.len() && (i2 < i || (i2 == i && j2 < j)) ==> !candidate_matches(#[trigger] procs[i2], #[trigger] candidates[j2], by_identity),
    ensures
        first_match(procs, candidates, by_identity) == Some(j),
{
    let (a, b) = choose|a: int, b: int|
        0 <= a < procs.len() && 0 <= b < candidates.len() && candidate_matches(#[trigger] procs[a], #[trigger] candidates[b], by_identity)
            && forall|i2: int, j2: int|
            0 <= i2 < procs.len() && 0 <= j2 < candidates.len() && (i2 < a || (i2 == a && j2 < b)) ==> !candidate_matches(#[trigger] procs[i2], #[trigger] candidates[j2], by_identity);
    assert(candidate_matches(procs[i], candidates[j], by_identity));
    if a < i || (a == i && b < j) {
        assert(!candidate_matches(procs[a], candidates[b], by_identity));
    }
    if i < a || (i == a && j < b) {
        assert(!candidate_matches(procs[i], candidates[j], by_identity));
    }
    assert(a == i && b == j);
}

} // verus!
