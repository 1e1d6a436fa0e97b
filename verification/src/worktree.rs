//! Naming of the Git branches that task worktrees check out. Running `git`
//! is left to the caller.

use vstd::prelude::*;
use crate::text::{chars_of, first_chars, lowercase, owned, push_char, push_str, take_chars, to_lowercase};

verus! {

pub open spec fn is_ascii_alnum(c: char) -> bool {
    ('a' <= c && c <= 'z') || ('A' <= c && c <= 'Z') || ('0' <= c && c <= '9')
}

/// Every character that is not ASCII alphanumeric becomes a hyphen.
pub open spec fn slug_chars(s: Seq<char>) -> Seq<char>
    decreases s.len(),
{
    if s.len() == 0 {
        Seq::empty()
    } else {
        slug_chars(s.drop_last()).push(if is_ascii_alnum(s.last()) { s.last() } else { '-' })
    }
}

/// Runs of hyphens collapsed into one.
pub open spec fn collapse_hyphens(s: Seq<char>) -> Seq<char>
    decreases s.len(),
{
    if s.len() == 0 {
        Seq::empty()
    } else {
        let r = collapse_hyphens(s.drop_last());
        if s.last() == '-' && r.len() > 0 && r.last() == '-' {
            r
        } else {
            r.push(s.last())
        }
    }
}

/// The text without leading hyphens.
pub open spec fn trim_start_hyphens(s: Seq<char>) -> Seq<char>
    decreases s.len(),
{
    if s.len() > 0 && s[0] == '-' {
        trim_start_hyphens(s.drop_first())
    } else {
        s
    }
}

/// The text without trailing hyphens.
pub open spec fn trim_end_hyphens(s: Seq<char>) -> Seq<char>
    decreases s.len(),
{
    if s.len() > 0 && s.last() == '-' {
        trim_end_hyphens(s.drop_last())
    } else {
        s
    }
}

/// The slug of a title: lower-cased, every character that is not ASCII
/// alphanumeric made a hyphen, runs of hyphens collapsed, hyphens trimmed at
/// both ends, cut to 50 characters with any hyphen left at the cut removed,
/// and `task` when nothing is left.
pub open spec fn branch_slug(title: Seq<char>) -> Seq<char> {
    let trimmed = trim_end_hyphens(trim_start_hyphens(collapse_hyphens(slug_chars(lowercase(title)))));
    let cut = trim_end_hyphens(take_chars(trimmed, 50));
    if cut.len() == 0 {
        "task"@
    } else {
        cut
    }
}

/// The branch name for a task: `ab/<first 8 characters of the id>/<slug>`.
pub open spec fn branch_name_spec(task_id: Seq<char>, title: Seq<char>) -> Seq<char> {
    "ab/"@ + take_chars(task_id, 8) + "/"@ + branch_slug(title)
}

proof fn lemma_trim_start_hyphens_skip(s: Seq<char>, i: int)
    requires
        0 <= i <= s.len(),
        forall|j: int| 0 <= j < i ==> s[j] == '-',
    ensures
        trim_start_hyphens(s) == trim_start_hyphens(s.skip(i)),
    decreases i,
{
    if i > 0 {
        lemma_trim_start_hyphens_skip(s.drop_first(), i - 1);
        assert(s.drop_first().skip(i - 1) =~= s.skip(i));
    } else {
        assert(s.skip(0) =~= s);
    }
}

proof fn lemma_trim_end_hyphens_take(s: Seq<char>, k: int)
    requires
        0 <= k <= s.len(),
        forall|j: int| k <= j < s.len() ==> s[j] == '-',
    ensures
        trim_end_hyphens(s) == trim_end_hyphens(s.take(k)),
    decreases s.len() - k,
{
    if k < s.len() {
        assert(s.drop_last().take(k) =~= s.take(k));
        lemma_trim_end_hyphens_take(s.drop_last(), k);
    } else {
        assert(s.take(k) =~= s);
    }
}

proof fn lemma_trim_start_hyphens_first(s: Seq<char>)
    ensures
        trim_start_hyphens(s).len() == 0 || trim_start_hyphens(s)[0] != '-',
    decreases s.len(),
{
    if s.len() > 0 && s[0] == '-' {
        lemma_trim_start_hyphens_first(s.drop_first());
    }
}

proof fn lemma_trim_end_hyphens_prefix(s: Seq<char>)
    ensures
        trim_end_hyphens(s).len() <= s.len(),
        trim_end_hyphens(s) == s.take(trim_end_hyphens(s).len() as int),
    decreases s.len(),
{
    if s.len() > 0 && s.last() == '-' {
        lemma_trim_end_hyphens_prefix(s.drop_last());
        let r = trim_end_hyphens(s.drop_last());
        assert(s.drop_last().take(r.len() as int) =~= s.take(r.len() as int));
    } else {
        assert(s.take(s.len() as int) =~= s);
    }
}

fn is_alnum(c: char) -> (r: bool)
    ensures
        r == is_ascii_alnum(c),
{
    ('a' <= c && c <= 'z') || ('A' <= c && c <= 'Z') || ('0' <= c && c <= '9')
}

fn slug_and_collapse(s: &Vec<char>) -> (r: Vec<char>)
    ensures
        r@ == collapse_hyphens(slug_chars(s@)),
{
    let mut slug: Vec<char> = Vec::new();
    let mut i: usize = 0;
    while i < s.len()
        invariant
            i <= s.len(),
            slug@ == slug_chars(s@.take(i as int)),
        decreases s.len() - i,
    {
        assert(s@.take(i + 1).drop_last() =~= s@.take(i as int));
        let c = s[i];
        if is_alnum(c) {
            slug.push(c);
        } else {
            slug.push('-');
        }
        i = i + 1;
    }
    assert(s@.take(i as int) =~= s@);
    let mut out: Vec<char> = Vec::new();
    let mut j: usize = 0;
    while j < slug.len()
        invariant
            j <= slug.len(),
            out@ == collapse_hyphens(slug@.take(j as int)),
        decreases slug.len() - j,
    {
        assert(slug@.take(j + 1).drop_last() =~= slug@.take(j as int));
        let c = slug[j];
        if !(c == '-' && out.len() > 0 && out[out.len() - 1] == '-') {
            out.push(c);
        }
        j = j + 1;
    }
    assert(slug@.take(j as int) =~= slug@);
    out
}

fn trim_hyphens(s: &Vec<char>) -> (r: Vec<char>)
    ensures
        r@ == trim_end_hyphens(trim_start_hyphens(s@)),
{
    let n = s.len();
    let mut start: usize = 0;
    while start < n && s[start] == '-'
        invariant
            start <= n,
            n == s@.len(),
            forall|j: int| 0 <= j < start ==> s@[j] == '-',
        decreases n - start,
    {
        start = start + 1;
    }
    proof {
        lemma_trim_start_hyphens_skip(s@, start as int);
    }
    let ghost rest = s@.skip(start as int);
    let mut end: usize = n;
    while end > start && s[end - 1] == '-'
        invariant
            start <= end <= n,
            n == s@.len(),
            rest == s@.skip(start as int),
            forall|j: int| end <= j < n ==> s@[j] == '-',
        decreases end,
    {
        end = end - 1;
    }
    proof {
        lemma_trim_end_hyphens_take(rest, end - start);
        assert(rest.take(end - start) =~= s@.subrange(start as int, end as int));
    }
    let mut out: Vec<char> = Vec::new();
    let mut i: usize = start;
    while i < end
        invariant
            start <= i <= end <= n,
            n == s@.len(),
            out@ =~= s@.subrange(start as int, i as int),
        decreases end - i,
    {
        out.push(s[i]);
        i = i + 1;
    }
    out
}

/// Generate a branch name in the format `ab/<short_id>/<slugified_title>`.
pub fn generate_branch_name(task_id: &str, title: &str) -> (r: String)
    ensures
        r@ == branch_name_spec(task_id@, title@),
        is_lower_slug(title@) ==> r@ == "ab/"@ + take_chars(task_id@, 8) + "/"@ + title@,
        is_lower_slug(branch_slug(title@)),
{
    let id_chars = chars_of(task_id);
    let short = first_chars(&id_chars, 8);
    let lower = to_lowercase(title);
    proof {
        if is_lower_slug(title@) {
            lemma_lower_slug_is_its_own_slug(title@, lower@);
        }
        law_branch_slug_is_clean(title@);
        lemma_slug_no_upper(lower@);
    }
    let collapsed = slug_and_collapse(&chars_of(lower.as_str()));
    let trimmed = trim_hyphens(&collapsed);
    let cut = trim_hyphens(&first_chars(&trimmed, 50));
    proof {
        let t = take_chars(trimmed@, 50);
        lemma_trim_start_hyphens_first(collapsed@);
        lemma_trim_end_hyphens_prefix(trim_start_hyphens(collapsed@));
        if t.len() > 0 {
            assert(t[0] == trimmed@[0]);
            assert(trimmed@[0] == trim_start_hyphens(collapsed@)[0]);
        }
        assert(trim_start_hyphens(t) == t);
    }
    let mut out = owned("ab/");
    let mut i: usize = 0;
    while i < short.len()
        invariant
            i <= short.len(),
            out@ == "ab/"@ + short@.take(i as int),
        decreases short.len() - i,
    {
        push_char(&mut out, short[i]);
        i = i + 1;
        assert(out@ =~= "ab/"@ + short@.take(i as int));
    }
    assert(short@.take(i as int) =~= short@);
    push_str(&mut out, "/");
    if cut.len() == 0 {
        push_str(&mut out, "task");
    } else {
        let mut j: usize = 0;
        let ghost base = out@;
        while j < cut.len()
            invariant
                j <= cut.len(),
                out@ == base + cut@.take(j as int),
            decreases cut.len() - j,
        {
            push_char(&mut out, cut[j]);
            j = j + 1;
            assert(out@ =~= base + cut@.take(j as int));
        }
        assert(cut@.take(j as int) =~= cut@);
    }
    assert(out@ =~= branch_name_spec(task_id@, title@));
    out
}

} // verus!

verus! {

/// Only ASCII letters, digits and hyphens, and never two hyphens in a row.
pub open spec fn slug_alphabet(s: Seq<char>) -> bool {
    &&& forall|i: int| 0 <= i < s.len() ==> is_ascii_alnum(#[trigger] s[i]) || s[i] == '-'
    &&& forall|i: int| 0 <= i < s.len() - 1 ==> !(#[trigger] s[i] == '-' && s[i + 1] == '-')
}

/// A slug fit for a branch name: non-empty, at most 50 characters, made of
/// ASCII letters, digits and hyphens, never two hyphens in a row, and
/// neither starting nor ending with a hyphen.
pub open spec fn is_clean_slug(s: Seq<char>) -> bool {
    &&& 0 < s.len() <= 50
    &&& slug_alphabet(s)
    &&& s[0] != '-'
    &&& s.last() != '-'
}

proof fn lemma_slug_chars_alphabet(s: Seq<char>)
    ensures
        slug_chars(s).len() == s.len(),
        forall|i: int| 0 <= i < s.len() ==> is_ascii_alnum(#[trigger] slug_chars(s)[i]) || slug_chars(s)[i] == '-',
    decreases s.len(),
{
    if s.len() > 0 {
        lemma_slug_chars_alphabet(s.drop_last());
    }
}

proof fn lemma_collapse_alphabet(s: Seq<char>)
    requires
        forall|i: int| 0 <= i < s.len() ==> is_ascii_alnum(#[trigger] s[i]) || s[i] == '-',
    ensures
        slug_alphabet(collapse_hyphens(s)),
    decreases s.len(),
{
    if s.len() > 0 {
        let d = s.drop_last();
        assert forall|i: int| 0 <= i < d.len() implies is_ascii_alnum(#[trigger] d[i]) || d[i] == '-' by {
            assert(d[i] == s[i]);
        }
        lemma_collapse_alphabet(d);
    }
}

proof fn lemma_subrange_alphabet(s: Seq<char>, a: int, b: int)
    requires
        slug_alphabet(s),
        0 <= a <= b <= s.len(),
    ensures
        slug_alphabet(s.subrange(a, b)),
{
    let t = s.subrange(a, b);
    assert forall|i: int| 0 <= i < t.len() - 1 implies !(#[trigger] t[i] == '-' && t[i + 1] == '-') by {
        assert(t[i] == s[a + i] && t[i + 1] == s[a + i + 1]);
    }
}

proof fn lemma_trim_start_hyphens_suffix(s: Seq<char>)
    ensures
        trim_start_hyphens(s).len() <= s.len(),
        trim_start_hyphens(s) == s.subrange(s.len() - trim_start_hyphens(s).len(), s.len() as int),
    decreases s.len(),
{
    if s.len() > 0 && s[0] == '-' {
        lemma_trim_start_hyphens_suffix(s.drop_first());
        let r = trim_start_hyphens(s.drop_first());
        assert(s.drop_first().subrange(s.len() - 1 - r.len(), s.len() - 1) =~= s.subrange(s.len() - r.len(), s.len() as int));
    } else {
        assert(s.subrange(0, s.len() as int) =~= s);
    }
}

proof fn lemma_trim_end_hyphens_last(s: Seq<char>)
    ensures
        trim_end_hyphens(s).len() == 0 || trim_end_hyphens(s).last() != '-',
    decreases s.len(),
{
    if s.len() > 0 && s.last() == '-' {
        lemma_trim_end_hyphens_last(s.drop_last());
    }
}

/// Every branch name's slug is clean: a branch name never holds characters
/// that Git or a shell would treat specially.
pub proof fn law_branch_slug_is_clean(title: Seq<char>)
    ensures
        is_clean_slug(branch_slug(title)),
{
    let l = lowercase(title);
    lemma_slug_chars_alphabet(l);
    let c = collapse_hyphens(slug_chars(l));
    lemma_collapse_alphabet(slug_chars(l));
    let ts = trim_start_hyphens(c);
    lemma_trim_start_hyphens_suffix(c);
    lemma_subrange_alphabet(c, c.len() - ts.len(), c.len() as int);
    lemma_trim_start_hyphens_first(c);
    let trimmed = trim_end_hyphens(ts);
    lemma_trim_end_hyphens_prefix(ts);
    assert(ts.take(trimmed.len() as int) =~= ts.subrange(0, trimmed.len() as int));
    lemma_subrange_alphabet(ts, 0, trimmed.len() as int);
    let t = take_chars(trimmed, 50);
    if trimmed.len() > 50 {
        assert(trimmed.take(50) =~= trimmed.subrange(0, 50));
        lemma_subrange_alphabet(trimmed, 0, 50);
    }
    let cut = trim_end_hyphens(t);
    lemma_trim_end_hyphens_prefix(t);
    assert(t.take(cut.len() as int) =~= t.subrange(0, cut.len() as int));
    lemma_subrange_alphabet(t, 0, cut.len() as int);
    lemma_trim_end_hyphens_last(t);
    if cut.len() == 0 {
        reveal_strlit("task");
        assert(slug_alphabet("task"@));
    } else {
        assert(cut[0] == t[0]);
        assert(t[0] == trimmed[0]);
        assert(trimmed[0] == ts[0]);
    }
}

/// A clean slug in lower case (as every slug of an ASCII title is).
pub open spec fn is_lower_slug(s: Seq<char>) -> bool {
    &&& is_clean_slug(s)
    &&& forall|i: int| 0 <= i < s.len() ==> !('A' <= #[trigger] s[i] && s[i] <= 'Z')
}

proof fn lemma_slug_chars_keeps(s: Seq<char>)
    requires
        forall|i: int| 0 <= i < s.len() ==> is_ascii_alnum(#[trigger] s[i]) || s[i] == '-',
    ensures
        slug_chars(s) == s,
    decreases s.len(),
{
    if s.len() > 0 {
        let d = s.drop_last();
        assert forall|i: int| 0 <= i < d.len() implies is_ascii_alnum(#[trigger] d[i]) || d[i] == '-' by {
            assert(d[i] == s[i]);
        }
        lemma_slug_chars_keeps(d);
        assert(d.push(s.last()) =~= s);
    }
}

proof fn lemma_collapse_keeps(s: Seq<char>)
    requires
        forall|i: int| 0 <= i < s.len() - 1 ==> !(#[trigger] s[i] == '-' && s[i + 1] == '-'),
    ensures
        collapse_hyphens(s) == s,
    decreases s.len(),
{
    if s.len() > 0 {
        let d = s.drop_last();
        assert forall|i: int| 0 <= i < d.len() - 1 implies !(#[trigger] d[i] == '-' && d[i + 1] == '-') by {
            assert(d[i] == s[i] && d[i + 1] == s[i + 1]);
        }
        lemma_collapse_keeps(d);
        if s.len() >= 2 {
            assert(!(s[s.len() - 2] == '-' && s[s.len() - 1] == '-'));
            assert(d.last() == s[s.len() - 2]);
        }
        assert(d.push(s.last()) =~= s);
    }
}

/// A lower-case clean slug, lower-cased, is itself, and it is its own slug.
proof fn lemma_lower_slug_is_its_own_slug(s: Seq<char>, lowered: Seq<char>)
    requires
        is_lower_slug(s),
        vstd::utf8::is_ascii_chars(s) ==> lowered == s.map_values(|c: char| crate::text::ascii_lower(c)),
        lowered == lowercase(s),
    ensures
        branch_slug(s) == s,
{
    assert(vstd::utf8::is_ascii_chars(s)) by {
        assert forall|i: int| 0 <= i < s.len() implies '\0' <= #[trigger] s[i] <= '\u{7f}' by {
            assert(is_ascii_alnum(s[i]) || s[i] == '-');
        }
    }
    assert(lowered =~= s) by {
        assert forall|i: int| 0 <= i < s.len() implies lowered[i] == s[i] by {
            assert(!('A' <= s[i] && s[i] <= 'Z'));
        }
    }
    lemma_slug_chars_keeps(s);
    lemma_collapse_keeps(s);
    assert(trim_start_hyphens(s) == s);
    assert(trim_end_hyphens(s) == s);
    assert(take_chars(s, 50) == s);
}

/// No ASCII capital letter.
pub open spec fn no_upper(s: Seq<char>) -> bool {
    forall|i: int| 0 <= i < s.len() ==> !('A' <= #[trigger] s[i] && s[i] <= 'Z')
}

proof fn lemma_slug_chars_no_upper(s: Seq<char>)
    requires
        no_upper(s),
    ensures
        no_upper(slug_chars(s)),
    decreases s.len(),
{
    if s.len() > 0 {
        let d = s.drop_last();
        assert(no_upper(d)) by {
            assert forall|i: int| 0 <= i < d.len() implies !('A' <= #[trigger] d[i] && d[i] <= 'Z') by {
                assert(d[i] == s[i]);
            }
        }
        lemma_slug_chars_no_upper(d);
        let r = slug_chars(d);
        let x = if is_ascii_alnum(s.last()) { s.last() } else { '-' };
        assert(!('A' <= s[s.len() - 1] && s[s.len() - 1] <= 'Z'));
        assert forall|i: int| 0 <= i < r.push(x).len() implies !('A' <= #[trigger] r.push(x)[i] && r.push(x)[i] <= 'Z') by {
            if i < r.len() {
                assert(r.push(x)[i] == r[i]);
            }
        }
    }
}

proof fn lemma_collapse_no_upper(s: Seq<char>)
    requires
        no_upper(s),
    ensures
        no_upper(collapse_hyphens(s)),
    decreases s.len(),
{
    if s.len() > 0 {
        let d = s.drop_last();
        assert(no_upper(d)) by {
            assert forall|i: int| 0 <= i < d.len() implies !('A' <= #[trigger] d[i] && d[i] <= 'Z') by {
                assert(d[i] == s[i]);
            }
        }
        lemma_collapse_no_upper(d);
        let r = collapse_hyphens(d);
        let x = s.last();
        assert(!('A' <= s[s.len() - 1] && s[s.len() - 1] <= 'Z'));
        assert forall|i: int| 0 <= i < r.push(x).len() implies !('A' <= #[trigger] r.push(x)[i] && r.push(x)[i] <= 'Z') by {
            if i < r.len() {
                assert(r.push(x)[i] == r[i]);
            }
        }
    }
}

proof fn lemma_subrange_no_upper(s: Seq<char>, a: int, b: int)
    requires
        no_upper(s),
        0 <= a <= b <= s.len(),
    ensures
        no_upper(s.subrange(a, b)),
{
    let t = s.subrange(a, b);
    assert forall|i: int| 0 <= i < t.len() implies !('A' <= #[trigger] t[i] && t[i] <= 'Z') by {
        assert(t[i] == s[a + i]);
    }
}

/// The slug of a title whose lower-cased form holds no capital letter holds
/// none either.
proof fn lemma_slug_no_upper(lowered: Seq<char>)
    requires
        no_upper(lowered),
    ensures
        forall|title: Seq<char>| lowercase(title) == lowered ==> no_upper(#[trigger] branch_slug(title)),
{
    lemma_slug_chars_no_upper(lowered);
    let c = collapse_hyphens(slug_chars(lowered));
    lemma_collapse_no_upper(slug_chars(lowered));
    let ts = trim_start_hyphens(c);
    lemma_trim_start_hyphens_suffix(c);
    lemma_subrange_no_upper(c, c.len() - ts.len(), c.len() as int);
    let trimmed = trim_end_hyphens(ts);
    lemma_trim_end_hyphens_prefix(ts);
    assert(ts.take(trimmed.len() as int) =~= ts.subrange(0, trimmed.len() as int));
    lemma_subrange_no_upper(ts, 0, trimmed.len() as int);
    let t = take_chars(trimmed, 50);
    if trimmed.len() > 50 {
        assert(trimmed.take(50) =~= trimmed.subrange(0, 50));
        lemma_subrange_no_upper(trimmed, 0, 50);
    }
    let cut = trim_end_hyphens(t);
    lemma_trim_end_hyphens_prefix(t);
    assert(t.take(cut.len() as int) =~= t.subrange(0, cut.len() as int));
    lemma_subrange_no_upper(t, 0, cut.len() as int);
    reveal_strlit("task");
    assert(no_upper("task"@));
}

} // verus!
