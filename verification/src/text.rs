use vstd::prelude::*;
use vstd::string::StringExecFns;

verus! {

/// The characters of a string slice, in order.
pub fn chars_of(s: &str) -> (r: Vec<char>)
    ensures
        r@ == s@,
{
    let mut out: Vec<char> = Vec::new();
    for c in it: s.chars()
        invariant
            out@ == it.seq().take(it.index() as int),
    {
        out.push(c);
    }
    out
}

/// Append one character to a string (`String::push`).
#[verifier::external_body]
pub(crate) fn push_char(s: &mut String, c: char)
    ensures
        final(s)@ == old(s)@.push(c),
{
    s.push(c);
}

pub fn string_of(cs: &Vec<char>) -> (r: String)
    ensures
        r@ == cs@,
{
    let mut out = String::new();
    let mut i: usize = 0;
    while i < cs.len()
        invariant
            i <= cs.len(),
            out@ == cs@.take(i as int),
        decreases cs.len() - i,
    {
        push_char(&mut out, cs[i]);
        i = i + 1;
        assert(cs@.take(i as int) =~= cs@.take(i - 1).push(cs@[i - 1]));
    }
    assert(cs@.take(i as int) =~= cs@);
    out
}

} // verus!

verus! {

/// The views of a sequence of strings.
pub open spec fn strings_view(v: Seq<String>) -> Seq<Seq<char>> {
    v.map_values(|s: String| s@)
}

/// The views of a list of character vectors.
pub open spec fn strings_chars_view(v: Seq<Vec<char>>) -> Seq<Seq<char>> {
    v.map_values(|s: Vec<char>| s@)
}

/// The view of an optional string.
pub open spec fn opt_view(o: Option<String>) -> Option<Seq<char>> {
    match o {
        Some(s) => Some(s@),
        None => None,
    }
}

/// The view of an optional list of strings.
pub open spec fn opt_strings_view(o: Option<Vec<String>>) -> Option<Seq<Seq<char>>> {
    match o {
        Some(v) => Some(strings_view(v@)),
        None => None,
    }
}

/// The first of two options that holds a value.
pub open spec fn either<T>(a: Option<T>, b: Option<T>) -> Option<T> {
    match a {
        Some(x) => Some(x),
        None => b,
    }
}

pub fn copy_string(s: &String) -> (r: String)
    ensures
        r@ == s@,
{
    s.clone()
}

pub fn copy_opt_string(o: &Option<String>) -> (r: Option<String>)
    ensures
        opt_view(r) == opt_view(*o),
{
    match o {
        Some(s) => Some(s.clone()),
        None => None,
    }
}

pub fn copy_strings(v: &Vec<String>) -> (r: Vec<String>)
    ensures
        strings_view(r@) == strings_view(v@),
{
    let mut out: Vec<String> = Vec::new();
    let mut i: usize = 0;
    while i < v.len()
        invariant
            i <= v.len(),
            out@.len() == i,
            forall|j: int| 0 <= j < i ==> #[trigger] out@[j]@ == v@[j]@,
        decreases v.len() - i,
    {
        let s = v[i].clone();
        out.push(s);
        i = i + 1;
    }
    assert(strings_view(out@) =~= strings_view(v@));
    out
}

pub fn copy_opt_strings(o: &Option<Vec<String>>) -> (r: Option<Vec<String>>)
    ensures
        opt_strings_view(r) == opt_strings_view(*o),
{
    match o {
        Some(v) => Some(copy_strings(v)),
        None => None,
    }
}

/// Whether a list of strings holds one equal to `needle`.
pub fn contains_string(v: &Vec<String>, needle: &String) -> (r: bool)
    ensures
        r == strings_view(v@).contains(needle@),
{
    let mut i: usize = 0;
    while i < v.len()
        invariant
            i <= v.len(),
            forall|j: int| 0 <= j < i ==> v@[j]@ != needle@,
        decreases v.len() - i,
    {
        if v[i] == *needle {
            assert(strings_view(v@)[i as int] == needle@);
            return true;
        }
        i = i + 1;
    }
    assert forall|j: int| 0 <= j < strings_view(v@).len() implies strings_view(v@)[j] != needle@ by {}
    false
}

/// A string holding a copy of a string slice.
pub fn owned(s: &str) -> (r: String)
    ensures
        r@ == s@,
{
    s.to_owned()
}

} // verus!

verus! {

/// Unicode lower-case mapping of a string, as `str::to_lowercase` computes it.
pub uninterp spec fn lowercase(s: Seq<char>) -> Seq<char>;

/// An ASCII character lower-cased: `A`..`Z` become `a`..`z`, any other
/// character stays.
pub open spec fn ascii_lower(c: char) -> char {
    if 'A' <= c && c <= 'Z' {
        ((c as u32) + 32) as char
    } else {
        c
    }
}

/// `str::to_lowercase`: the lower-case mapping of every character. It
/// depends on the string alone (no locale); on ASCII text it lower-cases
/// the letters and keeps every other character; and no lower-case mapping
/// is an ASCII capital letter.
#[verifier::external_body]
pub(crate) fn to_lowercase(s: &str) -> (r: String)
    ensures
        r@ == lowercase(s@),
        forall|i: int| 0 <= i < r@.len() ==> !('A' <= #[trigger] r@[i] && r@[i] <= 'Z'),
        vstd::utf8::is_ascii_chars(s@) ==> r@ == s@.map_values(|c: char| ascii_lower(c)),
{
    s.to_lowercase()
}

/// Whether `needle` occurs in `hay` as a contiguous run.
pub open spec fn contains_seq<T>(hay: Seq<T>, needle: Seq<T>) -> bool {
    exists|i: int| 0 <= i && i + needle.len() <= hay.len() && #[trigger] hay.subrange(i, i + needle.len()) == needle
}

/// Whether `needle` occurs in `hay` starting at position `i`.
pub open spec fn occurs_at<T>(hay: Seq<T>, needle: Seq<T>, i: int) -> bool {
    0 <= i && i + needle.len() <= hay.len() && forall|k: int| 0 <= k < needle.len() ==> hay[i + k] == needle[k]
}

proof fn lemma_occurs_at_subrange<T>(hay: Seq<T>, needle: Seq<T>, i: int)
    requires
        0 <= i && i + needle.len() <= hay.len(),
    ensures
        occurs_at(hay, needle, i) <==> hay.subrange(i, i + needle.len()) == needle,
{
    if occurs_at(hay, needle, i) {
        assert(hay.subrange(i, i + needle.len()) =~= needle);
    }
    if hay.subrange(i, i + needle.len()) == needle {
        assert forall|k: int| 0 <= k < needle.len() implies hay[i + k] == needle[k] by {
            assert(hay.subrange(i, i + needle.len())[k] == hay[i + k]);
        }
    }
}

/// Whether `needle` occurs in `hay` at position `i`.
pub fn matches_at(hay: &Vec<char>, needle: &Vec<char>, i: usize) -> (r: bool)
    requires
        i + needle.len() <= hay.len(),
    ensures
        r == occurs_at(hay@, needle@, i as int),
{
    let mut k: usize = 0;
    while k < needle.len()
        invariant
            k <= needle.len(),
            i + needle.len() <= hay.len(),
            forall|j: int| 0 <= j < k ==> hay@[i + j] == needle@[j],
        decreases needle.len() - k,
    {
        if hay[i + k] != needle[k] {
            return false;
        }
        k = k + 1;
    }
    true
}

/// Whether `needle` occurs in `hay`.
pub fn find_seq(hay: &Vec<char>, needle: &Vec<char>) -> (r: bool)
    ensures
        r == contains_seq(hay@, needle@),
{
    if needle.len() > hay.len() {
        return false;
    }
    let last = hay.len() - needle.len();
    let mut i: usize = 0;
    loop
        invariant_except_break
            i <= last,
            forall|j: int| 0 <= j < i ==> !occurs_at(hay@, needle@, j),
        invariant
            last == hay.len() - needle.len(),
            needle.len() <= hay.len(),
        ensures
            forall|j: int| 0 <= j <= last ==> !occurs_at(hay@, needle@, j),
        decreases last - i,
    {
        if matches_at(hay, needle, i) {
            proof {
                lemma_occurs_at_subrange(hay@, needle@, i as int);
            }
            return true;
        }
        if i == last {
            break;
        }
        i = i + 1;
    }
    proof {
        assert forall|j: int| 0 <= j && j + needle@.len() <= hay@.len() implies #[trigger] hay@.subrange(j, j + needle@.len()) != needle@ by {
            lemma_occurs_at_subrange(hay@, needle@, j);
        }
    }
    false
}

/// Whether `pattern` occurs in `text`, ignoring case.
pub open spec fn contains_ci(text: Seq<char>, pattern: Seq<char>) -> bool {
    contains_seq(lowercase(text), lowercase(pattern))
}

/// Whether `pattern` occurs in `text`, both lower-cased first.
pub fn contains_case_insensitive(text: &str, pattern: &str) -> (r: bool)
    ensures
        r == contains_ci(text@, pattern@),
{
    let t = to_lowercase(text);
    let p = to_lowercase(pattern);
    find_seq(&chars_of(t.as_str()), &chars_of(p.as_str()))
}

/// Whether `needle` occurs in `text`.
pub fn contains_str(text: &str, needle: &str) -> (r: bool)
    ensures
        r == contains_seq(text@, needle@),
{
    find_seq(&chars_of(text), &chars_of(needle))
}

} // verus!

verus! {

/// Append a string slice.
pub(crate) fn push_str(s: &mut String, t: &str)
    ensures
        final(s)@ == old(s)@ + t@,
{
    s.append(t);
}

/// The words joined with `sep` between each two of them.
pub open spec fn join(words: Seq<Seq<char>>, sep: Seq<char>) -> Seq<char>
    decreases words.len(),
{
    if words.len() == 0 {
        Seq::empty()
    } else if words.len() == 1 {
        words[0]
    } else {
        join(words.drop_last(), sep) + sep + words.last()
    }
}

pub proof fn lemma_join_push(words: Seq<Seq<char>>, sep: Seq<char>, w: Seq<char>)
    requires
        words.len() > 0,
    ensures
        join(words.push(w), sep) == join(words, sep) + sep + w,
{
    assert(words.push(w).drop_last() =~= words);
}

} // verus!

verus! {

/// Whether two character vectors are equal.
pub fn seq_eq(a: &Vec<char>, b: &Vec<char>) -> (r: bool)
    ensures
        r == (a@ == b@),
{
    if a.len() != b.len() {
        return false;
    }
    let mut i: usize = 0;
    while i < a.len()
        invariant
            i <= a.len(),
            a.len() == b.len(),
            forall|j: int| 0 <= j < i ==> a@[j] == b@[j],
        decreases a.len() - i,
    {
        if a[i] != b[i] {
            return false;
        }
        i = i + 1;
    }
    assert(a@ =~= b@);
    true
}

/// Whether two string slices are equal.
pub fn str_eq(a: &str, b: &str) -> (r: bool)
    ensures
        r == (a@ == b@),
{
    seq_eq(&chars_of(a), &chars_of(b))
}

/// The views of a sequence of string slices.
pub open spec fn strs_view(v: Seq<&str>) -> Seq<Seq<char>> {
    v.map_values(|s: &str| s@)
}

} // verus!

verus! {

// ---------------------------------------------------------------------------
// Whitespace and lines
// ---------------------------------------------------------------------------

/// The Unicode `White_Space` characters, which `char::is_whitespace`
/// recognises and `str::trim` removes.
pub open spec fn is_ws(c: char) -> bool {
    (c as u32 >= 0x09 && c as u32 <= 0x0d) || c as u32 == 0x20 || c as u32 == 0x85 || c as u32 == 0xa0
        || c as u32 == 0x1680 || (c as u32 >= 0x2000 && c as u32 <= 0x200a) || c as u32 == 0x2028
        || c as u32 == 0x2029 || c as u32 == 0x202f || c as u32 == 0x205f || c as u32 == 0x3000
}

/// `char::is_whitespace`.
pub fn is_whitespace(c: char) -> (r: bool)
    ensures
        r == is_ws(c),
{
    let u = c as u32;
    (u >= 0x09 && u <= 0x0d) || u == 0x20 || u == 0x85 || u == 0xa0 || u == 0x1680 || (u >= 0x2000 && u <= 0x200a)
        || u == 0x2028 || u == 0x2029 || u == 0x202f || u == 0x205f || u == 0x3000
}

/// The text without its leading whitespace.
pub open spec fn trim_start(s: Seq<char>) -> Seq<char>
    decreases s.len(),
{
    if s.len() > 0 && is_ws(s[0]) {
        trim_start(s.drop_first())
    } else {
        s
    }
}

/// The text without its trailing whitespace.
pub open spec fn trim_end(s: Seq<char>) -> Seq<char>
    decreases s.len(),
{
    if s.len() > 0 && is_ws(s.last()) {
        trim_end(s.drop_last())
    } else {
        s
    }
}

/// The text without leading and trailing whitespace.
pub open spec fn trim(s: Seq<char>) -> Seq<char> {
    trim_end(trim_start(s))
}

proof fn lemma_trim_start_skip(s: Seq<char>, i: int)
    requires
        0 <= i <= s.len(),
        forall|j: int| 0 <= j < i ==> is_ws(s[j]),
    ensures
        trim_start(s) == trim_start(s.skip(i)),
    decreases i,
{
    if i > 0 {
        assert(s.skip(1) =~= s.drop_first());
        lemma_trim_start_skip(s.drop_first(), i - 1);
        assert(s.drop_first().skip(i - 1) =~= s.skip(i));
    } else {
        assert(s.skip(0) =~= s);
    }
}

proof fn lemma_trim_end_take(s: Seq<char>, k: int)
    requires
        0 <= k <= s.len(),
        forall|j: int| k <= j < s.len() ==> is_ws(s[j]),
    ensures
        trim_end(s) == trim_end(s.take(k)),
    decreases s.len() - k,
{
    if k < s.len() {
        assert(s.drop_last().take(k) =~= s.take(k));
        lemma_trim_end_take(s.drop_last(), k);
    } else {
        assert(s.take(k) =~= s);
    }
}

/// The characters without trailing whitespace.
pub fn trim_end_chars(s: &Vec<char>) -> (r: Vec<char>)
    ensures
        r@ == trim_end(s@),
{
    let mut end: usize = s.len();
    while end > 0 && is_whitespace(s[end - 1])
        invariant
            0 <= end <= s@.len(),
            forall|j: int| end <= j < s@.len() ==> is_ws(s@[j]),
        decreases end,
    {
        end = end - 1;
    }
    proof {
        lemma_trim_end_take(s@, end as int);
        let t = s@.take(end as int);
        if end > 0 {
            assert(!is_ws(t.last()));
        }
    }
    let mut out: Vec<char> = Vec::new();
    let mut i: usize = 0;
    while i < end
        invariant
            0 <= i <= end <= s@.len(),
            out@ =~= s@.take(i as int),
        decreases end - i,
    {
        out.push(s[i]);
        i = i + 1;
    }
    out
}

/// The characters without leading and trailing whitespace.
pub fn trim_chars(s: &Vec<char>) -> (r: Vec<char>)
    ensures
        r@ == trim(s@),
{
    let n = s.len();
    let mut start: usize = 0;
    while start < n && is_whitespace(s[start])
        invariant
            start <= n,
            n == s@.len(),
            forall|j: int| 0 <= j < start ==> is_ws(s@[j]),
        decreases n - start,
    {
        start = start + 1;
    }
    proof {
        lemma_trim_start_skip(s@, start as int);
    }
    let ghost rest = s@.skip(start as int);
    assert(trim_start(s@) == rest);
    let mut end: usize = n;
    while end > start && is_whitespace(s[end - 1])
        invariant
            start <= end <= n,
            n == s@.len(),
            rest == s@.skip(start as int),
            forall|j: int| end <= j < n ==> is_ws(s@[j]),
        decreases end,
    {
        end = end - 1;
    }
    proof {
        lemma_trim_end_take(rest, end - start);
        assert(rest.take(end - start) =~= s@.subrange(start as int, end as int));
    }
    let mut out: Vec<char> = Vec::new();
    let mut i: usize = start;
    while i < end
        invariant
            start <= i <= end <= n,
            n == s@.len(),
            out@ =~= s@.subrange(start as int, i as int),
        decreases end - i,
    {
        out.push(s[i]);
        i = i + 1;
    }
    out
}

/// The string without leading and trailing whitespace.
pub fn trim_str(s: &str) -> (r: Vec<char>)
    ensures
        r@ == trim(s@),
{
    trim_chars(&chars_of(s))
}

/// Number of characters before the first newline (all of them if none).
pub open spec fn line_end(s: Seq<char>) -> nat
    decreases s.len(),
{
    if s.len() == 0 {
        0
    } else if s[0] == '\n' {
        0
    } else {
        1 + line_end(s.drop_first())
    }
}

/// A line without the carriage return of a CRLF ending.
pub open spec fn strip_cr(s: Seq<char>) -> Seq<char> {
    if s.len() > 0 && s.last() == '\r' {
        s.drop_last()
    } else {
        s
    }
}

/// The lines of a text, as `str::lines` gives them: split at `\n`, a `\r`
/// before the `\n` dropped, and no empty line after a final newline.
pub open spec fn lines_of(s: Seq<char>) -> Seq<Seq<char>>
    decreases s.len(),
{
    if s.len() == 0 {
        Seq::empty()
    } else if line_end(s) == s.len() {
        seq![s]
    } else {
        proof {
            lemma_line_end_bound(s);
        }
        seq![strip_cr(s.take(line_end(s) as int))] + lines_of(s.skip(line_end(s) as int + 1))
    }
}

pub proof fn lemma_line_end_bound(s: Seq<char>)
    ensures
        line_end(s) <= s.len(),
        line_end(s) < s.len() ==> s[line_end(s) as int] == '\n',
        forall|j: int| 0 <= j < line_end(s) ==> s[j] != '\n',
    decreases s.len(),
{
    if s.len() > 0 && s[0] != '\n' {
        lemma_line_end_bound(s.drop_first());
        assert forall|j: int| 0 <= j < line_end(s) implies s[j] != '\n' by {
            if j > 0 {
                assert(s[j] == s.drop_first()[j - 1]);
            }
        }
    }
}

proof fn lemma_line_end_prefix(cur: Seq<char>, t: Seq<char>)
    requires
        forall|j: int| 0 <= j < cur.len() ==> cur[j] != '\n',
    ensures
        line_end(cur + t) == cur.len() + line_end(t),
    decreases cur.len(),
{
    if cur.len() > 0 {
        assert((cur + t).drop_first() =~= cur.drop_first() + t);
        lemma_line_end_prefix(cur.drop_first(), t);
    } else {
        assert(cur + t =~= t);
    }
}

proof fn lemma_lines_newline(cur: Seq<char>, t: Seq<char>)
    requires
        forall|j: int| 0 <= j < cur.len() ==> cur[j] != '\n',
    ensures
        lines_of(cur + seq!['\n'] + t) == seq![strip_cr(cur)] + lines_of(t),
{
    let s = cur + seq!['\n'] + t;
    assert(s =~= cur + (seq!['\n'] + t));
    lemma_line_end_prefix(cur, seq!['\n'] + t);
    assert((seq!['\n'] + t)[0] == '\n');
    assert(s.take(cur.len() as int) =~= cur);
    assert(s.skip(cur.len() as int + 1) =~= t);
}

proof fn lemma_lines_last(cur: Seq<char>)
    requires
        forall|j: int| 0 <= j < cur.len() ==> cur[j] != '\n',
    ensures
        lines_of(cur) == (if cur.len() == 0 { Seq::<Seq<char>>::empty() } else { seq![cur] }),
{
    lemma_line_end_prefix(cur, Seq::empty());
    assert(cur + Seq::<char>::empty() =~= cur);
}

/// The lines of a text, as `str::lines` gives them.
pub fn split_lines(s: &str) -> (r: Vec<Vec<char>>)
    ensures
        r@.len() == lines_of(s@).len(),
        forall|k: int| 0 <= k < r@.len() ==> #[trigger] r@[k]@ == lines_of(s@)[k],
{
    let cs = chars_of(s);
    let n = cs.len();
    let mut out: Vec<Vec<char>> = Vec::new();
    let mut cur: Vec<char> = Vec::new();
    let ghost done: Seq<Seq<char>> = Seq::empty();
    let mut i: usize = 0;
    assert(cs@.skip(0) =~= cs@);
    assert(cur@ + cs@ =~= cs@);
    while i < n
        invariant
            i <= n,
            n == cs@.len(),
            cs@ == s@,
            out@.len() == done.len(),
            forall|k: int| 0 <= k < out@.len() ==> #[trigger] out@[k]@ == done[k],
            forall|j: int| 0 <= j < cur@.len() ==> cur@[j] != '\n',
            lines_of(s@) == done + lines_of(cur@ + cs@.skip(i as int)),
        decreases n - i,
    {
        let c = cs[i];
        assert(cs@.skip(i as int) =~= seq![c] + cs@.skip(i + 1));
        if c == '\n' {
            proof {
                lemma_lines_newline(cur@, cs@.skip(i + 1));
                assert(cur@ + cs@.skip(i as int) =~= cur@ + seq!['\n'] + cs@.skip(i + 1));
            }
            let mut line = cur;
            if line.len() > 0 && line[line.len() - 1] == '\r' {
                line.pop();
                assert(line@ =~= strip_cr(cur@));
            }
            proof {
                done = done.push(strip_cr(cur@));
            }
            out.push(line);
            cur = Vec::new();
            assert(cur@ + cs@.skip(i + 1) =~= cs@.skip(i + 1));
        } else {
            assert(cur@ + cs@.skip(i as int) =~= cur@.push(c) + cs@.skip(i + 1));
            cur.push(c);
        }
        i = i + 1;
    }
    proof {
        lemma_lines_last(cur@);
        assert(cs@.skip(n as int) =~= Seq::<char>::empty());
        assert(cur@ + Seq::<char>::empty() =~= cur@);
    }
    if cur.len() > 0 {
        proof {
            done = done.push(cur@);
        }
        out.push(cur);
    }
    proof {
        assert(lines_of(s@) =~= done);
    }
    out
}

} // verus!

verus! {

// ---------------------------------------------------------------------------
// Byte offsets into UTF-8 text
// ---------------------------------------------------------------------------

/// The length in bytes of a text's UTF-8 encoding.
pub open spec fn utf8_len(s: Seq<char>) -> nat {
    vstd::utf8::encode_utf8(s).len()
}

/// Whether a byte offset falls between two characters of a text.
pub open spec fn byte_boundary(s: Seq<char>, n: int) -> bool {
    vstd::utf8::is_char_boundary(vstd::utf8::encode_utf8(s), n)
}

/// The text made of the first `n` bytes of a text's encoding.
pub open spec fn byte_prefix(s: Seq<char>, n: int) -> Seq<char> {
    vstd::utf8::decode_utf8(vstd::utf8::encode_utf8(s).subrange(0, n))
}

/// `&s[..n]`: the first `n` bytes of a string slice.
pub fn prefix_bytes(s: &str, n: usize) -> (r: &str)
    requires
        byte_boundary(s@, n as int),
    ensures
        r@ == byte_prefix(s@, n as int),
{
    broadcast use vstd::utf8::encode_utf8_decode_utf8;

    let (a, _b) = s.split_at(n);
    assert(vstd::utf8::decode_utf8(vstd::utf8::encode_utf8(a@)) == a@);
    a
}

/// In ASCII text every byte offset falls between characters, and a byte
/// prefix is the character prefix of the same length.
pub proof fn lemma_ascii_byte_prefix(s: Seq<char>, n: int)
    requires
        vstd::utf8::is_ascii_chars(s),
        0 <= n <= s.len(),
    ensures
        utf8_len(s) == s.len(),
        byte_boundary(s, n),
        byte_prefix(s, n) == s.take(n),
{
    broadcast use vstd::utf8::group_utf8_lib;

    let bytes = vstd::utf8::encode_utf8(s);
    assert(vstd::utf8::valid_utf8(bytes));
    if n < s.len() {
        assert(bytes[n] == s[n] as u8);
        assert(!vstd::utf8::is_continuation_byte(bytes[n]));
    } else {
        vstd::utf8::is_char_boundary_start_end_of_seq(bytes);
    }
    let t = s.take(n);
    assert(vstd::utf8::is_ascii_chars(t));
    let tb = vstd::utf8::encode_utf8(t);
    assert(tb =~= bytes.subrange(0, n));
}

/// The number of bytes that a short id takes: eight, or all of a shorter
/// text.
pub open spec fn short_len(s: Seq<char>) -> int {
    if utf8_len(s) < 8 {
        utf8_len(s) as int
    } else {
        8
    }
}

/// The short form of an id: its first eight bytes (all of a shorter id).
pub open spec fn short_id_of(s: Seq<char>) -> Seq<char> {
    byte_prefix(s, short_len(s))
}

/// `&id[..id.len().min(8)]`.
pub fn short_id(id: &str) -> (r: &str)
    requires
        byte_boundary(id@, short_len(id@)),
    ensures
        r@ == short_id_of(id@),
{
    let n = id.as_bytes().len();
    let k = if n < 8 {
        n
    } else {
        8
    };
    prefix_bytes(id, k)
}

/// The first `n` characters of the text (all of a shorter text).
pub open spec fn take_chars(s: Seq<char>, n: int) -> Seq<char> {
    if s.len() <= n {
        s
    } else {
        s.take(n)
    }
}

/// `s.chars().take(n)` collected.
pub fn first_chars(s: &Vec<char>, n: usize) -> (r: Vec<char>)
    ensures
        r@ == take_chars(s@, n as int),
{
    let mut out: Vec<char> = Vec::new();
    let mut i: usize = 0;
    while i < n && i < s.len()
        invariant
            i <= s.len(),
            i <= n,
            out@ =~= s@.take(i as int),
        decreases s.len() - i,
    {
        out.push(s[i]);
        i = i + 1;
    }
    assert(s@.len() <= n ==> s@.take(i as int) =~= s@);
    out
}

} // verus!

verus! {

/// The decimal digit for a number below ten.
pub open spec fn digit_char(d: nat) -> char {
    ((48 + d) as u8) as char
}

/// The decimal representation of a number, as `to_string` writes it.
pub open spec fn decimal(n: nat) -> Seq<char>
    decreases n,
{
    if n < 10 {
        seq![digit_char(n)]
    } else {
        decimal(n / 10).push(digit_char(n % 10))
    }
}

/// The decimal representation of a number.
pub fn decimal_text(n: usize) -> (r: String)
    ensures
        r@ == decimal(n as nat),
    decreases n,
{
    if n < 10 {
        let mut s = String::new();
        push_char(&mut s, ((48 + n) as u8) as char);
        s
    } else {
        let mut s = decimal_text(n / 10);
        push_char(&mut s, ((48 + n % 10) as u8) as char);
        s
    }
}

} // verus!

verus! {

/// Append characters to a string.
pub fn push_chars(s: &mut String, cs: &Vec<char>)
    ensures
        final(s)@ == old(s)@ + cs@,
{
    let ghost base = s@;
    let mut i: usize = 0;
    while i < cs.len()
        invariant
            i <= cs.len(),
            s@ == base + cs@.take(i as int),
        decreases cs.len() - i,
    {
        push_char(s, cs[i]);
        i = i + 1;
        assert(s@ =~= base + cs@.take(i as int));
    }
    assert(cs@.take(i as int) =~= cs@);
}

} // verus!

verus! {

// ---------------------------------------------------------------------------
// Character offsets measured in bytes
// ---------------------------------------------------------------------------

/// Encoding a concatenation encodes each part in turn.
pub proof fn lemma_encode_concat(a: Seq<char>, b: Seq<char>)
    ensures
        vstd::utf8::encode_utf8(a + b) == vstd::utf8::encode_utf8(a) + vstd::utf8::encode_utf8(b),
    decreases a.len(),
{
    if a.len() == 0 {
        assert(a + b =~= b);
        assert(vstd::utf8::encode_utf8(a) =~= Seq::<u8>::empty());
        assert(vstd::utf8::encode_utf8(a) + vstd::utf8::encode_utf8(b) =~= vstd::utf8::encode_utf8(b));
    } else {
        lemma_encode_concat(a.drop_first(), b);
        assert((a + b).drop_first() =~= a.drop_first() + b);
        assert((a + b)[0] == a[0]);
        let head = vstd::utf8::encode_scalar(a[0] as u32);
        assert(vstd::utf8::encode_utf8(a) + vstd::utf8::encode_utf8(b) =~= head + (
        vstd::utf8::encode_utf8(a.drop_first()) + vstd::utf8::encode_utf8(b)));
    }
}

/// The number of bytes that one character takes in UTF-8.
pub open spec fn char_width(c: char) -> nat {
    utf8_len(seq![c])
}

pub proof fn lemma_char_width(c: char)
    ensures
        1 <= char_width(c) <= 4,
        (c as u32) < 0x80 ==> char_width(c) == 1,
        0x80 <= (c as u32) < 0x800 ==> char_width(c) == 2,
        0x800 <= (c as u32) < 0x10000 ==> char_width(c) == 3,
        0x10000 <= (c as u32) ==> char_width(c) == 4,
{
    broadcast use vstd::utf8::char_is_scalar;

    let s = seq![c];
    assert(s.drop_first() =~= Seq::<char>::empty());
    assert(vstd::utf8::encode_utf8(s.drop_first()) =~= Seq::<u8>::empty());
    assert(vstd::utf8::encode_utf8(s) =~= vstd::utf8::encode_scalar(c as u32));
}

/// The bytes of the first `k + 1` characters are those of the first `k`
/// and of the next one.
pub proof fn lemma_utf8_len_step(s: Seq<char>, k: int)
    requires
        0 <= k < s.len(),
    ensures
        utf8_len(s.take(k + 1)) == utf8_len(s.take(k)) + char_width(s[k]),
{
    assert(s.take(k + 1) =~= s.take(k) + seq![s[k]]);
    lemma_encode_concat(s.take(k), seq![s[k]]);
}

/// Byte offsets of character positions grow strictly with the position.
pub proof fn lemma_utf8_len_grows(s: Seq<char>, j: int, k: int)
    requires
        0 <= j <= k <= s.len(),
    ensures
        utf8_len(s.take(j)) + (k - j) <= utf8_len(s.take(k)),
    decreases k - j,
{
    if j < k {
        lemma_utf8_len_grows(s, j, k - 1);
        lemma_utf8_len_step(s, k - 1);
        lemma_char_width(s[k - 1]);
    }
}

/// A prefix takes no more bytes than the whole text.
pub proof fn lemma_utf8_len_prefix(s: Seq<char>, k: int)
    requires
        0 <= k <= s.len(),
    ensures
        utf8_len(s.take(k)) + (s.len() - k) <= utf8_len(s),
{
    assert(s.take(s.len() as int) =~= s);
    lemma_utf8_len_grows(s, k, s.len() as int);
}

/// Whether a byte offset falls between two characters of a text (or at an
/// end), measured over the characters themselves.
pub open spec fn at_char_start(s: Seq<char>, pos: int) -> bool {
    exists|k: int| 0 <= k <= s.len() && pos == utf8_len(#[trigger] s.take(k))
}

/// The position, counted in characters, of a byte offset between two
/// characters.
pub open spec fn char_index(s: Seq<char>, pos: int) -> int {
    choose|k: int| 0 <= k <= s.len() && pos == utf8_len(#[trigger] s.take(k))
}

/// The character position of the byte offset of position `k` is `k`.
pub proof fn lemma_char_index(s: Seq<char>, k: int)
    requires
        0 <= k <= s.len(),
    ensures
        at_char_start(s, utf8_len(s.take(k)) as int),
        char_index(s, utf8_len(s.take(k)) as int) == k,
{
    let pos = utf8_len(s.take(k)) as int;
    assert(0 <= k <= s.len() && pos == utf8_len(s.take(k)));
    let j = char_index(s, pos);
    if j < k {
        lemma_utf8_len_grows(s, j, k);
    } else if k < j {
        lemma_utf8_len_grows(s, k, j);
    }
}

/// `char::len_utf8`.
pub fn len_utf8(c: char) -> (r: usize)
    ensures
        r == char_width(c),
        1 <= r <= 4,
{
    proof {
        lemma_char_width(c);
    }
    let u: u32 = c as u32;
    if u < 0x80 {
        1
    } else if u < 0x800 {
        2
    } else if u < 0x10000 {
        3
    } else {
        4
    }
}

} // verus!

verus! {

// ---------------------------------------------------------------------------
// Lexicographic order
// ---------------------------------------------------------------------------

/// Lexicographic order on texts, character by character (for UTF-8 text the
/// same as the order of the bytes).
pub open spec fn lex_lt(a: Seq<char>, b: Seq<char>) -> bool
    decreases a.len(),
{
    if a.len() == 0 {
        b.len() > 0
    } else if b.len() == 0 {
        false
    } else if a[0] != b[0] {
        (a[0] as u32) < (b[0] as u32)
    } else {
        lex_lt(a.drop_first(), b.drop_first())
    }
}

pub proof fn lemma_lex_irreflexive(a: Seq<char>)
    ensures
        !lex_lt(a, a),
    decreases a.len(),
{
    if a.len() > 0 {
        lemma_lex_irreflexive(a.drop_first());
    }
}

pub proof fn lemma_lex_total(a: Seq<char>, b: Seq<char>)
    ensures
        a == b || lex_lt(a, b) || lex_lt(b, a),
        !(lex_lt(a, b) && lex_lt(b, a)),
    decreases a.len(),
{
    broadcast use vstd::utf8::char_u32_cast;

    if a.len() > 0 && b.len() > 0 {
        lemma_lex_total(a.drop_first(), b.drop_first());
        if a[0] == b[0] && a.drop_first() == b.drop_first() {
            assert(a =~= seq![a[0]] + a.drop_first());
            assert(b =~= seq![b[0]] + b.drop_first());
        }
        if a[0] != b[0] {
            assert((a[0] as u32) != (b[0] as u32)) by {
                if (a[0] as u32) == (b[0] as u32) {
                    vstd::utf8::char_u32_cast(a[0], a[0] as u32);
                    vstd::utf8::char_u32_cast(b[0], b[0] as u32);
                }
            }
        }
    } else if a.len() == 0 && b.len() == 0 {
        assert(a =~= b);
    }
}

pub proof fn lemma_lex_transitive(a: Seq<char>, b: Seq<char>, c: Seq<char>)
    requires
        lex_lt(a, b),
        lex_lt(b, c),
    ensures
        lex_lt(a, c),
    decreases a.len(),
{
    if a.len() > 0 && b.len() > 0 && c.len() > 0 && a[0] == b[0] && b[0] == c[0] {
        lemma_lex_transitive(a.drop_first(), b.drop_first(), c.drop_first());
    }
}

/// Whether `a` comes strictly before `b` in lexicographic order.
pub fn str_lt(a: &str, b: &str) -> (r: bool)
    ensures
        r == lex_lt(a@, b@),
{
    let x = chars_of(a);
    let y = chars_of(b);
    let mut i: usize = 0;
    proof {
        assert(x@.skip(0) =~= x@);
        assert(y@.skip(0) =~= y@);
    }
    while i < x.len() && i < y.len() && x[i] == y[i]
        invariant
            0 <= i <= x.len(),
            i <= y.len(),
            lex_lt(x@, y@) == lex_lt(x@.skip(i as int), y@.skip(i as int)),
        decreases x.len() - i,
    {
        proof {
            assert(x@.skip(i as int).drop_first() =~= x@.skip(i + 1));
            assert(y@.skip(i as int).drop_first() =~= y@.skip(i + 1));
        }
        i = i + 1;
    }
    if i == x.len() {
        i < y.len()
    } else if i == y.len() {
        false
    } else {
        (x[i] as u32) < (y[i] as u32)
    }
}

} // verus!
