//! Walking a pane's process tree: the list of child process ids that the
//! system reports for a process, and the order in which the tree is visited
//! (each process once, even where the reports form a cycle).
use vstd::prelude::*;
use crate::text::{chars_of, is_whitespace, is_ws};
use crate::tmux::{ProcessInfo, process_matches, process_matches_spec};

verus! {

// ---------------------------------------------------------------------------
// Lists of process ids
// ---------------------------------------------------------------------------

/// The whitespace-separated words of a text, as `str::split_whitespace`
/// gives them: the finished words and the word still being read.
pub open spec fn split_ws(s: Seq<char>) -> (Seq<Seq<char>>, Seq<char>)
    decreases s.len(),
{
    if s.len() == 0 {
        (seq![], seq![])
    } else {
        let (words, cur) = split_ws(s.drop_last());
        if is_ws(s.last()) {
            if cur.len() > 0 {
                (words.push(cur), seq![])
            } else {
                (words, seq![])
            }
        } else {
            (words, cur.push(s.last()))
        }
    }
}

/// The whitespace-separated words of a text.
pub open spec fn words_of(s: Seq<char>) -> Seq<Seq<char>> {
    let (words, cur) = split_ws(s);
    if cur.len() > 0 {
        words.push(cur)
    } else {
        words
    }
}

pub open spec fn is_digit(c: char) -> bool {
    '0' <= c && c <= '9'
}

/// The value of a run of decimal digits.
pub open spec fn digits_value(d: Seq<char>) -> nat
    decreases d.len(),
{
    if d.len() == 0 {
        0
    } else {
        digits_value(d.drop_last()) * 10 + ((d.last() as u32 - 48) as nat)
    }
}

/// A word without its leading `+`, if it has one.
pub open spec fn digits_part(w: Seq<char>) -> Seq<char> {
    if w.len() > 0 && w[0] == '+' {
        w.drop_first()
    } else {
        w
    }
}

/// Whether every character is a decimal digit.
pub open spec fn all_digits(d: Seq<char>) -> bool {
    forall|i: int| 0 <= i < d.len() ==> is_digit(#[trigger] d[i])
}

/// A word read as a `u32` (as `str::parse::<u32>` reads it): an optional
/// `+`, then one or more decimal digits, of a value that fits.
pub open spec fn parse_u32_spec(w: Seq<char>) -> Option<u32> {
    let d = digits_part(w);
    if d.len() > 0 && all_digits(d) && digits_value(d) <= u32::MAX {
        Some(digits_value(d) as u32)
    } else {
        None
    }
}

/// The numbers among a list of words, in order; other words are skipped.
pub open spec fn parsed_ids(words: Seq<Seq<char>>) -> Seq<u32>
    decreases words.len(),
{
    if words.len() == 0 {
        seq![]
    } else {
        let rest = parsed_ids(words.drop_last());
        match parse_u32_spec(words.last()) {
            Some(v) => rest.push(v),
            None => rest,
        }
    }
}

/// Read one word as a `u32`.
pub fn parse_u32(w: &Vec<char>) -> (r: Option<u32>)
    ensures
        r == parse_u32_spec(w@),
{
    let start: usize = if w.len() > 0 && w[0] == '+' {
        1
    } else {
        0
    };
    let ghost d = digits_part(w@);
    assert(d =~= w@.skip(start as int));
    if start >= w.len() {
        return None;
    }
    let mut value: u64 = 0;
    let mut i: usize = start;
    while i < w.len()
        invariant
            start <= i <= w@.len(),
            d == digits_part(w@),
            d =~= w@.skip(start as int),
            value as nat == digits_value(d.take(i - start)),
            value <= u32::MAX,
            forall|k: int| 0 <= k < i - start ==> is_digit(#[trigger] d[k]),
        decreases w@.len() - i,
    {
        let c = w[i];
        assert(d[i - start] == c);
        if !('0' <= c && c <= '9') {
            assert(!is_digit(d[i - start]));
            assert(!all_digits(d));
            return None;
        }
        assert(d.take(i - start + 1).drop_last() =~= d.take(i - start));
        let digit: u64 = (c as u32 - 48) as u64;
        let next: u64 = value * 10 + digit;
        if next > 0xffff_ffff {
            proof {
                if all_digits(d) {
                    lemma_digits_value_grows(d, i - start + 1);
                }
            }
            return None;
        }
        value = next;
        i = i + 1;
    }
    assert(d.take(i - start) =~= d);
    Some(value as u32)
}

/// A longer run of digits is worth at least as much as its prefix.
proof fn lemma_digits_value_grows(d: Seq<char>, k: int)
    requires
        0 <= k <= d.len(),
        all_digits(d),
    ensures
        digits_value(d.take(k)) <= digits_value(d),
    decreases d.len() - k,
{
    if k < d.len() {
        assert(d.drop_last().take(k) =~= d.take(k));
        assert(all_digits(d.drop_last())) by {
            assert forall|i: int| 0 <= i < d.drop_last().len() implies is_digit(#[trigger] d.drop_last()[i]) by {
                assert(d.drop_last()[i] == d[i]);
            }
        }
        lemma_digits_value_grows(d.drop_last(), k);
    } else {
        assert(d.take(k) =~= d);
    }
}

/// The process ids in a whitespace-separated list (as the system lists a
/// process's children); words that are not numbers are skipped.
pub fn parse_pid_list(text: &str) -> (r: Vec<u32>)
    ensures
        r@ == parsed_ids(words_of(text@)),
{
    let cs = chars_of(text);
    let mut out: Vec<u32> = Vec::new();
    let mut cur: Vec<char> = Vec::new();
    let mut i: usize = 0;
    while i < cs.len()
        invariant
            cs@ == text@,
            0 <= i <= cs@.len(),
            out@ == parsed_ids(split_ws(cs@.take(i as int)).0),
            cur@ == split_ws(cs@.take(i as int)).1,
        decreases cs@.len() - i,
    {
        let c = cs[i];
        let ghost prev = split_ws(cs@.take(i as int));
        proof {
            assert(cs@.take(i + 1).drop_last() =~= cs@.take(i as int));
            assert(cs@.take(i + 1).last() == c);
        }
        if is_whitespace(c) {
            if cur.len() > 0 {
                proof {
                    assert(prev.0.push(cur@).drop_last() =~= prev.0);
                }
                match parse_u32(&cur) {
                    Some(v) => out.push(v),
                    None => {},
                }
                cur = Vec::new();
            }
        } else {
            cur.push(c);
        }
        i = i + 1;
    }
    proof {
        assert(cs@.take(i as int) =~= text@);
    }
    if cur.len() > 0 {
        proof {
            let (ws, c) = split_ws(text@);
            assert(ws.push(c).drop_last() =~= ws);
        }
        match parse_u32(&cur) {
            Some(v) => out.push(v),
            None => {},
        }
    }
    out
}

// ---------------------------------------------------------------------------
// Walking the tree
// ---------------------------------------------------------------------------

/// The stack once the ids already visited are taken off its top.
pub open spec fn drop_visited(stack: Seq<u32>, visited: Seq<u32>) -> Seq<u32>
    decreases stack.len(),
{
    if stack.len() > 0 && visited.contains(stack.last()) {
        drop_visited(stack.drop_last(), visited)
    } else {
        stack
    }
}

/// A depth-first walk over a process tree: the ids still to look at (a
/// stack) and the ids visited so far, in the order of their visits.
pub struct ProcessWalk {
    pub to_visit: Vec<u32>,
    pub visited: Vec<u32>,
}

fn contains_id(v: &Vec<u32>, x: u32) -> (r: bool)
    ensures
        r == v@.contains(x),
{
    let mut i: usize = 0;
    while i < v.len()
        invariant
            0 <= i <= v@.len(),
            forall|k: int| 0 <= k < i ==> v@[k] != x,
        decreases v@.len() - i,
    {
        if v[i] == x {
            assert(v@[i as int] == x);
            return true;
        }
        i = i + 1;
    }
    false
}

impl ProcessWalk {
    /// No process is visited twice.
    pub open spec fn wf(&self) -> bool {
        self.visited@.no_duplicates()
    }

    /// A walk that starts at the root process.
    pub fn new(root: u32) -> (r: ProcessWalk)
        ensures
            r.to_visit@ == seq![root],
            r.visited@ == Seq::<u32>::empty(),
            r.wf(),
    {
        let r = ProcessWalk { to_visit: vec![root], visited: Vec::new() };
        assert(r.to_visit@ =~= seq![root]);
        r
    }

    /// The next process to look at: the newest id on the stack that was not
    /// visited yet, now marked visited; `None` when the stack runs out.
    pub fn next_pid(&mut self) -> (r: Option<u32>)
        requires
            old(self).wf(),
        ensures
            final(self).wf(),
            ({
                let s = drop_visited(old(self).to_visit@, old(self).visited@);
                &&& s.len() == 0 ==> r is None && final(self).to_visit@ == s && final(self).visited@
                    == old(self).visited@
                &&& s.len() > 0 ==> r == Some(s.last()) && final(self).to_visit@ == s.drop_last()
                    && final(self).visited@ == old(self).visited@.push(s.last())
            }),
    {
        let ghost target = drop_visited(self.to_visit@, self.visited@);
        while self.to_visit.len() > 0
            invariant
                self.wf(),
                self.visited@ == old(self).visited@,
                drop_visited(self.to_visit@, self.visited@) == target,
                target == drop_visited(old(self).to_visit@, old(self).visited@),
            decreases self.to_visit@.len(),
        {
            let ghost before = self.to_visit@;
            let p = self.to_visit.pop().unwrap();
            proof {
                assert(before.drop_last() =~= self.to_visit@);
                assert(before.last() == p);
            }
            if !contains_id(&self.visited, p) {
                self.visited.push(p);
                proof {
                    assert(target == before);
                    assert forall|a: int, b: int| 0 <= a < b < self.visited@.len() implies self.visited@[a]
                        != self.visited@[b] by {
                        if b == self.visited@.len() - 1 {
                            assert(!old(self).visited@.contains(p));
                            assert(self.visited@[a] == old(self).visited@[a]);
                        }
                    }
                }
                return Some(p);
            }
        }
        None
    }

    /// Put a visited process's children on the stack.
    pub fn add_children(&mut self, children: &Vec<u32>)
        ensures
            final(self).to_visit@ == old(self).to_visit@ + children@,
            final(self).visited@ == old(self).visited@,
    {
        let mut i: usize = 0;
        let ghost base = self.to_visit@;
        while i < children.len()
            invariant
                0 <= i <= children@.len(),
                self.to_visit@ =~= base + children@.take(i as int),
                self.visited@ == old(self).visited@,
                base == old(self).to_visit@,
            decreases children@.len() - i,
        {
            self.to_visit.push(children[i]);
            i = i + 1;
        }
        assert(children@.take(i as int) =~= children@);
    }
}

/// Whether any process of a tree (what is known of each) mentions the agent
/// named by `needle`, ignoring case.
pub fn has_agent_descendant(procs: &Vec<ProcessInfo>, needle: &str) -> (r: bool)
    ensures
        r == exists|i: int| 0 <= i < procs@.len() && process_matches_spec(#[trigger] procs@[i], crate::text::lowercase(needle@)),
{
    let lower = crate::text::to_lowercase(needle);
    let mut i: usize = 0;
    while i < procs.len()
        invariant
            0 <= i <= procs@.len(),
            lower@ == crate::text::lowercase(needle@),
            forall|k: int| 0 <= k < i ==> !process_matches_spec(#[trigger] procs@[k], lower@),
        decreases procs@.len() - i,
    {
        if process_matches(&procs[i], lower.as_str()) {
            return true;
        }
        i = i + 1;
    }
    false
}

} // verus!
