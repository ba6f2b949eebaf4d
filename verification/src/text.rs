//! Text utilities: locating parser-reported positions in the source text,
//! the forward-only trivia cursor, and substring search.

use crate::Loc;
use vstd::prelude::*;

verus! {

/// Index of the first occurrence of `c` in `s` at or after `i`, or `-1` if
/// there is none.
pub open spec fn find_from(s: Seq<char>, i: int, c: char) -> int
    decreases s.len() - i
    when 0 <= i <= s.len()
{
    if i >= s.len() {
        -1
    } else if s[i] == c {
        i
    } else {
        find_from(s, i + 1, c)
    }
}

pub proof fn lemma_find_from(s: Seq<char>, i: int, c: char)
    requires
        0 <= i <= s.len(),
    ensures
        find_from(s, i, c) == -1 ==> (forall|j: int| i <= j < s.len() ==> s[j] != c),
        find_from(s, i, c) != -1 ==> i <= find_from(s, i, c) < s.len() && s[find_from(s, i, c)]
            == c && (forall|j: int| i <= j < find_from(s, i, c) ==> s[j] != c),
    decreases s.len() - i,
{
    if i < s.len() && s[i] != c {
        lemma_find_from(s, i + 1, c);
    }
}

/// Index of the first character of line `line` (1-based), or `-1` if the
/// text has fewer lines.
pub open spec fn line_start(s: Seq<char>, line: int) -> int
    decreases line,
{
    if line <= 1 {
        0
    } else {
        let prev = line_start(s, line - 1);
        if prev < 0 || prev > s.len() {
            -1
        } else {
            let nl = find_from(s, prev, '\n');
            if nl == -1 {
                -1
            } else {
                nl + 1
            }
        }
    }
}

pub proof fn lemma_line_start_range(s: Seq<char>, line: int)
    ensures
        line_start(s, line) == -1 || 0 <= line_start(s, line) <= s.len(),
    decreases line,
{
    if line > 1 {
        lemma_line_start_range(s, line - 1);
        let prev = line_start(s, line - 1);
        if 0 <= prev <= s.len() {
            lemma_find_from(s, prev, '\n');
        }
    }
}

/// If some line exists, every earlier line exists too, and a newline follows
/// the start of every line but the last.
pub proof fn lemma_line_start_mono(s: Seq<char>, l: int, target: int)
    requires
        1 <= l < target,
        line_start(s, target) >= 0,
    ensures
        0 <= line_start(s, l) <= s.len(),
        find_from(s, line_start(s, l), '\n') >= 0,
    decreases target - l,
{
    if l + 1 < target {
        lemma_line_start_mono(s, l + 1, target);
    }
    lemma_line_start_range(s, l);
    assert(line_start(s, l + 1) >= 0);
    if line_start(s, l) == -1 || line_start(s, l) > s.len() {
        assert(line_start(s, l + 1) == -1);
    }
    lemma_find_from(s, line_start(s, l), '\n');
}

/// The character offset a location denotes: the start of its line plus its
/// column, in Unicode scalar units.
pub open spec fn loc_offset(s: Seq<char>, l: Loc) -> int {
    line_start(s, l.line as int) + l.column
}

/// A location that the parse of this exact text can report: its line exists
/// and its column stays within the text.
pub open spec fn loc_valid(s: Seq<char>, l: Loc) -> bool {
    &&& 1 <= l.line
    &&& line_start(s, l.line as int) >= 0
    &&& line_start(s, l.line as int) + l.column <= s.len()
}

/// First newline at or after `start`, given one exists.
fn next_newline(s: &str, start: usize) -> (r: usize)
    requires
        start <= s@.len(),
        find_from(s@, start as int, '\n') >= 0,
    ensures
        r == find_from(s@, start as int, '\n'),
{
    let ghost target = find_from(s@, start as int, '\n');
    proof {
        lemma_find_from(s@, start as int, '\n');
    }
    let n = s.unicode_len();
    let mut i: usize = start;
    while s.get_char(i) != '\n'
        invariant
            n == s@.len(),
            start <= i <= target < n,
            find_from(s@, i as int, '\n') == target,
        decreases target - i,
    {
        proof {
            lemma_find_from(s@, i as int, '\n');
        }
        i = i + 1;
    }
    i
}

/// Converts a parser-reported (line, column) location into the absolute
/// character offset in `input`. Correct only for locations that parsing this
/// exact text produced; other locations are rejected by the precondition.
pub fn char_offset(input: &str, loc: Loc) -> (r: usize)
    requires
        loc_valid(input@, loc),
    ensures
        r == loc_offset(input@, loc),
{
    let n = input.unicode_len();
    let mut start: usize = 0;
    let mut l: usize = 1;
    while l < loc.line
        invariant
            loc_valid(input@, loc),
            n == input@.len(),
            1 <= l <= loc.line,
            start as int == line_start(input@, l as int),
            0 <= start <= n,
        decreases loc.line - l,
    {
        proof {
            lemma_line_start_mono(input@, l as int, loc.line as int);
            lemma_find_from(input@, start as int, '\n');
        }
        let nl = next_newline(input, start);
        start = nl + 1;
        l = l + 1;
        proof {
            lemma_line_start_range(input@, l as int);
        }
    }
    proof {
        lemma_line_start_range(input@, loc.line as int);
    }
    start + loc.column
}

/// A forward-only cursor over the original text, used to slice out the
/// comments and blank lines ("trivia") standing between declarations.
pub struct ParseContext {
    pub input: String,
    pub current_offset: usize,
}

impl ParseContext {
    /// The cursor never passes the end of the text.
    pub open spec fn wf(&self) -> bool {
        self.current_offset <= self.input@.len()
    }

    pub fn new(input: String) -> (r: ParseContext)
        ensures
            r.input@ == input@,
            r.current_offset == 0,
            r.wf(),
    {
        ParseContext { input, current_offset: 0 }
    }

    /// Advances the cursor to `offset`.
    pub fn update_offset(&mut self, offset: usize)
        requires
            offset <= old(self).input@.len(),
        ensures
            final(self).input@ == old(self).input@,
            final(self).current_offset == offset,
            final(self).wf(),
    {
        self.current_offset = offset;
    }

    /// The slice from the cursor to `offset`. Offsets must be requested in
    /// non-decreasing order; the precondition enforces that invariant.
    pub fn text_between(&self, offset: usize) -> (r: String)
        requires
            self.wf(),
            self.current_offset <= offset <= self.input@.len(),
        ensures
            r@ == self.input@.subrange(self.current_offset as int, offset as int),
    {
        let piece = self.input.as_str().substring_char(self.current_offset, offset);
        piece.to_owned()
    }
}

/// The needle `n` occurs in `h` starting at index `i`.
pub open spec fn sub_at(h: Seq<char>, n: Seq<char>, i: int) -> bool {
    0 <= i && i + n.len() <= h.len() && h.subrange(i, i + n.len()) == n
}

/// The needle `n` occurs somewhere in `h`.
pub open spec fn contains_seq(h: Seq<char>, n: Seq<char>) -> bool {
    exists|i: int| sub_at(h, n, i)
}

/// Substring search, checking every candidate start position.
pub fn contains_sub(h: &str, n: &str) -> (r: bool)
    ensures
        r == contains_seq(h@, n@),
{
    let hl = h.unicode_len();
    let nl = n.unicode_len();
    if nl > hl {
        return false;
    }
    if nl == 0 {
        proof {
            assert(h@.subrange(0, 0) =~= n@);
            assert(sub_at(h@, n@, 0));
        }
        return true;
    }
    let mut i: usize = 0;
    while i <= hl - nl
        invariant
            hl == h@.len(),
            nl == n@.len(),
            1 <= nl <= hl,
            i <= hl - nl + 1,
            forall|k: int| 0 <= k < i ==> !sub_at(h@, n@, k),
        decreases hl - i,
    {
        let mut j: usize = 0;
        let mut found = true;
        while j < nl
            invariant
                hl == h@.len(),
                nl == n@.len(),
                i + nl <= hl,
                j <= nl,
                found ==> (forall|t: int| 0 <= t < j ==> h@[i + t] == n@[t]),
                !found ==> !sub_at(h@, n@, i as int),
            decreases nl - j,
        {
            if h.get_char(i + j) != n.get_char(j) {
                proof {
                    if sub_at(h@, n@, i as int) {
                        assert(h@.subrange(i as int, i + n@.len())[j as int] == n@[j as int]);
                    }
                }
                found = false;
                j = nl;
            } else {
                j = j + 1;
            }
        }
        if found {
            proof {
                assert(h@.subrange(i as int, i + n@.len()) =~= n@);
                assert(sub_at(h@, n@, i as int));
            }
            return true;
        }
        i = i + 1;
    }
    proof {
        assert(forall|k: int| sub_at(h@, n@, k) ==> 0 <= k <= hl - nl);
    }
    false
}

/// Whether any of the marker substrings occurs in `h`.
pub open spec fn any_marker(h: Seq<char>, ms: Seq<Seq<char>>) -> bool {
    exists|i: int| 0 <= i < ms.len() && contains_seq(h, ms[i])
}

/// Whether the text contains any of the given marker substrings.
pub fn contains_any(h: &str, markers: &Vec<String>) -> (r: bool)
    ensures
        r == any_marker(h@, markers.deep_view()),
{
    let mut i: usize = 0;
    while i < markers.len()
        invariant
            i <= markers@.len(),
            forall|k: int| 0 <= k < i ==> !contains_seq(h@, markers.deep_view()[k]),
        decreases markers@.len() - i,
    {
        if contains_sub(h, markers[i].as_str()) {
            proof {
                assert(markers.deep_view()[i as int] == markers@[i as int]@);
            }
            return true;
        }
        proof {
            assert(markers.deep_view()[i as int] == markers@[i as int]@);
        }
        i = i + 1;
    }
    false
}

/// Character-for-character string equality.
pub fn str_eq(a: &str, b: &str) -> (r: bool)
    ensures
        r == (a@ == b@),
{
    let na = a.unicode_len();
    let nb = b.unicode_len();
    if na != nb {
        return false;
    }
    let mut i: usize = 0;
    while i < na
        invariant
            na == a@.len(),
            nb == b@.len(),
            na == nb,
            i <= na,
            forall|j: int| 0 <= j < i ==> a@[j] == b@[j],
        decreases na - i,
    {
        if a.get_char(i) != b.get_char(i) {
            return false;
        }
        i = i + 1;
    }
    proof {
        assert(a@ =~= b@);
    }
    true
}

} // verus!
