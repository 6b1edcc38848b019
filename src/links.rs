//! The wiki-link extractor: every `[[target]]` of a line, left to right.
use vstd::prelude::*;
use vstd::slice::slice_subrange;
use crate::text::{string_from, trim, trim_spec};

verus! {

/// The position of the first `]` at or after `k`, or `s.len()` where there is none.
pub open spec fn close_at(s: Seq<char>, k: int) -> int
    decreases s.len() - k,
{
    if k < 0 || k >= s.len() {
        s.len() as int
    } else if s[k] == ']' {
        k
    } else {
        close_at(s, k + 1)
    }
}

/// Whether a link starts at `i`: `[[`, one or more characters other than `]`, then `]]`.
pub open spec fn link_at(s: Seq<char>, i: int) -> bool {
    let j = close_at(s, i + 2);
    &&& 0 <= i
    &&& i + 1 < s.len()
    &&& s[i] == '['
    &&& s[i + 1] == '['
    &&& i + 2 < j
    &&& j + 1 < s.len()
    &&& s[j + 1] == ']'
}

/// The untrimmed payloads of the links found by a left-to-right scan from `i`;
/// after a link the scan resumes behind its closing `]]`.
pub open spec fn payloads_from(s: Seq<char>, i: int) -> Seq<Seq<char>>
    decreases s.len() - i,
{
    if i < 0 || i >= s.len() {
        seq![]
    } else if link_at(s, i) {
        let j = close_at(s, i + 2);
        seq![s.subrange(i + 2, j)] + payloads_from(s, j + 2)
    } else {
        payloads_from(s, i + 1)
    }
}

/// The link targets of a line: each payload, trimmed, in order of appearance.
pub open spec fn links_spec(s: Seq<char>) -> Seq<Seq<char>> {
    payloads_from(s, 0).map_values(|p: Seq<char>| trim_spec(p))
}

proof fn lemma_close_at_bounds(s: Seq<char>, k: int)
    requires
        0 <= k,
    ensures
        k <= close_at(s, k) || close_at(s, k) == s.len(),
        close_at(s, k) <= s.len(),
        close_at(s, k) < s.len() ==> s[close_at(s, k)] == ']',
    decreases s.len() - k,
{
    if k < s.len() && s[k] != ']' {
        lemma_close_at_bounds(s, k + 1);
    }
}

proof fn lemma_close_at_const(s: Seq<char>, k: int, m: int)
    requires
        0 <= k <= m <= close_at(s, k),
        close_at(s, k) <= s.len(),
    ensures
        close_at(s, m) == close_at(s, k),
    decreases m - k,
{
    if k < m {
        lemma_close_at_const(s, k + 1, m);
    }
}

proof fn lemma_no_link_between(s: Seq<char>, i: int, e: int)
    requires
        0 <= i <= e <= s.len(),
        forall|p: int| i <= p < e ==> !link_at(s, p),
    ensures
        payloads_from(s, i) == payloads_from(s, e),
    decreases e - i,
{
    if i < e {
        lemma_no_link_between(s, i + 1, e);
    }
}

/// The position of the first `]` in `s` at or after `k`, or its length.
fn find_close(s: &[char], k: usize) -> (j: usize)
    ensures
        j == close_at(s@, k as int),
{
    let mut j: usize = k;
    if j >= s.len() {
        return s.len();
    }
    while j < s.len() && s[j] != ']'
        invariant
            k <= j <= s@.len(),
            k < s@.len(),
            close_at(s@, j as int) == close_at(s@, k as int),
        decreases s@.len() - j,
    {
        j = j + 1;
    }
    j
}

/// The trimmed targets of all `[[target]]` spans of `line`, left to right,
/// duplicates kept. An unterminated `[[` gives nothing.
pub fn parse_wiki_links(line: &[char]) -> (r: Vec<String>)
    ensures
        r@.map_values(|l: String| l@) == links_spec(line@),
{
    let n = line.len();
    let mut r: Vec<String> = Vec::new();
    let ghost mut found: Seq<Seq<char>> = seq![];
    let mut i: usize = 0;
    while i < n
        invariant
            n == line@.len(),
            i <= n,
            found + payloads_from(line@, i as int) == payloads_from(line@, 0),
            r@.map_values(|l: String| l@) == found.map_values(|p: Seq<char>| trim_spec(p)),
        decreases n - i,
    {
        let mut next: usize = i + 1;
        if i + 1 < n && line[i] == '[' && line[i + 1] == '[' {
            let j = find_close(line, i + 2);
            proof {
                lemma_close_at_bounds(line@, i + 2);
            }
            if i + 2 < j && j < n - 1 && line[j + 1] == ']' {
                let payload = slice_subrange(line, i + 2, j);
                let target = string_from(trim(payload));
                let ghost old_r = r@;
                r.push(target);
                proof {
                    assert(r@.map_values(|l: String| l@) == old_r.map_values(|l: String| l@).push(
                        trim_spec(payload@)));
                    assert(seq![payload@] + payloads_from(line@, j + 2) == payloads_from(
                        line@,
                        i as int,
                    ));
                    assert(found.push(payload@) + payloads_from(line@, j + 2) == found + (
                    seq![payload@] + payloads_from(line@, j + 2)));
                    assert(found.push(payload@).map_values(|p: Seq<char>| trim_spec(p))
                        == found.map_values(|p: Seq<char>| trim_spec(p)).push(trim_spec(payload@)));
                    found = found.push(payload@);
                }
                next = j + 2;
            } else if i + 2 < j {
                // Every opening before the `]` at j closes there too, and fails as this one did.
                next = j - 1;
                proof {
                    assert forall|p: int| i <= p < j - 1 implies !link_at(line@, p) by {
                        if p > i {
                            lemma_close_at_const(line@, i + 2, p + 2);
                        }
                    }
                    lemma_no_link_between(line@, i as int, j - 1);
                }
            }
        }
        proof {
            if next == i + 1 {
                assert(!link_at(line@, i as int));
            }
        }
        i = next;
    }
    proof {
        assert(found + payloads_from(line@, n as int) == found);
    }
    r
}

} // verus!
