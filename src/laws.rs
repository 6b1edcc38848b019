//! Laws that relate the parser's results across inputs.
use vstd::prelude::*;
use crate::links::links_spec;
use crate::parser::{classify, elements_of, parse_spec};
use crate::text::{
    is_white_space_spec, lines_spec, pieces, trim_end_spec, trim_spec, trim_start_spec,
};
use crate::types::ElementModel;

verus! {

/// The number of lines in `lines` that are not blank once trimmed.
pub open spec fn count_nonblank(lines: Seq<Seq<char>>) -> nat
    decreases lines.len(),
{
    if lines.len() == 0 {
        0
    } else {
        count_nonblank(lines.drop_last()) + if trim_spec(lines.last()).len() > 0 {
            1nat
        } else {
            0nat
        }
    }
}

/// Whether every character of `s` is whitespace.
pub open spec fn all_white_space(s: Seq<char>) -> bool {
    forall|k: int| 0 <= k < s.len() ==> is_white_space_spec(#[trigger] s[k])
}

/// Whether `s` holds no line feed.
pub open spec fn single_line(s: Seq<char>) -> bool {
    forall|k: int| 0 <= k < s.len() ==> #[trigger] s[k] != '\n'
}

proof fn lemma_classify_some(line: Seq<char>)
    ensures
        classify(line) is Some <==> line.len() > 0,
{
    if line.len() == 0 {
        assert(links_spec(line).len() == 0);
    }
}

proof fn lemma_elements_count(lines: Seq<Seq<char>>)
    ensures
        elements_of(lines).len() == count_nonblank(lines),
        count_nonblank(lines) <= lines.len(),
        count_nonblank(lines) == lines.len() <==> forall|k: int|
            0 <= k < lines.len() ==> trim_spec(#[trigger] lines[k]).len() > 0,
    decreases lines.len(),
{
    if lines.len() > 0 {
        let prev = lines.drop_last();
        lemma_elements_count(prev);
        lemma_classify_some(trim_spec(lines.last()));
        if count_nonblank(lines) == lines.len() {
            assert forall|k: int| 0 <= k < lines.len() implies trim_spec(
                #[trigger] lines[k],
            ).len() > 0 by {
                if k < lines.len() - 1 {
                    assert(lines[k] == prev[k]);
                }
            }
        }
        if forall|k: int| 0 <= k < lines.len() ==> trim_spec(#[trigger] lines[k]).len() > 0 {
            assert forall|k: int| 0 <= k < prev.len() implies trim_spec(#[trigger] prev[k]).len()
                > 0 by {
                assert(prev[k] == lines[k]);
            }
            assert(trim_spec(lines[lines.len() - 1]).len() > 0);
        }
    }
}

/// A document has at most as many elements as its text has lines, and exactly
/// as many when no line is blank once trimmed.
pub proof fn law_element_count(s: Seq<char>)
    ensures
        parse_spec(s).len() <= lines_spec(s).len(),
        parse_spec(s).len() == lines_spec(s).len() <==> forall|k: int|
            0 <= k < lines_spec(s).len() ==> trim_spec(#[trigger] lines_spec(s)[k]).len() > 0,
{
    lemma_elements_count(lines_spec(s));
}

proof fn lemma_elements_order(lines: Seq<Seq<char>>, k: int)
    requires
        0 <= k < lines.len(),
        trim_spec(lines[k]).len() > 0,
    ensures
        count_nonblank(lines.take(k)) < elements_of(lines).len(),
        elements_of(lines)[count_nonblank(lines.take(k)) as int] == classify(
            trim_spec(lines[k]),
        )->0,
    decreases lines.len(),
{
    let prev = lines.drop_last();
    lemma_classify_some(trim_spec(lines.last()));
    if k == lines.len() - 1 {
        assert(lines.take(k) == prev);
        lemma_elements_count(prev);
    } else {
        assert(prev.take(k) == lines.take(k));
        assert(prev[k] == lines[k]);
        lemma_elements_order(prev, k);
    }
}

/// Each non-blank line gives its element at the position that counts the
/// non-blank lines before it: elements keep the order of their lines.
pub proof fn law_line_order(s: Seq<char>, k: int)
    requires
        0 <= k < lines_spec(s).len(),
        trim_spec(lines_spec(s)[k]).len() > 0,
    ensures
        count_nonblank(lines_spec(s).take(k)) < parse_spec(s).len(),
        parse_spec(s)[count_nonblank(lines_spec(s).take(k)) as int] == classify(
            trim_spec(lines_spec(s)[k]),
        )->0,
{
    lemma_elements_order(lines_spec(s), k);
}

proof fn lemma_trim_start_skip(a: Seq<char>, x: Seq<char>)
    requires
        all_white_space(a),
    ensures
        trim_start_spec(a + x) == trim_start_spec(x),
    decreases a.len(),
{
    if a.len() > 0 {
        assert((a + x).drop_first() == a.drop_first() + x);
        lemma_trim_start_skip(a.drop_first(), x);
    } else {
        assert(a + x == x);
    }
}

proof fn lemma_trim_end_skip(x: Seq<char>, b: Seq<char>)
    requires
        all_white_space(b),
    ensures
        trim_end_spec(x + b) == trim_end_spec(x),
    decreases b.len(),
{
    if b.len() > 0 {
        assert((x + b).drop_last() == x + b.drop_last());
        lemma_trim_end_skip(x, b.drop_last());
    } else {
        assert(x + b == x);
    }
}

proof fn lemma_trim_start_append(t: Seq<char>, b: Seq<char>)
    ensures
        all_white_space(t) ==> trim_start_spec(t + b) == trim_start_spec(b),
        !all_white_space(t) ==> trim_start_spec(t + b) == trim_start_spec(t) + b,
    decreases t.len(),
{
    if t.len() > 0 {
        if is_white_space_spec(t[0]) {
            let u = t.drop_first();
            assert((t + b).drop_first() == u + b);
            lemma_trim_start_append(u, b);
            if !all_white_space(t) {
                let k = choose|k: int| 0 <= k < t.len() && !is_white_space_spec(#[trigger] t[k]);
                assert(u[k - 1] == t[k]);
            } else {
                assert forall|k: int| 0 <= k < u.len() implies is_white_space_spec(
                    #[trigger] u[k],
                ) by {
                    assert(u[k] == t[k + 1]);
                }
            }
        }
    } else {
        assert(t + b == b);
    }
}

proof fn lemma_trim_padding(a: Seq<char>, t: Seq<char>, b: Seq<char>)
    requires
        all_white_space(a),
        all_white_space(b),
    ensures
        trim_spec(a + t + b) == trim_spec(t),
{
    lemma_trim_start_skip(a, t + b);
    assert(a + t + b == a + (t + b));
    lemma_trim_start_append(t, b);
    if all_white_space(t) {
        lemma_trim_start_skip(b, seq![]);
        assert(b + seq![] == b);
        lemma_trim_start_skip(t, seq![]);
        assert(t + seq![] == t);
    } else {
        lemma_trim_end_skip(trim_start_spec(t), b);
    }
}

/// Whitespace before or after a line changes neither the kind of element
/// that the line makes nor what the element holds.
pub proof fn law_line_padding(a: Seq<char>, t: Seq<char>, b: Seq<char>)
    requires
        all_white_space(a),
        all_white_space(b),
    ensures
        classify(trim_spec(a + t + b)) == classify(trim_spec(t)),
{
    lemma_trim_padding(a, t, b);
}

proof fn lemma_pieces_single_line(s: Seq<char>)
    requires
        single_line(s),
    ensures
        pieces(s) == seq![s],
    decreases s.len(),
{
    if s.len() > 0 {
        let p = s.drop_last();
        assert(s[s.len() - 1] != '\n');
        assert forall|k: int| 0 <= k < p.len() implies #[trigger] p[k] != '\n' by {
            assert(p[k] == s[k]);
        }
        lemma_pieces_single_line(p);
        assert(p.push(s.last()) == s);
        assert(seq![p].update(0, p.push(s.last())) == seq![s]);
    } else {
        assert(s == Seq::<char>::empty());
    }
}

proof fn lemma_single_line_parse(s: Seq<char>)
    requires
        single_line(s),
    ensures
        parse_spec(s) == match classify(trim_spec(s)) {
            Some(e) => seq![e],
            None => Seq::<ElementModel>::empty(),
        },
{
    lemma_pieces_single_line(s);
    if s.len() == 0 {
        assert(lines_spec(s).len() == 0);
        assert(trim_spec(s) == s);
        lemma_classify_some(s);
    } else {
        assert(lines_spec(s) == seq![s]);
        assert(lines_spec(s).drop_last() == Seq::<Seq<char>>::empty());
        assert(elements_of(Seq::<Seq<char>>::empty()) == Seq::<ElementModel>::empty());
        if let Some(e) = classify(trim_spec(s)) {
            assert(Seq::<ElementModel>::empty().push(e) == seq![e]);
        }
    }
}

/// Padding a one-line text with whitespace that holds no line feed gives the
/// same document.
pub proof fn law_document_padding(a: Seq<char>, t: Seq<char>, b: Seq<char>)
    requires
        all_white_space(a),
        all_white_space(b),
        single_line(a),
        single_line(t),
        single_line(b),
    ensures
        parse_spec(a + t + b) == parse_spec(t),
{
    let s = a + t + b;
    assert forall|k: int| 0 <= k < s.len() implies #[trigger] s[k] != '\n' by {
        if k < a.len() {
            assert(s[k] == a[k]);
        } else if k < a.len() + t.len() {
            assert(s[k] == t[k - a.len()]);
        } else {
            assert(s[k] == b[k - a.len() - t.len()]);
        }
    }
    lemma_single_line_parse(s);
    lemma_single_line_parse(t);
    lemma_trim_padding(a, t, b);
}

} // verus!
