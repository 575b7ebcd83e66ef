//! The lines of a text, as `str::lines` splits them.
use crate::ui::ENTER;
use vstd::prelude::*;

verus! {

/// The pieces of `s` between line feeds: one more piece than `s` has line feeds.
pub open spec fn segments(s: Seq<char>) -> Seq<Seq<char>>
    decreases s.len(),
{
    if s.len() == 0 {
        seq![Seq::<char>::empty()]
    } else {
        let prev = segments(s.drop_last());
        if s.last() == '\n' {
            prev.push(Seq::<char>::empty())
        } else {
            prev.update(prev.len() - 1, prev.last().push(s.last()))
        }
    }
}

/// `line` without one carriage return at its end.
pub open spec fn strip_cr(line: Seq<char>) -> Seq<char> {
    if line.len() > 0 && line.last() == '\r' {
        line.drop_last()
    } else {
        line
    }
}

/// Whether `s` has no line after its last line feed: it is empty or ends with a line feed.
pub open spec fn ends_with_line_end(s: Seq<char>) -> bool {
    s.len() == 0 || s.last() == '\n'
}

/// The lines of `s`, as `str::lines` gives them: the pieces between line feeds, without the
/// empty piece after a final line feed, each piece that a line feed ends losing one carriage
/// return at its end.
pub open spec fn spec_lines(s: Seq<char>) -> Seq<Seq<char>> {
    let segs = segments(s);
    if ends_with_line_end(s) {
        Seq::new((segs.len() - 1) as nat, |i: int| strip_cr(segs[i]))
    } else {
        Seq::new(segs.len(), |i: int| if i < segs.len() - 1 { strip_cr(segs[i]) } else { segs[i] })
    }
}

/// The views of a vector of lines.
pub open spec fn lines_view(lines: Seq<Vec<char>>) -> Seq<Seq<char>> {
    lines.map_values(|l: Vec<char>| l@)
}

/// There is always at least one piece.
pub proof fn lemma_segments_len(s: Seq<char>)
    ensures
        segments(s).len() >= 1,
        segments(s).len() <= s.len() + 1,
    decreases s.len(),
{
    if s.len() > 0 {
        lemma_segments_len(s.drop_last());
    }
}

/// A text has at most as many lines as characters.
pub proof fn lemma_lines_len(s: Seq<char>)
    ensures
        spec_lines(s).len() <= s.len(),
    decreases s.len(),
{
    lemma_segments_len(s);
    if s.len() > 0 && s.last() != '\n' {
        lemma_segments_len(s.drop_last());
        if s.drop_last().len() > 0 && s.drop_last().last() != '\n' {
            lemma_lines_len(s.drop_last());
        }
    }
}

/// Returns `line` without one carriage return at its end.
fn strip_cr_exec(line: Vec<char>) -> (r: Vec<char>)
    ensures
        r@ == strip_cr(line@),
{
    let mut line = line;
    if line.len() > 0 && line[line.len() - 1] == '\r' {
        line.pop();
    }
    line
}

/// Splits `s` into its lines, as `str::lines` does.
pub fn split_lines(s: &Vec<char>) -> (r: Vec<Vec<char>>)
    ensures
        lines_view(r@) == spec_lines(s@),
{
    let mut done: Vec<Vec<char>> = Vec::new();
    let mut cur: Vec<char> = Vec::new();
    let mut i: usize = 0;
    while i < s.len()
        invariant
            i <= s@.len(),
            segments(s@.take(i as int)) == lines_view(done@).push(cur@),
        decreases s@.len() - i,
    {
        let c = s[i];
        assert(s@.take(i + 1).drop_last() == s@.take(i as int));
        if c == ENTER {
            let finished = cur;
            done.push(finished);
            cur = Vec::new();
            assert(lines_view(done@).push(cur@) =~= segments(s@.take(i + 1)));
        } else {
            cur.push(c);
            assert(lines_view(done@).push(cur@) =~= segments(s@.take(i + 1)));
        }
        i = i + 1;
    }
    assert(s@.take(s@.len() as int) == s@);
    let ghost segs = segments(s@);
    let mut r: Vec<Vec<char>> = Vec::new();
    let n = done.len();
    let mut j: usize = 0;
    while j < n
        invariant
            n == done@.len(),
            j <= n,
            r@.len() == j,
            segs == lines_view(done@).push(cur@),
            lines_view(r@) == Seq::new(j as nat, |k: int| strip_cr(segs[k])),
        decreases n - j,
    {
        let line = done[j].clone();
        assert(line@ == segs[j as int]) by {
            assert(done@[j as int]@ == lines_view(done@)[j as int]);
        }
        let ghost old_r = r@;
        let stripped = strip_cr_exec(line);
        r.push(stripped);
        assert(r@ == old_r.push(stripped));
        assert forall|k: int| 0 <= k < j + 1 implies #[trigger] lines_view(r@)[k] == strip_cr(
            segs[k],
        ) by {
            if k < j {
                assert(lines_view(r@)[k] == r@[k]@);
                assert(lines_view(old_r)[k] == old_r[k]@);
            }
        }
        j = j + 1;
        assert(lines_view(r@) =~= Seq::new(j as nat, |k: int| strip_cr(segs[k])));
    }
    assert(segs.len() == n + 1);
    if s.len() == 0 || s[s.len() - 1] == ENTER {
        assert(ends_with_line_end(s@));
        assert(lines_view(r@) =~= spec_lines(s@));
    } else {
        assert(!ends_with_line_end(s@));
        let ghost old_r = r@;
        r.push(cur);
        assert forall|k: int| 0 <= k < n + 1 implies #[trigger] lines_view(r@)[k] == spec_lines(
            s@,
        )[k] by {
            if k < n {
                assert(lines_view(old_r)[k] == old_r[k]@);
            }
        }
        assert(lines_view(r@) =~= spec_lines(s@));
    }
    r
}

} // verus!
