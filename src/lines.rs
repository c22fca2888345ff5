use vstd::prelude::*;

verus! {

/// The index of the first line feed of `s` at or after `i`, or the length
/// of `s` where there is none.
pub open spec fn line_end(s: Seq<char>, i: int) -> int
    decreases s.len() - i,
{
    if i >= s.len() || i < 0 {
        s.len() as int
    } else if s[i] == '\n' {
        i
    } else {
        line_end(s, i + 1)
    }
}

/// The text of one line: a line ended by a line feed loses one carriage
/// return before it.
pub open spec fn line_text(piece: Seq<char>, terminated: bool) -> Seq<char> {
    if terminated && piece.len() > 0 && piece.last() == '\r' {
        piece.drop_last()
    } else {
        piece
    }
}

/// The lines of `s` from index `i` on.
pub open spec fn lines_from(s: Seq<char>, i: int) -> Seq<Seq<char>>
    decreases s.len() - i,
{
    if i >= s.len() || i < 0 {
        Seq::empty()
    } else {
        let j = line_end(s, i);
        if j < i {
            Seq::empty()
        } else if j >= s.len() {
            seq![s.subrange(i, s.len() as int)]
        } else {
            seq![line_text(s.subrange(i, j), true)] + lines_from(s, j + 1)
        }
    }
}

/// The lines of a text: it is cut after each line feed, the line feeds
/// (and a carriage return before one) are dropped, and a final line feed
/// opens no further line. An empty text has no lines.
pub open spec fn lines_of(s: Seq<char>) -> Seq<Seq<char>> {
    lines_from(s, 0)
}

proof fn lemma_line_end_bounds(s: Seq<char>, i: int)
    requires
        0 <= i <= s.len(),
    ensures
        i <= line_end(s, i) <= s.len(),
        line_end(s, i) < s.len() ==> s[line_end(s, i)] == '\n',
        forall|k: int| i <= k < line_end(s, i) ==> s[k] != '\n',
    decreases s.len() - i,
{
    if i < s.len() && s[i] != '\n' {
        lemma_line_end_bounds(s, i + 1);
    }
}

/// Skipping characters that are not line feeds does not move the end of
/// the line.
pub proof fn lemma_line_end_step(s: Seq<char>, i: int, k: int)
    requires
        0 <= i <= k <= s.len(),
        forall|m: int| i <= m < k ==> s[m] != '\n',
    ensures
        line_end(s, i) == line_end(s, k),
    decreases k - i,
{
    if i < k {
        lemma_line_end_step(s, i + 1, k);
    }
}

/// Cuts `text` into its lines, as `lines_of` says.
pub fn split_lines(text: &str) -> (r: Vec<&str>)
    ensures
        r@.map_values(|l: &str| l@) == lines_of(text@),
{
    let n = text.unicode_len();
    let mut out: Vec<&str> = Vec::new();
    let mut start: usize = 0;
    while start < n
        invariant
            n == text@.len(),
            start <= n,
            out@.map_values(|l: &str| l@) + lines_from(text@, start as int) == lines_of(text@),
        decreases n - start,
    {
        let mut end: usize = start;
        while end < n && text.get_char(end) != '\n'
            invariant
                n == text@.len(),
                start <= end <= n,
                forall|m: int| start <= m < end ==> text@[m] != '\n',
            decreases n - end,
        {
            end = end + 1;
        }
        proof {
            lemma_line_end_step(text@, start as int, end as int);
            lemma_line_end_bounds(text@, end as int);
            assert(line_end(text@, start as int) == end as int);
        }
        let piece = text.substring_char(start, end);
        let line = if end < n && start < end && text.get_char(end - 1) == '\r' {
            text.substring_char(start, end - 1)
        } else {
            piece
        };
        proof {
            let t = text@.subrange(start as int, end as int);
            if end < n && start < end && text@[end - 1] == '\r' {
                assert(t.last() == '\r');
                assert(line@ =~= t.drop_last());
            }
            assert(line@ == line_text(t, end < n));
            let old_out = out@.map_values(|l: &str| l@);
            assert(out@.push(line).map_values(|l: &str| l@) =~= old_out.push(line@));
            assert(lines_from(text@, end + 1) == lines_from(text@, if end < n {
                end + 1
            } else {
                n as int
            }));
            assert(old_out.push(line@) + lines_from(text@, end + 1) =~= old_out + (seq![line@]
                + lines_from(text@, end + 1)));
        }
        out.push(line);
        start = if end < n {
            end + 1
        } else {
            n
        };
    }
    proof {
        assert(lines_from(text@, start as int) =~= Seq::<Seq<char>>::empty());
        assert(out@.map_values(|l: &str| l@) + Seq::<Seq<char>>::empty() =~= out@.map_values(
            |l: &str| l@,
        ));
    }
    out
}

} // verus!
