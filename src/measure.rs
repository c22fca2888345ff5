use vstd::prelude::*;

verus! {

/// The number of terminal columns that a text takes up.
pub uninterp spec fn display_width(s: Seq<char>) -> nat;

/// A character from `'!'` to `'~'`: printable ASCII other than the space.
pub open spec fn is_visible_ascii(c: char) -> bool {
    '!' <= c <= '~'
}

/// Printable ASCII, the space included.
pub open spec fn is_printable_ascii(c: char) -> bool {
    ' ' <= c <= '~'
}

/// Every character of `s` is printable ASCII.
pub open spec fn all_printable_ascii(s: Seq<char>) -> bool {
    forall|i: int| 0 <= i < s.len() ==> is_printable_ascii(#[trigger] s[i])
}

/// Relies on `unicode_width::UnicodeWidthStr::width` (0.1): the width of a
/// string depends on its characters alone. Folding from the end, each
/// character from U+0020 to U+007E adds one column and passes on no
/// context to the character before it, so a string of them, the empty one
/// included, is as wide as it is long.
#[verifier::external_body]
pub(crate) fn str_width(s: &str) -> (r: usize)
    ensures
        r as nat == display_width(s@),
        all_printable_ascii(s@) ==> r == s@.len(),
{
    unicode_width::UnicodeWidthStr::width(s)
}

/// The greatest display width among `lines`; 0 where there are none.
pub open spec fn max_line_width(lines: Seq<Seq<char>>) -> nat
    decreases lines.len(),
{
    if lines.len() == 0 {
        0
    } else {
        let a = max_line_width(lines.drop_last());
        let b = display_width(lines.last());
        if a >= b {
            a
        } else {
            b
        }
    }
}

/// No line is wider than the widest.
pub proof fn lemma_max_line_width_bounds(lines: Seq<Seq<char>>, i: int)
    requires
        0 <= i < lines.len(),
    ensures
        display_width(lines[i]) <= max_line_width(lines),
    decreases lines.len(),
{
    if i < lines.len() - 1 {
        lemma_max_line_width_bounds(lines.drop_last(), i);
        assert(lines.drop_last()[i] == lines[i]);
    }
}

/// The views of a slice of strings.
pub open spec fn views(lines: Seq<&str>) -> Seq<Seq<char>> {
    lines.map_values(|l: &str| l@)
}

/// The width of the widest of `lines`. Lines of printable ASCII are as wide
/// as they are long.
pub fn longest_line(lines: &[&str]) -> (r: usize)
    ensures
        r as nat == max_line_width(views(lines@)),
        forall|i: int|
            0 <= i < lines@.len() && all_printable_ascii(#[trigger] lines@[i]@) ==> display_width(
                lines@[i]@,
            ) == lines@[i]@.len(),
{
    let mut best: usize = 0;
    let mut k: usize = 0;
    while k < lines.len()
        invariant
            k <= lines@.len(),
            best as nat == max_line_width(views(lines@).subrange(0, k as int)),
            forall|i: int|
                0 <= i < k && all_printable_ascii(#[trigger] lines@[i]@) ==> display_width(
                    lines@[i]@,
                ) == lines@[i]@.len(),
        decreases lines@.len() - k,
    {
        let w = str_width(lines[k]);
        proof {
            let all = views(lines@);
            assert(all.subrange(0, k + 1).drop_last() =~= all.subrange(0, k as int));
            assert(all.subrange(0, k + 1).last() == lines@[k as int]@);
        }
        if w > best {
            best = w;
        }
        k = k + 1;
    }
    proof {
        assert(views(lines@).subrange(0, k as int) =~= views(lines@));
    }
    best
}

} // verus!
