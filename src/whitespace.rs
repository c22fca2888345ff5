use vstd::prelude::*;

verus! {

/// Unicode's `White_Space` property: the code points that a regular
/// expression's `\s` matches.
pub open spec fn is_white_space(c: char) -> bool {
    ||| '\t' <= c <= '\r'
    ||| c == ' '
    ||| c == '\u{85}'
    ||| c == '\u{a0}'
    ||| c == '\u{1680}'
    ||| '\u{2000}' <= c <= '\u{200a}'
    ||| c == '\u{2028}'
    ||| c == '\u{2029}'
    ||| c == '\u{202f}'
    ||| c == '\u{205f}'
    ||| c == '\u{3000}'
}

/// White space that does not break a line: anything but a line feed or a
/// carriage return.
pub open spec fn is_horizontal_space(c: char) -> bool {
    is_white_space(c) && c != '\n' && c != '\r'
}

/// `s` with every maximal run of horizontal space replaced by one `' '`.
///
/// Read from the end: a character outside the class is kept, and a
/// character of the class gives a space only where it starts its run.
pub open spec fn collapse(s: Seq<char>) -> Seq<char>
    decreases s.len(),
{
    if s.len() == 0 {
        Seq::empty()
    } else {
        let prev = collapse(s.drop_last());
        let c = s.last();
        if !is_horizontal_space(c) {
            prev.push(c)
        } else if s.len() >= 2 && is_horizontal_space(s[s.len() - 2]) {
            prev
        } else {
            prev.push(' ')
        }
    }
}

/// No character of the class but `' '`, and never two of them in a row.
pub open spec fn is_collapsed(s: Seq<char>) -> bool {
    forall|i: int|
        0 <= i < s.len() && is_horizontal_space(#[trigger] s[i]) ==> s[i] == ' ' && (i + 1
            < s.len() ==> !is_horizontal_space(s[i + 1]))
}

/// The pattern of one run of horizontal space.
pub const HORIZONTAL_SPACE_RUN: &'static str = "([^\\S\\r\\n])+";

/// What each run is replaced with.
pub const SINGLE_SPACE: &'static str = " ";

/// Relies on `regex::Regex::new` and `regex::Regex::replace_all`: in the
/// regex crate's default Unicode mode `\S` is the complement of the
/// `White_Space` property, so the pattern matches exactly the characters of
/// `is_horizontal_space`, and `+` with leftmost-first search takes each
/// maximal run of them as one match. Every match is replaced by the
/// replacement text (which holds no `$`, so it is taken literally).
/// The pattern is valid, so `new` returns `Ok`.
#[verifier::external_body]
fn regex_replace_all(pattern: &str, text: &str, replacement: &str) -> (r: String)
    requires
        pattern@ == HORIZONTAL_SPACE_RUN@,
        replacement@ == SINGLE_SPACE@,
    ensures
        r@ == collapse(text@),
{
    let re = regex::Regex::new(pattern).unwrap();
    re.replace_all(text, replacement).to_string()
}

/// Merges each run of horizontal white space of `input` into one space
/// character; line feeds and carriage returns are kept as they are.
pub fn merge_white_spaces(input: &str) -> (r: String)
    ensures
        r@ == collapse(input@),
{
    regex_replace_all(HORIZONTAL_SPACE_RUN, input, SINGLE_SPACE)
}

/// The shape of `collapse(s)`: it is collapsed, it is empty only when `s`
/// is, and its last character is horizontal space exactly when that of `s`
/// is.
proof fn lemma_collapse_shape(s: Seq<char>)
    ensures
        is_collapsed(collapse(s)),
        collapse(s).len() == 0 <==> s.len() == 0,
        s.len() > 0 ==> (is_horizontal_space(collapse(s).last()) <==> is_horizontal_space(
            s.last(),
        )),
    decreases s.len(),
{
    if s.len() > 0 {
        let t = s.drop_last();
        lemma_collapse_shape(t);
        let prev = collapse(t);
        let c = s.last();
        if !is_horizontal_space(c) {
            assert(is_collapsed(prev.push(c))) by {
                assert forall|i: int|
                    0 <= i < prev.push(c).len() && is_horizontal_space(
                        #[trigger] prev.push(c)[i],
                    ) implies prev.push(c)[i] == ' ' && (i + 1 < prev.push(c).len()
                    ==> !is_horizontal_space(prev.push(c)[i + 1])) by {
                    if i < prev.len() {
                        assert(prev[i] == prev.push(c)[i]);
                    }
                }
            }
        } else if s.len() >= 2 && is_horizontal_space(s[s.len() - 2]) {
            assert(t.last() == s[s.len() - 2]);
        } else {
            assert(is_horizontal_space(' '));
            assert(t.len() > 0 ==> !is_horizontal_space(t.last()));
            assert(is_collapsed(prev.push(' '))) by {
                assert forall|i: int|
                    0 <= i < prev.push(' ').len() && is_horizontal_space(
                        #[trigger] prev.push(' ')[i],
                    ) implies prev.push(' ')[i] == ' ' && (i + 1 < prev.push(' ').len()
                    ==> !is_horizontal_space(prev.push(' ')[i + 1])) by {
                    if i < prev.len() {
                        assert(prev[i] == prev.push(' ')[i]);
                        if i + 1 == prev.len() {
                            assert(prev[i] == prev.last());
                        }
                    }
                }
            }
        }
    }
}

/// A collapsed sequence is left as it is.
pub proof fn lemma_collapse_fixed(t: Seq<char>)
    requires
        is_collapsed(t),
    ensures
        collapse(t) == t,
    decreases t.len(),
{
    if t.len() > 0 {
        let u = t.drop_last();
        assert(is_collapsed(u)) by {
            assert forall|i: int| 0 <= i < u.len() && is_horizontal_space(#[trigger] u[i]) implies u[i]
                == ' ' && (i + 1 < u.len() ==> !is_horizontal_space(u[i + 1])) by {
                assert(u[i] == t[i]);
                if i + 1 < u.len() {
                    assert(u[i + 1] == t[i + 1]);
                }
            }
        }
        lemma_collapse_fixed(u);
        let c = t.last();
        if is_horizontal_space(c) && t.len() >= 2 {
            let k = t.len() - 2;
            if is_horizontal_space(t[k]) {
                assert(!is_horizontal_space(t[k + 1]));
            }
        }
        assert(collapse(t) =~= t);
    }
}

/// Normalizing a normalized text changes nothing: `collapse` is idempotent.
pub proof fn lemma_collapse_idempotent(s: Seq<char>)
    ensures
        collapse(collapse(s)) == collapse(s),
{
    lemma_collapse_shape(s);
    lemma_collapse_fixed(collapse(s));
}

/// A character outside the class (such as a line feed or a carriage
/// return) stands between two texts that are normalized apart: nothing on
/// one side merges with the other, and the character itself is kept.
pub proof fn lemma_collapse_split(p: Seq<char>, c: char, q: Seq<char>)
    requires
        !is_horizontal_space(c),
    ensures
        collapse(p.push(c) + q) == collapse(p).push(c) + collapse(q),
    decreases q.len(),
{
    let x = p.push(c);
    if q.len() == 0 {
        assert(x + q =~= x);
        assert(x.drop_last() =~= p);
        assert(collapse(q) =~= Seq::<char>::empty());
        assert(collapse(p).push(c) + collapse(q) =~= collapse(p).push(c));
    } else {
        let q1 = q.drop_last();
        lemma_collapse_split(p, c, q1);
        let s = x + q;
        assert(s.drop_last() =~= x + q1);
        assert(s.last() == q.last());
        if q1.len() > 0 {
            assert(s[s.len() - 2] == q[q.len() - 2]);
        } else {
            assert(s[s.len() - 2] == c);
        }
        let left = collapse(p).push(c);
        assert(left + collapse(q1).push(q.last()) =~= (left + collapse(q1)).push(q.last()));
        assert(left + collapse(q1).push(' ') =~= (left + collapse(q1)).push(' '));
    }
}

/// Two line feeds in a row are neither merged into one nor turned into
/// spaces: the text on each side is normalized on its own.
pub proof fn lemma_blank_line_kept(p: Seq<char>, q: Seq<char>)
    ensures
        collapse(p + seq!['\n', '\n'] + q) == collapse(p) + seq!['\n', '\n'] + collapse(q),
{
    lemma_collapse_split(Seq::empty(), '\n', q);
    assert(Seq::<char>::empty().push('\n') + q =~= seq!['\n'] + q);
    assert(collapse(Seq::<char>::empty()) =~= Seq::<char>::empty());
    lemma_collapse_split(p, '\n', seq!['\n'] + q);
    assert(p + seq!['\n', '\n'] + q =~= p.push('\n') + (seq!['\n'] + q));
    assert(collapse(p).push('\n') + (seq!['\n'] + collapse(q)) =~= collapse(p) + seq![
        '\n',
        '\n',
    ] + collapse(q));
    assert(Seq::<char>::empty().push('\n') + collapse(q) =~= seq!['\n'] + collapse(q));
}

} // verus!
