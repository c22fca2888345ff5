use vstd::prelude::*;
use vstd::utf8::encode_utf8;

verus! {

/// The text as the word wrapper reflows it for a given line width.
pub uninterp spec fn filled(text: Seq<char>, width: nat) -> Seq<char>;

/// `s` without the spaces at its end.
pub open spec fn trim_end_spaces(s: Seq<char>) -> Seq<char>
    decreases s.len(),
{
    if s.len() > 0 && s.last() == ' ' {
        trim_end_spaces(s.drop_last())
    } else {
        s
    }
}

/// Relies on `textwrap::fill` (0.16) with `Options::new(width)`, which has
/// no indent: the result depends on the text and the width alone, and a
/// text of fewer bytes than `width` without a line feed comes back with
/// only its trailing spaces removed (the function's first branch).
#[verifier::external_body]
pub(crate) fn fill_text(text: &str, width: usize) -> (r: String)
    ensures
        r@ == filled(text@, width as nat),
        encode_utf8(text@).len() < width && !text@.contains('\n') ==> r@ == trim_end_spaces(
            text@,
        ),
{
    textwrap::fill(text, width)
}

} // verus!
