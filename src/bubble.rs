use vstd::prelude::*;
use vstd::utf8::encode_utf8;
use crate::lines::{lines_of, line_end, split_lines, lemma_line_end_step};
use crate::whitespace::{collapse, is_collapsed, merge_white_spaces, lemma_collapse_fixed};
use crate::wrap::{filled, fill_text, trim_end_spaces};
use crate::measure::{
    all_printable_ascii, is_visible_ascii, display_width, max_line_width, views, longest_line,
    str_width, lemma_max_line_width_bounds,
};

verus! {

pub const SPACE: u8 = 0x20;
pub const LINE_FEED: u8 = 0x0a;
pub const UNDERSCORE: u8 = 0x5f;
pub const DASH: u8 = 0x2d;
pub const LESS: u8 = 0x3c;
pub const GREATER: u8 = 0x3e;
pub const SLASH: u8 = 0x2f;
pub const BACKSLASH: u8 = 0x5c;
pub const BAR: u8 = 0x7c;

/// Ferris the crab.
pub const FERRIS: &'static str = r#"
        \
         \
            _~^~^~_
        \) /  o o  \ (/
          '_   -   _'
          / '-----' \
"#;

/// Clippy the paper clip.
pub const CLIPPY: &'static str = r#"
        \
         \
            __
           /  \
           |  |
           @  @
           |  |
           || |/
           || ||
           |\_/|
           \___/
"#;

/// The figure drawn under the bubble.
#[derive(Clone, Copy, Debug, PartialEq, Eq)]
pub enum Mascot {
    Ferris,
    Clippy,
}

/// The text of a mascot's picture.
pub open spec fn mascot_art(m: Mascot) -> Seq<char> {
    match m {
        Mascot::Ferris => FERRIS@,
        Mascot::Clippy => CLIPPY@,
    }
}

impl Mascot {
    /// The picture, with a line break before and after it.
    pub fn art(&self) -> (r: &'static str)
        ensures
            r@ == mascot_art(*self),
    {
        match self {
            Mascot::Ferris => FERRIS,
            Mascot::Clippy => CLIPPY,
        }
    }
}

/// The bracket that opens row `i` of `count`.
pub open spec fn left_mark(count: int, i: int) -> u8 {
    if count == 1 {
        LESS
    } else if i == 0 {
        SLASH
    } else if i == count - 1 {
        BACKSLASH
    } else {
        BAR
    }
}

/// The bracket that closes row `i` of `count`.
pub open spec fn right_mark(count: int, i: int) -> u8 {
    if count == 1 {
        GREATER
    } else if i == 0 {
        BACKSLASH
    } else if i == count - 1 {
        SLASH
    } else {
        BAR
    }
}

/// The bracket that opens a row, and the space after it.
pub open spec fn left_token(count: int, i: int) -> Seq<u8> {
    seq![left_mark(count, i), SPACE]
}

/// The space before the bracket that closes a row, and the bracket.
pub open spec fn right_token(count: int, i: int) -> Seq<u8> {
    seq![SPACE, right_mark(count, i)]
}

/// `n` copies of `b`.
pub open spec fn repeat(b: u8, n: nat) -> Seq<u8> {
    Seq::new(n, |_k: int| b)
}

/// The spaces that bring a line up to `width` columns.
pub open spec fn padding(line: Seq<char>, width: nat) -> nat {
    if display_width(line) <= width {
        (width - display_width(line)) as nat
    } else {
        0
    }
}

/// Row `i` of `count`: brackets, the line, and the padding that brings it
/// to `width` columns.
pub open spec fn body_row(line: Seq<char>, width: nat, count: int, i: int) -> Seq<u8> {
    left_token(count, i) + encode_utf8(line) + repeat(SPACE, padding(line, width)) + right_token(
        count,
        i,
    ) + seq![LINE_FEED]
}

/// The first `k` rows of the body.
pub open spec fn body_rows(lines: Seq<Seq<char>>, width: nat, k: int) -> Seq<u8>
    decreases k,
{
    if k <= 0 {
        Seq::empty()
    } else {
        body_rows(lines, width, k - 1) + body_row(lines[k - 1], width, lines.len() as int, k - 1)
    }
}

/// A space, `width + 2` underscores and a line feed.
pub open spec fn top_border(width: nat) -> Seq<u8> {
    seq![SPACE] + repeat(UNDERSCORE, width + 2) + seq![LINE_FEED]
}

/// A space and `width + 2` dashes; the picture brings its own line feed.
pub open spec fn bottom_border(width: nat) -> Seq<u8> {
    seq![SPACE] + repeat(DASH, width + 2)
}

/// The bytes of the bubble around `lines`, followed by the picture `art`.
pub open spec fn bubble(lines: Seq<Seq<char>>, art: Seq<char>) -> Seq<u8> {
    let w = max_line_width(lines);
    top_border(w) + body_rows(lines, w, lines.len() as int) + bottom_border(w) + encode_utf8(art)
}

/// The rows of a message: its lines, or one empty line where it has none.
pub open spec fn message_lines(text: Seq<char>) -> Seq<Seq<char>> {
    if lines_of(text).len() == 0 {
        seq![Seq::empty()]
    } else {
        lines_of(text)
    }
}

fn push_repeat(out: &mut Vec<u8>, b: u8, n: usize)
    ensures
        final(out)@ == old(out)@ + repeat(b, n as nat),
{
    let ghost start = out@;
    let mut k: usize = 0;
    while k < n
        invariant
            k <= n,
            out@ == start + repeat(b, k as nat),
        decreases n - k,
    {
        out.push(b);
        k = k + 1;
        assert(out@ =~= start + repeat(b, k as nat));
    }
}

fn push_bytes(out: &mut Vec<u8>, bytes: &[u8])
    ensures
        final(out)@ == old(out)@ + bytes@,
{
    let ghost start = out@;
    let mut k: usize = 0;
    while k < bytes.len()
        invariant
            k <= bytes@.len(),
            out@ == start + bytes@.subrange(0, k as int),
        decreases bytes@.len() - k,
    {
        out.push(bytes[k]);
        k = k + 1;
        assert(out@ =~= start + bytes@.subrange(0, k as int));
    }
    assert(bytes@.subrange(0, k as int) =~= bytes@);
}

fn marks(count: usize, i: usize) -> (r: (u8, u8))
    ensures
        r == (left_mark(count as int, i as int), right_mark(count as int, i as int)),
{
    if count == 1 {
        (LESS, GREATER)
    } else if i == 0 {
        (SLASH, BACKSLASH)
    } else if count > 0 && i == count - 1 {
        (BACKSLASH, SLASH)
    } else {
        (BAR, BAR)
    }
}

/// Frames `lines` in a bubble as wide as the widest of them, and puts the
/// mascot under it.
pub fn draw_bubble(lines: &[&str], mascot: Mascot) -> (out: Vec<u8>)
    ensures
        out@ == bubble(views(lines@), mascot_art(mascot)),
        forall|i: int|
            0 <= i < lines@.len() && all_printable_ascii(#[trigger] lines@[i]@)
                ==> display_width(lines@[i]@) == lines@[i]@.len(),
{
    let actual = longest_line(lines);
    let count = lines.len();
    let ghost w = actual as nat;
    let ghost ls = views(lines@);
    let mut out: Vec<u8> = Vec::new();
    out.push(SPACE);
    push_repeat(&mut out, UNDERSCORE, actual);
    out.push(UNDERSCORE);
    out.push(UNDERSCORE);
    out.push(LINE_FEED);
    assert(out@ =~= top_border(w));
    let mut i: usize = 0;
    while i < count
        invariant
            count == lines@.len(),
            i <= count,
            ls == views(lines@),
            w == max_line_width(ls),
            actual == w,
            out@ == top_border(w) + body_rows(ls, w, i as int),
        decreases count - i,
    {
        let line = lines[i];
        let lw = str_width(line);
        proof {
            lemma_max_line_width_bounds(ls, i as int);
        }
        let (l, r) = marks(count, i);
        let ghost before = out@;
        out.push(l);
        out.push(SPACE);
        push_bytes(&mut out, line.as_bytes());
        push_repeat(&mut out, SPACE, actual - lw);
        out.push(SPACE);
        out.push(r);
        out.push(LINE_FEED);
        proof {
            assert(ls[i as int] == line@);
            assert(out@ =~= before + body_row(ls[i as int], w, count as int, i as int));
        }
        i = i + 1;
    }
    let ghost mid = out@;
    out.push(SPACE);
    push_repeat(&mut out, DASH, actual);
    out.push(DASH);
    out.push(DASH);
    assert(out@ =~= mid + bottom_border(w));
    push_bytes(&mut out, mascot.art().as_bytes());
    assert(out@ =~= bubble(ls, mascot_art(mascot)));
    out
}

/// The right bracket of every row stands in the same column: the left
/// bracket and its space, the line and its padding take up the bubble's
/// width plus two columns on every row, whatever the line holds.
pub proof fn lemma_right_border_aligned(lines: Seq<Seq<char>>, i: int)
    requires
        0 <= i < lines.len(),
    ensures
        ({
            let w = max_line_width(lines);
            let n = lines.len() as int;
            &&& body_row(lines[i], w, n, i) == left_token(n, i) + encode_utf8(lines[i]) + repeat(
                SPACE,
                padding(lines[i], w),
            ) + right_token(n, i) + seq![LINE_FEED]
            &&& left_token(n, i).len() + display_width(lines[i]) + padding(lines[i], w) == w + 2
        }),
{
    lemma_max_line_width_bounds(lines, i);
}

/// A message of one line is framed by `<` and `>`; in a message of two or
/// more lines no row opens with `<` or closes with `>`.
pub proof fn lemma_bracket_choice(lines: Seq<Seq<char>>)
    ensures
        ({
            let w = max_line_width(lines);
            lines.len() == 1 ==> body_rows(lines, w, 1) == seq![LESS, SPACE] + encode_utf8(
                lines[0],
            ) + repeat(SPACE, padding(lines[0], w)) + seq![SPACE, GREATER, LINE_FEED]
        }),
        lines.len() >= 2 ==> forall|i: int|
            0 <= i < lines.len() ==> left_mark(lines.len() as int, i) != LESS && right_mark(
                #[trigger] lines.len() as int,
                i,
            ) != GREATER,
{
    let w = max_line_width(lines);
    if lines.len() == 1 {
        assert(body_rows(lines, w, 0) =~= Seq::<u8>::empty());
        assert(body_rows(lines, w, 1) =~= seq![LESS, SPACE] + encode_utf8(lines[0]) + repeat(
            SPACE,
            padding(lines[0], w),
        ) + seq![SPACE, GREATER, LINE_FEED]);
    }
}

/// The top border is a space and `w + 2` underscores, and the bottom
/// border, after the rows, a space and `w + 2` dashes, where `w` is the
/// width of the widest line.
pub proof fn lemma_border_length(lines: Seq<Seq<char>>, art: Seq<char>)
    ensures
        ({
            let out = bubble(lines, art);
            let w = max_line_width(lines);
            let k = w + 4 + body_rows(lines, w, lines.len() as int).len();
            let wi = w as int;
            let ki = k as int;
            &&& out.subrange(0, wi + 4) == seq![SPACE] + repeat(UNDERSCORE, w + 2) + seq![
                LINE_FEED,
            ]
            &&& out.subrange(ki, ki + wi + 3) == seq![SPACE] + repeat(DASH, w + 2)
        }),
{
    let out = bubble(lines, art);
    let w = max_line_width(lines);
    let rows = body_rows(lines, w, lines.len() as int);
    let wi = w as int;
    let ki = wi + 4 + rows.len();
    assert(top_border(w).len() == wi + 4);
    assert(out.subrange(0, wi + 4) =~= top_border(w));
    assert(out.subrange(ki, ki + wi + 3) =~= bottom_border(w));
}

/// One word of printable ASCII: no space, no control character.
pub open spec fn is_ascii_word(s: Seq<char>) -> bool {
    forall|i: int| 0 <= i < s.len() ==> is_visible_ascii(#[trigger] s[i])
}

/// A text without line feeds is one line; the empty text has none.
proof fn lemma_single_line(s: Seq<char>)
    requires
        !s.contains('\n'),
    ensures
        s.len() > 0 ==> lines_of(s) == seq![s],
        s.len() == 0 ==> lines_of(s).len() == 0,
{
    if s.len() > 0 {
        assert forall|m: int| 0 <= m < s.len() implies s[m] != '\n' by {
            if s[m] == '\n' {
                assert(s.contains('\n'));
            }
        }
        lemma_line_end_step(s, 0, s.len() as int);
        assert(line_end(s, s.len() as int) == s.len());
        assert(s.subrange(0, s.len() as int) =~= s);
    }
}

/// Draws `input` in a bubble under which `mascot` stands. Runs of
/// horizontal white space are merged into one space, the text is wrapped to
/// `max_width` columns, and the bubble is as wide as its widest line. A
/// message with no line gives one empty row.
///
/// A single word of printable ASCII shorter than `max_width` stays one line,
/// and the bubble is exactly as wide as the word is long.
pub fn render(input: &str, max_width: usize, mascot: Mascot) -> (out: Vec<u8>)
    ensures
        out@ == bubble(
            message_lines(filled(collapse(input@), max_width as nat)),
            mascot_art(mascot),
        ),
        is_ascii_word(input@) && input@.len() < max_width ==> out@ == bubble(
            seq![input@],
            mascot_art(mascot),
        ) && max_line_width(seq![input@]) == input@.len(),
{
    let merged = merge_white_spaces(input);
    let wrapped = fill_text(merged.as_str(), max_width);
    let mut lines = split_lines(wrapped.as_str());
    if lines.len() == 0 {
        lines.push("");
        proof {
            reveal_strlit("");
            assert(lines@.len() == 1);
            assert(lines@[0]@ =~= Seq::<char>::empty());
            assert(views(lines@) =~= seq![Seq::<char>::empty()]);
        }
    }
    assert(views(lines@) == message_lines(filled(collapse(input@), max_width as nat)));
    let out = draw_bubble(lines.as_slice(), mascot);
    proof {
        let s = input@;
        if is_ascii_word(s) && s.len() < max_width {
            assert(is_collapsed(s));
            lemma_collapse_fixed(s);
            assert(vstd::utf8::is_ascii_chars(s)) by {
                assert forall|i: int| 0 <= i < s.len() implies '\0' <= #[trigger] s[i] <= '\u{7f}' by {
                    assert(is_visible_ascii(s[i]));
                    
                }
            }
            vstd::utf8::is_ascii_chars_encode_utf8(s);
            assert(!s.contains('\n')) by {
                if s.contains('\n') {
                    let k = choose|k: int| 0 <= k < s.len() && s[k] == '\n';
                    assert(is_visible_ascii(s[k]));
                }
            }
            if s.len() > 0 {
                assert(is_visible_ascii(s.last()));
            }
            assert(trim_end_spaces(s) == s);
            lemma_single_line(s);
            if s.len() == 0 {
                assert(views(lines@) =~= seq![s]);
            }
            assert(views(lines@) == seq![s]);
            assert(lines@[0]@ == s);
            assert(all_printable_ascii(lines@[0]@));
            assert(display_width(s) == s.len());
            assert(seq![s].drop_last() =~= Seq::<Seq<char>>::empty());
            assert(max_line_width(Seq::<Seq<char>>::empty()) == 0);
            assert(max_line_width(seq![s]) == s.len());
        }
    }
    out
}

} // verus!
