//! Presentation of the rendered segments: ANSI escape sequences for a
//! terminal, and their removal for a plain-text destination.
//!
//! Styling only ever wraps a segment in a prefix and a suffix; the text of
//! the segment itself is never altered, so stripping the escape sequences
//! from a styled rendering gives back exactly the plain segments.

use vstd::prelude::*;

verus! {

/// The colour a styled segment is shown in.
#[derive(Clone, Copy, Debug, PartialEq, Eq, Structural)]
pub enum Hue {
    Purple,
    Red,
}

/// How one segment of a rendered diagnostic is presented.
#[derive(Clone, Copy, Debug, PartialEq, Eq, Structural)]
pub enum TextStyle {
    /// No styling at all.
    Plain,
    /// Bold, in the default colour.
    Bold,
    /// Bold and coloured.
    BoldColored(Hue),
}

/// The escape character that opens every ANSI style sequence.
pub open spec fn esc() -> char {
    '\u{1b}'
}

/// The escape sequence written before a segment of the given style.
pub open spec fn style_prefix(s: TextStyle) -> Seq<char> {
    match s {
        TextStyle::Plain => Seq::empty(),
        TextStyle::Bold => seq![esc(), '[', '1', 'm'],
        TextStyle::BoldColored(Hue::Purple) => seq![esc(), '[', '1', ';', '3', '5', 'm'],
        TextStyle::BoldColored(Hue::Red) => seq![esc(), '[', '1', ';', '3', '1', 'm'],
    }
}

/// The reset sequence written after a segment of the given style.
pub open spec fn style_suffix(s: TextStyle) -> Seq<char> {
    match s {
        TextStyle::Plain => Seq::empty(),
        _ => seq![esc(), '[', '0', 'm'],
    }
}

/// Relies on ansi_term: `Style::paint` keeps the text unchanged, and the
/// `Display` of the painted string writes the style's prefix (`ESC [ 1 m`
/// for bold, `ESC [ 1 ; 3 5 m` for bold purple, `ESC [ 1 ; 3 1 m` for bold
/// red, nothing for a plain style), then the text, then `ESC [ 0 m` (or
/// nothing for a plain style).
#[verifier::external_body]
pub(crate) fn paint(style: &TextStyle, text: &str) -> (r: String)
    ensures
        r@ == style_prefix(*style) + text@ + style_suffix(*style),
{
    let painted = match style {
        TextStyle::Plain => ansi_term::Style::default().paint(text),
        TextStyle::Bold => ansi_term::Style::new().bold().paint(text),
        TextStyle::BoldColored(Hue::Purple) => ansi_term::Colour::Purple.bold().paint(text),
        TextStyle::BoldColored(Hue::Red) => ansi_term::Colour::Red.bold().paint(text),
    };
    format!("{}", painted)
}

/// Relies on `String::push`: appends exactly the one character.
#[verifier::external_body]
fn push_char(s: &mut String, c: char)
    ensures
        final(s)@ == old(s)@ + seq![c],
{
    s.push(c);
}

/// `s` with every ANSI style sequence removed: from each escape character
/// up to and including the `m` that ends the sequence.
pub open spec fn stripped(s: Seq<char>) -> Seq<char>
    decreases s.len(), 1int,
{
    if s.len() == 0 {
        Seq::empty()
    } else if s[0] == esc() {
        stripped_after_escape(s.drop_first())
    } else {
        seq![s[0]] + stripped(s.drop_first())
    }
}

/// The tail of a style sequence being skipped: everything up to and
/// including the next `m` is dropped, and stripping resumes after it.
pub open spec fn stripped_after_escape(s: Seq<char>) -> Seq<char>
    decreases s.len(), 0int,
{
    if s.len() == 0 {
        Seq::empty()
    } else if s[0] == 'm' {
        stripped(s.drop_first())
    } else {
        stripped_after_escape(s.drop_first())
    }
}

/// No escape character occurs in `s`.
pub open spec fn esc_free(s: Seq<char>) -> bool {
    forall|k: int| 0 <= k < s.len() ==> s[k] != esc()
}

/// Stripping passes escape-free text through unchanged.
pub proof fn lemma_stripped_esc_free(t: Seq<char>, u: Seq<char>)
    requires
        esc_free(t),
    ensures
        stripped(t + u) == t + stripped(u),
    decreases t.len(),
{
    if t.len() == 0 {
        assert(t + u =~= u);
        assert(t + stripped(u) =~= stripped(u));
    } else {
        assert((t + u).drop_first() =~= t.drop_first() + u);
        assert(esc_free(t.drop_first()));
        lemma_stripped_esc_free(t.drop_first(), u);
        assert(seq![t[0]] + (t.drop_first() + stripped(u)) =~= t + stripped(u));
    }
}

proof fn lemma_skip_to_m(q: Seq<char>, u: Seq<char>)
    requires
        q.len() > 0,
        q[q.len() - 1] == 'm',
        forall|k: int| 0 <= k < q.len() - 1 ==> q[k] != 'm',
    ensures
        stripped_after_escape(q + u) == stripped(u),
    decreases q.len(),
{
    if q.len() == 1 {
        assert((q + u).drop_first() =~= u);
    } else {
        assert((q + u).drop_first() =~= q.drop_first() + u);
        lemma_skip_to_m(q.drop_first(), u);
    }
}

/// Stripping removes a whole leading style sequence: an escape character,
/// then anything up to the first `m`, which ends it.
pub proof fn lemma_stripped_escape_seq(p: Seq<char>, u: Seq<char>)
    requires
        p.len() >= 2,
        p[0] == esc(),
        p[p.len() - 1] == 'm',
        forall|k: int| 1 <= k < p.len() - 1 ==> p[k] != 'm',
    ensures
        stripped(p + u) == stripped(u),
{
    assert((p + u).drop_first() =~= p.drop_first() + u);
    lemma_skip_to_m(p.drop_first(), u);
}

/// Stripping a painted segment followed by anything gives the segment's
/// text followed by the rest, stripped.
pub proof fn lemma_stripped_paint(s: TextStyle, t: Seq<char>, u: Seq<char>)
    requires
        esc_free(t),
    ensures
        stripped(style_prefix(s) + t + style_suffix(s) + u) == t + stripped(u),
{
    let p = style_prefix(s);
    let x = style_suffix(s);
    if s is Plain {
        assert(p + t + x + u =~= t + u);
        lemma_stripped_esc_free(t, u);
    } else {
        assert(p + t + x + u =~= p + (t + (x + u)));
        lemma_stripped_escape_seq(p, t + (x + u));
        lemma_stripped_esc_free(t, x + u);
        lemma_stripped_escape_seq(x, u);
    }
}

/// `s` with every ANSI style sequence removed, from each escape character
/// up to and including the `m` that ends it.
pub fn strip_styles(s: &str) -> (r: String)
    ensures
        r@ == stripped(s@),
{
    let n = s.unicode_len();
    let mut out = String::new();
    let mut in_escape = false;
    let mut k: usize = 0;
    proof {
        assert(s@.skip(0) =~= s@);
        assert(out@ + stripped(s@) =~= stripped(s@));
    }
    while k < n
        invariant
            k <= n,
            n == s@.len(),
            stripped(s@) == out@ + if in_escape {
                stripped_after_escape(s@.skip(k as int))
            } else {
                stripped(s@.skip(k as int))
            },
        decreases n - k,
    {
        let c = s.get_char(k);
        proof {
            assert(s@.skip(k as int)[0] == s@[k as int]);
            assert(s@.skip(k as int).drop_first() =~= s@.skip(k as int + 1));
        }
        if in_escape {
            if c == 'm' {
                in_escape = false;
            }
        } else {
            if c == '\u{1b}' {
                in_escape = true;
            } else {
                push_char(&mut out, c);
                proof {
                    assert(out@ + (seq![c] + stripped(s@.skip(k as int + 1))) =~= out@ + seq![c]
                        + stripped(s@.skip(k as int + 1)));
                }
            }
        }
        k = k + 1;
    }
    proof {
        assert(s@.skip(n as int) =~= Seq::empty());
        assert(out@ + Seq::<char>::empty() =~= out@);
    }
    out
}

} // verus!
