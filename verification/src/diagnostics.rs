//! The diagnostic value and its rendering.
//!
//! A rendering is five text segments in a fixed order — header, severity
//! label, message, context line, caret line — each with the style it is to
//! be shown in.  A backend turns the segment list into one string, either
//! plain or wrapped in ANSI escape sequences.

use core::ops::Range;
use vstd::prelude::*;
use vstd::utf8::{decode_utf8, encode_utf8};

use crate::locate::{
    lemma_line_text_slice, line_at, line_start_at, line_text, newline_count, position,
};
use crate::style::{
    esc, esc_free, lemma_stripped_paint, paint, stripped, style_prefix, style_suffix, Hue,
    TextStyle,
};

verus! {

/// How severe a diagnostic is; decides only its label text and colour.
#[derive(Clone, Copy, Debug)]
pub enum Level {
    Warning,
    Error,
}

/// The fixed label shown for the severity, surrounding spaces included.
pub open spec fn label_text(l: Level) -> Seq<char> {
    match l {
        Level::Warning => seq![' ', 'w', 'a', 'r', 'n', 'i', 'n', 'g', ':', ' '],
        Level::Error => seq![' ', 'e', 'r', 'r', 'o', 'r', ':', ' '],
    }
}

/// The colour the severity is shown in.
pub open spec fn hue_of(l: Level) -> Hue {
    match l {
        Level::Warning => Hue::Purple,
        Level::Error => Hue::Red,
    }
}

impl Level {
    /// The fixed label for this severity, surrounding spaces included.
    pub fn label(&self) -> (r: &'static str)
        ensures
            r@ == label_text(*self),
    {
        proof {
            reveal_strlit(" warning: ");
            reveal_strlit(" error: ");
        }
        match self {
            Level::Warning => " warning: ",
            Level::Error => " error: ",
        }
    }

    /// The colour for this severity: purple for a warning, red for an error.
    pub fn hue(&self) -> (r: Hue)
        ensures
            r == hue_of(*self),
    {
        match self {
            Level::Warning => Hue::Purple,
            Level::Error => Hue::Red,
        }
    }
}

/// One diagnostic: what is reported, about which file, and optionally
/// where in its text, as a half-open byte range into `source`.
#[derive(Debug)]
pub struct Info {
    pub level: Level,
    pub filename: String,
    pub message: String,
    /// Half-open byte range `[start, end)` of the faulty span in `source`.
    pub position: Option<Range<usize>>,
    pub source: Option<String>,
}

/// Both a byte range and the source text it indexes into are at hand, so
/// a line and column can be resolved.
pub open spec fn has_location(info: Info) -> bool {
    info.position is Some && info.source is Some
}

/// The UTF-8 bytes of the source text, when there is one.
pub open spec fn source_bytes(info: Info) -> Seq<u8> {
    match info.source {
        Some(s) => encode_utf8(s@),
        None => Seq::empty(),
    }
}

/// The byte offset at which the faulty span starts.
pub open spec fn start_offset(info: Info) -> int {
    match info.position {
        Some(r) => r.start as int,
        None => 0,
    }
}

/// The width of the faulty span in bytes.
pub open spec fn span_width(info: Info) -> int {
    match info.position {
        Some(r) => r.end - r.start,
        None => 0,
    }
}

/// The zero-indexed line the span starts on.
pub open spec fn line_of(info: Info) -> int {
    newline_count(source_bytes(info), start_offset(info))
}

/// The zero-indexed byte column of the span's start on its line.
pub open spec fn col_of(info: Info) -> int {
    start_offset(info) - line_start_at(source_bytes(info), start_offset(info))
}

impl Info {
    /// A well-formed diagnostic: the range is ordered, and when a source
    /// is at hand the range starts inside it (the renderer's precondition;
    /// the bound under `usize::MAX` only leaves room to display the
    /// position one-based).
    pub open spec fn wf(&self) -> bool {
        &&& match self.position {
            Some(r) => r.start <= r.end && r.start < usize::MAX,
            None => true,
        }
        &&& has_location(*self) ==> start_offset(*self) <= source_bytes(*self).len()
    }
}

/// `n` repetitions of the character `c`.
pub open spec fn char_repeat(c: char, n: int) -> Seq<char> {
    Seq::new(n as nat, |i: int| c)
}

/// The decimal digits of `n`, most significant first.
pub open spec fn dec_digits(n: int) -> Seq<char>
    recommends
        n >= 0,
    decreases n,
{
    if n < 10 {
        seq![digit_char(n)]
    } else {
        dec_digits(n / 10) + seq![digit_char(n % 10)]
    }
}

/// The character for one decimal digit.
pub open spec fn digit_char(d: int) -> char {
    if d == 0 {
        '0'
    } else if d == 1 {
        '1'
    } else if d == 2 {
        '2'
    } else if d == 3 {
        '3'
    } else if d == 4 {
        '4'
    } else if d == 5 {
        '5'
    } else if d == 6 {
        '6'
    } else if d == 7 {
        '7'
    } else if d == 8 {
        '8'
    } else {
        '9'
    }
}

fn digit_str(d: usize) -> (r: &'static str)
    requires
        d < 10,
    ensures
        r@ == seq![digit_char(d as int)],
{
    proof {
        reveal_strlit("0");
        reveal_strlit("1");
        reveal_strlit("2");
        reveal_strlit("3");
        reveal_strlit("4");
        reveal_strlit("5");
        reveal_strlit("6");
        reveal_strlit("7");
        reveal_strlit("8");
        reveal_strlit("9");
    }
    match d {
        0 => "0",
        1 => "1",
        2 => "2",
        3 => "3",
        4 => "4",
        5 => "5",
        6 => "6",
        7 => "7",
        8 => "8",
        _ => "9",
    }
}

/// `n` written in decimal.
pub fn dec_string(n: usize) -> (r: String)
    ensures
        r@ == dec_digits(n as int),
    decreases n,
{
    if n < 10 {
        let mut s = String::new();
        s.append(digit_str(n));
        proof {
            assert(Seq::<char>::empty() + seq![digit_char(n as int)] =~= seq![
                digit_char(n as int),
            ]);
        }
        s
    } else {
        let mut s = dec_string(n / 10);
        s.append(digit_str(n % 10));
        s
    }
}

/// One segment of a rendering: its text and the style it is shown in.
#[derive(Debug)]
pub struct Segment {
    pub text: String,
    pub style: TextStyle,
}

/// The header: the file name, and when the position is resolved, the
/// one-based line and column appended as `:line:column`.
pub open spec fn header_text(info: Info) -> Seq<char> {
    if has_location(info) {
        info.filename@ + seq![':'] + dec_digits(line_of(info) + 1) + seq![':'] + dec_digits(
            col_of(info) + 1,
        )
    } else {
        info.filename@
    }
}

/// The context line: a newline, then the source line the span starts on;
/// empty when no position is resolved.
pub open spec fn context_text(info: Info) -> Seq<char> {
    if has_location(info) {
        seq!['\n'] + line_text(source_bytes(info), start_offset(info))
    } else {
        Seq::empty()
    }
}

/// One tilde for each byte of the span beyond the first; an empty span
/// still gets its caret and no tildes.
pub open spec fn tilde_count(info: Info) -> int {
    if span_width(info) <= 1 {
        0
    } else {
        span_width(info) - 1
    }
}

/// The caret line: a newline, one space per column, a caret under the
/// span's first byte, and the tildes; empty when no position is resolved.
pub open spec fn caret_text(info: Info) -> Seq<char> {
    if has_location(info) {
        seq!['\n'] + char_repeat(' ', col_of(info)) + seq!['^'] + char_repeat(
            '~',
            tilde_count(info),
        )
    } else {
        Seq::empty()
    }
}

/// The plain rendering: the five segments in their fixed order, with no
/// separators beyond what each segment itself embeds.
pub open spec fn plain_text(info: Info) -> Seq<char> {
    header_text(info) + label_text(info.level) + info.message@ + context_text(info) + caret_text(
        info,
    )
}

/// One segment wrapped in its style's escape sequences.
pub open spec fn wrap(s: TextStyle, t: Seq<char>) -> Seq<char> {
    style_prefix(s) + t + style_suffix(s)
}

/// The styled rendering: header and message bold, label and caret line
/// bold in the severity's colour, context line unstyled.
pub open spec fn styled_text(info: Info) -> Seq<char> {
    wrap(TextStyle::Bold, header_text(info)) + wrap(
        TextStyle::BoldColored(hue_of(info.level)),
        label_text(info.level),
    ) + wrap(TextStyle::Bold, info.message@) + wrap(TextStyle::Plain, context_text(info)) + wrap(
        TextStyle::BoldColored(hue_of(info.level)),
        caret_text(info),
    )
}

impl Info {
    /// The five segments of this diagnostic's rendering, in their fixed
    /// order: header, severity label, message, context line, caret line.
    pub fn segments(&self) -> (r: Vec<Segment>)
        requires
            self.wf(),
        ensures
            r@.len() == 5,
            r@[0].text@ == header_text(*self) && r@[0].style == TextStyle::Bold,
            r@[1].text@ == label_text(self.level) && r@[1].style == TextStyle::BoldColored(
                hue_of(self.level),
            ),
            r@[2].text@ == self.message@ && r@[2].style == TextStyle::Bold,
            r@[3].text@ == context_text(*self) && r@[3].style == TextStyle::Plain,
            r@[4].text@ == caret_text(*self) && r@[4].style == TextStyle::BoldColored(
                hue_of(self.level),
            ),
    {
        proof {
            reveal_strlit(":");
            reveal_strlit("\n");
            reveal_strlit(" ");
            reveal_strlit("^");
            reveal_strlit("~");
        }
        let mut header = self.filename.clone();
        let mut context = String::new();
        let mut caret = String::new();
        if let (Some(range), Some(source)) = (&self.position, &self.source) {
            let (line_idx, col_idx) = position(source.as_str(), range.start);

            header.append(":");
            let line_num = dec_string(line_idx + 1);
            header.append(line_num.as_str());
            header.append(":");
            let col_num = dec_string(col_idx + 1);
            header.append(col_num.as_str());
            proof {
                assert(header@ =~= header_text(*self));
            }

            let line = line_at(source.as_str(), range.start, range.start - col_idx);
            context.append("\n");
            context.append(line);
            proof {
                assert(context@ =~= context_text(*self));
            }

            caret.append("\n");
            let mut k: usize = 0;
            while k < col_idx
                invariant
                    k <= col_idx,
                    caret@ == seq!['\n'] + char_repeat(' ', k as int),
                decreases col_idx - k,
            {
                caret.append(" ");
                k = k + 1;
                proof {
                    reveal_strlit(" ");
                    assert(caret@ =~= seq!['\n'] + char_repeat(' ', k as int));
                }
            }
            caret.append("^");
            let width = range.end - range.start;
            let tildes: usize = if width <= 1 {
                0
            } else {
                width - 1
            };
            let mut t: usize = 0;
            while t < tildes
                invariant
                    t <= tildes,
                    tildes as int == tilde_count(*self),
                    caret@ == seq!['\n'] + char_repeat(' ', col_of(*self)) + seq!['^']
                        + char_repeat('~', t as int),
                decreases tildes - t,
            {
                caret.append("~");
                t = t + 1;
                proof {
                    reveal_strlit("~");
                    assert(caret@ =~= seq!['\n'] + char_repeat(' ', col_of(*self)) + seq!['^']
                        + char_repeat('~', t as int));
                }
            }
            proof {
                assert(caret@ =~= caret_text(*self));
            }
        }
        let mut segs: Vec<Segment> = Vec::new();
        segs.push(Segment { text: header, style: TextStyle::Bold });
        segs.push(
            Segment {
                text: self.level.label().to_owned(),
                style: TextStyle::BoldColored(self.level.hue()),
            },
        );
        segs.push(Segment { text: self.message.clone(), style: TextStyle::Bold });
        segs.push(Segment { text: context, style: TextStyle::Plain });
        segs.push(
            Segment { text: caret, style: TextStyle::BoldColored(self.level.hue()) },
        );
        segs
    }
}

/// Texts of the first `n` segments, concatenated with nothing between.
pub open spec fn plain_concat(segs: Seq<Segment>, n: int) -> Seq<char>
    decreases n,
{
    if n <= 0 {
        Seq::empty()
    } else {
        plain_concat(segs, n - 1) + segs[n - 1].text@
    }
}

/// The first `n` segments, each wrapped in its style's escape sequences,
/// concatenated with nothing between.
pub open spec fn styled_concat(segs: Seq<Segment>, n: int) -> Seq<char>
    decreases n,
{
    if n <= 0 {
        Seq::empty()
    } else {
        styled_concat(segs, n - 1) + wrap(segs[n - 1].style, segs[n - 1].text@)
    }
}

/// The plain-text backend: the segments' texts concatenated, with the
/// styles ignored.
pub fn render_segments_plain(segs: &Vec<Segment>) -> (r: String)
    ensures
        r@ == plain_concat(segs@, segs@.len() as int),
{
    let mut out = String::new();
    let mut k: usize = 0;
    proof {
        assert(out@ =~= plain_concat(segs@, 0));
    }
    while k < segs.len()
        invariant
            k <= segs@.len(),
            out@ == plain_concat(segs@, k as int),
        decreases segs@.len() - k,
    {
        out.append(segs[k].text.as_str());
        k = k + 1;
    }
    out
}

/// The terminal backend: each segment painted with its style, then all of
/// them concatenated.
pub fn render_segments_ansi(segs: &Vec<Segment>) -> (r: String)
    ensures
        r@ == styled_concat(segs@, segs@.len() as int),
{
    let mut out = String::new();
    let mut k: usize = 0;
    proof {
        assert(out@ =~= styled_concat(segs@, 0));
    }
    while k < segs.len()
        invariant
            k <= segs@.len(),
            out@ == styled_concat(segs@, k as int),
        decreases segs@.len() - k,
    {
        let painted = paint(&segs[k].style, segs[k].text.as_str());
        out.append(painted.as_str());
        k = k + 1;
        proof {
            assert(out@ =~= styled_concat(segs@, k as int));
        }
    }
    out
}

impl Info {
    /// The full rendering with ANSI styling, ready for a terminal.
    pub fn render(&self) -> (r: String)
        requires
            self.wf(),
        ensures
            r@ == styled_text(*self),
    {
        let segs = self.segments();
        let out = render_segments_ansi(&segs);
        proof {
            let s = segs@;
            assert(styled_concat(s, 1) == styled_concat(s, 0) + wrap(s[0].style, s[0].text@));
            assert(styled_concat(s, 2) == styled_concat(s, 1) + wrap(s[1].style, s[1].text@));
            assert(styled_concat(s, 3) == styled_concat(s, 2) + wrap(s[2].style, s[2].text@));
            assert(styled_concat(s, 4) == styled_concat(s, 3) + wrap(s[3].style, s[3].text@));
            assert(styled_concat(s, 5) == styled_concat(s, 4) + wrap(s[4].style, s[4].text@));
            assert(out@ =~= styled_text(*self));
        }
        out
    }

    /// The rendering with no styling at all: exactly the five plain
    /// segments, concatenated.
    pub fn render_plain(&self) -> (r: String)
        requires
            self.wf(),
        ensures
            r@ == plain_text(*self),
    {
        let segs = self.segments();
        let out = render_segments_plain(&segs);
        proof {
            let s = segs@;
            assert(plain_concat(s, 1) == plain_concat(s, 0) + s[0].text@);
            assert(plain_concat(s, 2) == plain_concat(s, 1) + s[1].text@);
            assert(plain_concat(s, 3) == plain_concat(s, 2) + s[2].text@);
            assert(plain_concat(s, 4) == plain_concat(s, 3) + s[3].text@);
            assert(plain_concat(s, 5) == plain_concat(s, 4) + s[4].text@);
            assert(out@ =~= plain_text(*self));
        }
        out
    }
}

/// A diagnostic without a resolved position — either the range or the
/// source is missing — renders with a bare filename header, and with
/// empty context and caret lines.
pub proof fn lemma_unresolved_render(info: Info)
    requires
        !has_location(info),
    ensures
        header_text(info) == info.filename@,
        context_text(info) == Seq::<char>::empty(),
        caret_text(info) == Seq::<char>::empty(),
        plain_text(info) == info.filename@ + label_text(info.level) + info.message@,
{
    assert(plain_text(info) =~= info.filename@ + label_text(info.level) + info.message@);
}

proof fn lemma_esc_free_concat(a: Seq<char>, b: Seq<char>)
    requires
        esc_free(a),
        esc_free(b),
    ensures
        esc_free(a + b),
{
    assert forall|k: int| 0 <= k < (a + b).len() implies (a + b)[k] != esc() by {
        if k < a.len() {
            assert((a + b)[k] == a[k]);
        } else {
            assert((a + b)[k] == b[k - a.len()]);
        }
    }
}

proof fn lemma_esc_free_dec_digits(n: int)
    ensures
        esc_free(dec_digits(n)),
    decreases n,
{
    if n < 10 {
    } else {
        lemma_esc_free_dec_digits(n / 10);
        lemma_esc_free_concat(dec_digits(n / 10), seq![digit_char(n % 10)]);
    }
}

proof fn lemma_esc_free_header(info: Info)
    requires
        esc_free(info.filename@),
    ensures
        esc_free(header_text(info)),
{
    if has_location(info) {
        lemma_esc_free_dec_digits(line_of(info) + 1);
        lemma_esc_free_dec_digits(col_of(info) + 1);
        lemma_esc_free_concat(info.filename@, seq![':']);
        lemma_esc_free_concat(info.filename@ + seq![':'], dec_digits(line_of(info) + 1));
        lemma_esc_free_concat(
            info.filename@ + seq![':'] + dec_digits(line_of(info) + 1),
            seq![':'],
        );
        lemma_esc_free_concat(
            info.filename@ + seq![':'] + dec_digits(line_of(info) + 1) + seq![':'],
            dec_digits(col_of(info) + 1),
        );
    }
}

proof fn lemma_esc_free_context(info: Info)
    requires
        info.wf(),
        match info.source {
            Some(s) => esc_free(s@),
            None => true,
        },
    ensures
        esc_free(context_text(info)),
{
    broadcast use vstd::utf8::encode_utf8_valid_utf8, vstd::utf8::encode_utf8_decode_utf8;

    if has_location(info) {
        let b = source_bytes(info);
        let i = start_offset(info);
        let t = line_text(b, i);
        lemma_line_text_slice(b, i);
        let (a, c) = choose|a: Seq<char>, c: Seq<char>| decode_utf8(b) == a + t + c;
        let src = info.source->Some_0;
        assert(src@ == a + t + c);
        assert forall|k: int| 0 <= k < t.len() implies t[k] != esc() by {
            assert((a + t)[a.len() + k] == t[k]);
            assert((a + t + c)[a.len() + k] == t[k]);
            assert(src@[a.len() + k] != esc());
        }
        lemma_esc_free_concat(seq!['\n'], t);
    }
}

proof fn lemma_esc_free_caret(info: Info)
    ensures
        esc_free(caret_text(info)),
{
    if has_location(info) {
        lemma_esc_free_concat(seq!['\n'], char_repeat(' ', col_of(info)));
        lemma_esc_free_concat(seq!['\n'] + char_repeat(' ', col_of(info)), seq!['^']);
        lemma_esc_free_concat(
            seq!['\n'] + char_repeat(' ', col_of(info)) + seq!['^'],
            char_repeat('~', tilde_count(info)),
        );
    }
}

/// Round trip through styling: stripping the escape sequences from the
/// styled rendering gives back exactly the plain rendering — the five
/// unstyled segments in their fixed order — for either severity, as long
/// as the diagnostic's own text is free of the escape character that
/// opens a style sequence.
pub proof fn lemma_strip_styled(info: Info)
    requires
        info.wf(),
        esc_free(info.filename@),
        esc_free(info.message@),
        match info.source {
            Some(s) => esc_free(s@),
            None => true,
        },
    ensures
        stripped(styled_text(info)) == plain_text(info),
{
    let t0 = header_text(info);
    let t1 = label_text(info.level);
    let t2 = info.message@;
    let t3 = context_text(info);
    let t4 = caret_text(info);
    let s0 = TextStyle::Bold;
    let s1 = TextStyle::BoldColored(hue_of(info.level));
    let s2 = TextStyle::Bold;
    let s3 = TextStyle::Plain;
    let s4 = TextStyle::BoldColored(hue_of(info.level));
    lemma_esc_free_header(info);
    lemma_esc_free_context(info);
    lemma_esc_free_caret(info);
    assert(esc_free(t1));
    let rest1 = wrap(s1, t1) + wrap(s2, t2) + wrap(s3, t3) + wrap(s4, t4);
    let rest2 = wrap(s2, t2) + wrap(s3, t3) + wrap(s4, t4);
    let rest3 = wrap(s3, t3) + wrap(s4, t4);
    let rest4 = wrap(s4, t4);
    let rest5 = Seq::<char>::empty();
    assert(styled_text(info) =~= style_prefix(s0) + t0 + style_suffix(s0) + rest1);
    lemma_stripped_paint(s0, t0, rest1);
    assert(rest1 =~= style_prefix(s1) + t1 + style_suffix(s1) + rest2);
    lemma_stripped_paint(s1, t1, rest2);
    assert(rest2 =~= style_prefix(s2) + t2 + style_suffix(s2) + rest3);
    lemma_stripped_paint(s2, t2, rest3);
    assert(rest3 =~= style_prefix(s3) + t3 + style_suffix(s3) + rest4);
    lemma_stripped_paint(s3, t3, rest4);
    assert(rest4 =~= style_prefix(s4) + t4 + style_suffix(s4) + rest5);
    lemma_stripped_paint(s4, t4, rest5);
    assert(stripped(styled_text(info)) =~= plain_text(info));
}

/// A span of exactly one byte gets a single caret and no tildes.
pub proof fn lemma_single_caret(info: Info)
    requires
        has_location(info),
        span_width(info) == 1,
    ensures
        caret_text(info) == seq!['\n'] + char_repeat(' ', col_of(info)) + seq!['^'],
{
    assert(caret_text(info) =~= seq!['\n'] + char_repeat(' ', col_of(info)) + seq!['^']);
}

} // verus!
