//! The event renderer: a single pass over the event stream that appends the
//! formatted text to a buffer.
//!
//! Deliberate choices: the style stack of emphasis and strong spans is kept
//! but writes nothing into the text; an ordered list prints its first number
//! before every item; code blocks and links open a marker that nothing
//! closes; the level of a heading changes nothing; a paragraph ends with
//! exactly one line break, so a paragraph alone renders as its text and
//! `'\n'`.

use crate::token::{all_supported, is_unsupported_tag, is_unsupported_token, Tag, Token};
use vstd::prelude::*;
use vstd::string::StrSliceExecFns;

verus! {

/// Why a render pass failed.
#[derive(Clone, Copy, Debug, PartialEq, Eq)]
pub enum RenderError {
    /// The stream holds a construct that the renderer does not support: a
    /// table, a footnote definition or a footnote reference.
    UnimplementedFeature,
}

/// The buffer with a line break appended, unless it is empty or already
/// ends with one.
pub open spec fn fresh(buf: Seq<char>) -> Seq<char> {
    if buf.len() == 0 || buf.last() == '\n' {
        buf
    } else {
        buf.push('\n')
    }
}

/// Whether `c` is white space in Unicode's sense (the White_Space property).
pub open spec fn is_white(c: char) -> bool {
    ('\u{9}' <= c && c <= '\u{d}') || c == ' ' || c == '\u{85}' || c == '\u{a0}' || c
        == '\u{1680}' || ('\u{2000}' <= c && c <= '\u{200a}') || c == '\u{2028}' || c
        == '\u{2029}' || c == '\u{202f}' || c == '\u{205f}' || c == '\u{3000}'
}

/// `s` without its leading white space.
pub open spec fn skip_white(s: Seq<char>) -> Seq<char>
    decreases s.len(),
{
    if s.len() > 0 && is_white(s[0]) {
        skip_white(s.drop_first())
    } else {
        s
    }
}

/// The characters of `s` before its first white space.
pub open spec fn word_of(s: Seq<char>) -> Seq<char>
    decreases s.len(),
{
    if s.len() == 0 || is_white(s[0]) {
        Seq::empty()
    } else {
        seq![s[0]] + word_of(s.drop_first())
    }
}

/// The language of a code block: the first whitespace-delimited word of its
/// info string.
pub open spec fn lang_of(info: Seq<char>) -> Seq<char> {
    word_of(skip_white(info))
}

/// The marker that opens a code block with the given info string.
pub open spec fn code_open(info: Seq<char>) -> Seq<char> {
    let lang = lang_of(info);
    if lang.len() == 0 {
        "<code>"@
    } else {
        "<code class=\"language-"@ + lang + "\">"@
    }
}

/// The title attribute of a link or an image, empty for an empty title.
pub open spec fn title_part(title: Seq<char>) -> Seq<char> {
    if title.len() == 0 {
        Seq::empty()
    } else {
        "\" title=\""@ + title
    }
}

/// The anchor that a link opens.
pub open spec fn link_open(dest: Seq<char>, title: Seq<char>) -> Seq<char> {
    "<a href=\""@ + dest + title_part(title) + "\">"@
}

/// What an image writes before its alt text.
pub open spec fn image_head(dest: Seq<char>) -> Seq<char> {
    "<img src=\""@ + dest + "\" alt=\""@
}

/// What an image writes after its alt text.
pub open spec fn image_tail(title: Seq<char>) -> Seq<char> {
    title_part(title) + "\" />"@
}

/// The decimal digit for `d < 10`.
pub open spec fn digit(d: nat) -> char {
    ((d + 48) as u8) as char
}

/// The decimal notation of `n`, without leading zeros.
pub open spec fn decimal(n: nat) -> Seq<char>
    decreases n,
{
    if n < 10 {
        seq![digit(n)]
    } else {
        decimal(n / 10).push(digit(n % 10))
    }
}

/// The prefix of a list item: its number in an ordered list, a bullet in
/// an unordered one.
pub open spec fn item_mark(count: Option<usize>) -> Seq<char> {
    match count {
        Some(c) => decimal(c as nat) + ". "@,
        None => "* "@,
    }
}

/// The buffer and list counter after a start event, or `None` where the tag
/// is not supported. An image also drains its alt text, which `run_from`
/// handles.
pub open spec fn start_effect(tag: Tag, buf: Seq<char>, count: Option<usize>) -> Option<
    (Seq<char>, Option<usize>),
> {
    match tag {
        Tag::Paragraph => Some((fresh(buf), count)),
        Tag::Rule => Some((fresh(buf) + "<hr />\n"@, count)),
        Tag::Header(_) => Some((fresh(buf), count)),
        Tag::BlockQuote => Some((fresh(buf) + "\n"@, count)),
        Tag::CodeBlock(info) => Some((fresh(buf) + code_open(info@), count)),
        Tag::List(c) => Some((fresh(buf), c)),
        Tag::Item => Some((fresh(buf) + item_mark(count), count)),
        Tag::Emphasis => Some((buf, count)),
        Tag::Strong => Some((buf, count)),
        Tag::Code => Some((buf.push('\t'), count)),
        Tag::Link(dest, title) => Some((buf + link_open(dest@, title@), count)),
        Tag::Image(dest, _) => Some((buf + image_head(dest@), count)),
        _ => None,
    }
}

/// The buffer after an end event, or `None` where the tag is not supported.
pub open spec fn end_effect(tag: Tag, buf: Seq<char>) -> Option<Seq<char>> {
    match tag {
        Tag::Paragraph => Some(buf.push('\n')),
        Tag::Header(_) => Some(buf.push('\n')),
        _ => if is_unsupported_tag(tag) {
            None
        } else {
            Some(buf)
        },
    }
}

/// The text that a render pass produces from position `i` of `toks` on, with
/// `buf` written so far and `count` the list counter; `None` where it fails.
/// `alt` is `Some((nest, title))` while the alt text of an image is drained:
/// `nest` counts the start events inside it that are still open, `title` is
/// the image's title.
pub open spec fn run_from(
    toks: Seq<Token>,
    i: int,
    buf: Seq<char>,
    count: Option<usize>,
    alt: Option<(nat, Seq<char>)>,
) -> Option<Seq<char>>
    decreases toks.len() - i,
{
    if i < 0 || i >= toks.len() {
        match alt {
            None => Some(buf),
            Some((_, title)) => Some(buf + image_tail(title)),
        }
    } else {
        match alt {
            Some((nest, title)) => match toks[i] {
                Token::Start(tag) => if is_unsupported_tag(tag) {
                    None
                } else {
                    run_from(toks, i + 1, buf, count, Some((nest + 1, title)))
                },
                Token::End(tag) => if is_unsupported_tag(tag) {
                    None
                } else if nest == 0 {
                    run_from(toks, i + 1, buf + image_tail(title), count, None)
                } else {
                    run_from(toks, i + 1, buf, count, Some(((nest - 1) as nat, title)))
                },
                Token::Text(s) => run_from(toks, i + 1, buf + s@, count, alt),
                Token::Html(_) => run_from(toks, i + 1, buf, count, alt),
                Token::InlineHtml(s) => run_from(toks, i + 1, buf + s@, count, alt),
                Token::SoftBreak => run_from(toks, i + 1, buf.push(' '), count, alt),
                Token::HardBreak => run_from(toks, i + 1, buf.push(' '), count, alt),
                Token::FootnoteReference(_) => None,
            },
            None => match toks[i] {
                Token::Start(tag) => match start_effect(tag, buf, count) {
                    Some((b, c)) => match tag {
                        Tag::Image(_, title) => run_from(toks, i + 1, b, c, Some((0, title@))),
                        _ => run_from(toks, i + 1, b, c, None),
                    },
                    None => None,
                },
                Token::End(tag) => match end_effect(tag, buf) {
                    Some(b) => run_from(toks, i + 1, b, count, None),
                    None => None,
                },
                Token::Text(s) => run_from(toks, i + 1, buf + s@, count, None),
                Token::Html(s) => run_from(toks, i + 1, buf + s@, count, None),
                Token::InlineHtml(s) => run_from(toks, i + 1, buf + s@, count, None),
                Token::SoftBreak => run_from(toks, i + 1, buf.push('\n'), count, None),
                Token::HardBreak => run_from(toks, i + 1, buf + "<br />\n"@, count, None),
                Token::FootnoteReference(_) => None,
            },
        }
    }
}

/// The text that rendering `toks` appends to `prefix`, or `None` where the
/// pass fails.
pub open spec fn rendered(toks: Seq<Token>, prefix: Seq<char>) -> Option<Seq<char>> {
    run_from(toks, 0, prefix, None, None)
}

/// The position just after the end event that closes the alt text drained
/// from position `i` with `nest` inner start events open, or the end of the
/// stream where none closes it.
pub open spec fn alt_end(toks: Seq<Token>, i: int, nest: nat) -> int
    decreases toks.len() - i,
{
    if i < 0 || i >= toks.len() {
        toks.len() as int
    } else {
        match toks[i] {
            Token::Start(_) => alt_end(toks, i + 1, nest + 1),
            Token::End(_) => if nest == 0 {
                i + 1
            } else {
                alt_end(toks, i + 1, (nest - 1) as nat)
            },
            _ => alt_end(toks, i + 1, nest),
        }
    }
}

/// Whether the alt text drained from position `i` with `nest` inner start
/// events open holds an unsupported event before the end event that closes
/// it.
pub open spec fn alt_fails(toks: Seq<Token>, i: int, nest: nat) -> bool
    decreases toks.len() - i,
{
    if i < 0 || i >= toks.len() {
        false
    } else {
        match toks[i] {
            Token::Start(tag) => is_unsupported_tag(tag) || alt_fails(toks, i + 1, nest + 1),
            Token::End(tag) => is_unsupported_tag(tag) || (nest != 0 && alt_fails(
                toks,
                i + 1,
                (nest - 1) as nat,
            )),
            Token::FootnoteReference(_) => true,
            _ => alt_fails(toks, i + 1, nest),
        }
    }
}

/// The style in effect: the innermost open span's, else the base style.
pub open spec fn style_top(stack: Seq<ansi_term::Style>, base: ansi_term::Style) -> ansi_term::Style {
    if stack.len() == 0 {
        base
    } else {
        stack.last()
    }
}

/// The style stack with its innermost span closed; an empty stack stays
/// empty.
pub open spec fn style_pop(stack: Seq<ansi_term::Style>) -> Seq<ansi_term::Style> {
    if stack.len() == 0 {
        stack
    } else {
        stack.drop_last()
    }
}

/// The style stack after a pass over `toks` from position `i`, starting from
/// `stack` over the base style `base`; `alt` is `Some(nest)` while the alt
/// text of an image is drained, as in `run_from`. Failures are not tracked.
pub open spec fn styles_from(
    toks: Seq<Token>,
    i: int,
    stack: Seq<ansi_term::Style>,
    base: ansi_term::Style,
    alt: Option<nat>,
) -> Seq<ansi_term::Style>
    decreases toks.len() - i,
{
    if i < 0 || i >= toks.len() {
        stack
    } else {
        match alt {
            Some(nest) => match toks[i] {
                Token::Start(_) => styles_from(toks, i + 1, stack, base, Some(nest + 1)),
                Token::End(_) => if nest == 0 {
                    styles_from(toks, i + 1, stack, base, None)
                } else {
                    styles_from(toks, i + 1, stack, base, Some((nest - 1) as nat))
                },
                _ => styles_from(toks, i + 1, stack, base, alt),
            },
            None => match toks[i] {
                Token::Start(Tag::Emphasis) => styles_from(
                    toks,
                    i + 1,
                    stack.push(ansi_term::Style { is_italic: true, ..style_top(stack, base) }),
                    base,
                    None,
                ),
                Token::Start(Tag::Strong) => styles_from(
                    toks,
                    i + 1,
                    stack.push(ansi_term::Style { is_bold: true, ..style_top(stack, base) }),
                    base,
                    None,
                ),
                Token::Start(Tag::Image(_, _)) => styles_from(toks, i + 1, stack, base, Some(0)),
                Token::End(Tag::Emphasis) => styles_from(toks, i + 1, style_pop(stack), base, None),
                Token::End(Tag::Strong) => styles_from(toks, i + 1, style_pop(stack), base, None),
                _ => styles_from(toks, i + 1, stack, base, None),
            },
        }
    }
}

/// Whether, from position `i` with `depth` emphasis or strong spans open,
/// every such span that the main pass meets is closed after it is opened,
/// and all are closed at the end. Spans inside alt text do not count.
pub open spec fn spans_closed_from(toks: Seq<Token>, i: int, depth: nat, alt: Option<nat>) -> bool
    decreases toks.len() - i,
{
    if i < 0 || i >= toks.len() {
        depth == 0
    } else {
        match alt {
            Some(nest) => match toks[i] {
                Token::Start(_) => spans_closed_from(toks, i + 1, depth, Some(nest + 1)),
                Token::End(_) => if nest == 0 {
                    spans_closed_from(toks, i + 1, depth, None)
                } else {
                    spans_closed_from(toks, i + 1, depth, Some((nest - 1) as nat))
                },
                _ => spans_closed_from(toks, i + 1, depth, alt),
            },
            None => match toks[i] {
                Token::Start(Tag::Emphasis) => spans_closed_from(toks, i + 1, depth + 1, None),
                Token::Start(Tag::Strong) => spans_closed_from(toks, i + 1, depth + 1, None),
                Token::Start(Tag::Image(_, _)) => spans_closed_from(toks, i + 1, depth, Some(0)),
                Token::End(Tag::Emphasis) => depth > 0 && spans_closed_from(
                    toks,
                    i + 1,
                    (depth - 1) as nat,
                    None,
                ),
                Token::End(Tag::Strong) => depth > 0 && spans_closed_from(
                    toks,
                    i + 1,
                    (depth - 1) as nat,
                    None,
                ),
                _ => spans_closed_from(toks, i + 1, depth, None),
            },
        }
    }
}

/// Whether the emphasis and strong spans of `toks` are balanced.
pub open spec fn spans_balanced(toks: Seq<Token>) -> bool {
    spans_closed_from(toks, 0, 0, None)
}

/// The text that the alt text drained from position `i`, with `nest` inner
/// start events open, adds to the buffer: text and inline markup verbatim,
/// a space for each line break, nothing for structure events or block-level
/// markup, up to the end event that closes it or the end of the stream.
pub open spec fn alt_text(toks: Seq<Token>, i: int, nest: nat) -> Seq<char>
    decreases toks.len() - i,
{
    if i < 0 || i >= toks.len() {
        Seq::empty()
    } else {
        match toks[i] {
            Token::Start(_) => alt_text(toks, i + 1, nest + 1),
            Token::End(_) => if nest == 0 {
                Seq::empty()
            } else {
                alt_text(toks, i + 1, (nest - 1) as nat)
            },
            Token::Text(s) => s@ + alt_text(toks, i + 1, nest),
            Token::InlineHtml(s) => s@ + alt_text(toks, i + 1, nest),
            Token::SoftBreak => seq![' '] + alt_text(toks, i + 1, nest),
            Token::HardBreak => seq![' '] + alt_text(toks, i + 1, nest),
            _ => alt_text(toks, i + 1, nest),
        }
    }
}

/// The list counter after a pass over `toks` from position `i`, starting
/// from `count`; `alt` is `Some(nest)` while the alt text of an image is
/// drained, as in `run_from`. Only a list start outside alt text sets it.
/// Failures are not tracked.
pub open spec fn count_from(toks: Seq<Token>, i: int, count: Option<usize>, alt: Option<nat>) -> Option<
    usize,
>
    decreases toks.len() - i,
{
    if i < 0 || i >= toks.len() {
        count
    } else {
        match alt {
            Some(nest) => match toks[i] {
                Token::Start(_) => count_from(toks, i + 1, count, Some(nest + 1)),
                Token::End(_) => if nest == 0 {
                    count_from(toks, i + 1, count, None)
                } else {
                    count_from(toks, i + 1, count, Some((nest - 1) as nat))
                },
                _ => count_from(toks, i + 1, count, alt),
            },
            None => match toks[i] {
                Token::Start(Tag::List(c)) => count_from(toks, i + 1, c, None),
                Token::Start(Tag::Image(_, _)) => count_from(toks, i + 1, count, Some(0)),
                _ => count_from(toks, i + 1, count, None),
            },
        }
    }
}

/// Relies on `String::push_str`: appends the characters of `s`.
#[verifier::external_body]
fn push_str(buf: &mut String, s: &str)
    ensures
        final(buf)@ == old(buf)@ + s@,
{
    buf.push_str(s)
}

/// Relies on `String::push`: appends one character.
#[verifier::external_body]
fn push_char(buf: &mut String, c: char)
    ensures
        final(buf)@ == old(buf)@.push(c),
{
    buf.push(c)
}

/// Whether the last character of `s` is `c`.
fn ends_with_char(s: &str, c: char) -> (r: bool)
    ensures
        r == (s@.len() > 0 && s@.last() == c),
{
    let n = s.unicode_len();
    n > 0 && s.get_char(n - 1) == c
}

/// Appends the decimal notation of `n`.
fn push_decimal(buf: &mut String, n: usize)
    ensures
        final(buf)@ == old(buf)@ + decimal(n as nat),
    decreases n,
{
    if n >= 10 {
        push_decimal(buf, n / 10);
    }
    let d: u8 = (n % 10) as u8;
    push_char(buf, (d + 48) as char);
    proof {
        if n >= 10 {
            assert(decimal(n as nat) == decimal((n / 10) as nat).push(digit((n % 10) as nat)));
        }
        assert(final(buf)@ =~= old(buf)@ + decimal(n as nat));
    }
}

/// Whether `c` is white space in Unicode's sense.
fn is_white_char(c: char) -> (r: bool)
    ensures
        r == is_white(c),
{
    ('\u{9}' <= c && c <= '\u{d}') || c == ' ' || c == '\u{85}' || c == '\u{a0}' || c
        == '\u{1680}' || ('\u{2000}' <= c && c <= '\u{200a}') || c == '\u{2028}' || c
        == '\u{2029}' || c == '\u{202f}' || c == '\u{205f}' || c == '\u{3000}'
}

proof fn lemma_skip_white(s: Seq<char>, i: int)
    requires
        0 <= i <= s.len(),
        forall|j: int| 0 <= j < i ==> is_white(s[j]),
        i == s.len() || !is_white(s[i]),
    ensures
        skip_white(s) == s.skip(i),
    decreases i,
{
    if i > 0 {
        lemma_skip_white(s.drop_first(), i - 1);
        assert(s.drop_first().skip(i - 1) =~= s.skip(i));
    } else {
        assert(s.skip(0) =~= s);
    }
}

proof fn lemma_word_of(s: Seq<char>, i: int)
    requires
        0 <= i <= s.len(),
        forall|j: int| 0 <= j < i ==> !is_white(s[j]),
        i == s.len() || is_white(s[i]),
    ensures
        word_of(s) == s.take(i),
    decreases i,
{
    if i > 0 {
        lemma_word_of(s.drop_first(), i - 1);
        assert(s.take(i) =~= seq![s[0]] + s.drop_first().take(i - 1));
    } else {
        assert(s.take(0) =~= Seq::<char>::empty());
    }
}

/// The language of a code block: the first whitespace-delimited word of
/// `info`.
fn lang(info: &str) -> (r: &str)
    ensures
        r@ == lang_of(info@),
{
    let n = info.unicode_len();
    let mut i: usize = 0;
    while i < n && is_white_char(info.get_char(i))
        invariant
            n == info@.len(),
            i <= n,
            forall|j: int| 0 <= j < i ==> is_white(info@[j]),
        decreases n - i,
    {
        i = i + 1;
    }
    let mut k: usize = i;
    while k < n && !is_white_char(info.get_char(k))
        invariant
            n == info@.len(),
            i <= k <= n,
            forall|j: int| i <= j < k ==> !is_white(info@[j]),
        decreases n - k,
    {
        k = k + 1;
    }
    proof {
        lemma_skip_white(info@, i as int);
        lemma_word_of(info@.skip(i as int), k - i);
        assert(info@.skip(i as int).take(k - i) =~= info@.subrange(i as int, k as int));
    }
    info.substring_char(i, k)
}

/// Whether the renderer reports an unimplemented feature on `tag`.
fn unsupported(tag: &Tag) -> (r: bool)
    ensures
        r == is_unsupported_tag(*tag),
{
    match tag {
        Tag::Table(_) | Tag::TableHead | Tag::TableRow | Tag::TableCell => true,
        Tag::FootnoteDefinition(_) => true,
        _ => false,
    }
}

/// The state of one render pass.
struct Ctx {
    /// The text written so far.
    buf: String,
    /// The position of the next token to read.
    pos: usize,
    base_style: ansi_term::Style,
    /// One style for each emphasis or strong span that is open.
    style_stack: Vec<ansi_term::Style>,
    /// The number printed before the items of the list opened last, `None`
    /// for an unordered list.
    list_count: Option<usize>,
}

impl Ctx {
    /// Breaks the line unless the buffer is empty or ends with a line break.
    fn fresh_line(&mut self)
        ensures
            final(self).buf@ == fresh(old(self).buf@),
            final(self).pos == old(self).pos,
            final(self).base_style == old(self).base_style,
            final(self).style_stack == old(self).style_stack,
            final(self).list_count == old(self).list_count,
    {
        if !(self.buf.as_str().is_empty() || ends_with_char(self.buf.as_str(), '\n')) {
            push_char(&mut self.buf, '\n');
        }
    }

    /// Drains the alt text of an image, up to and including the end event
    /// that closes it, and appends its text.
    fn raw_text(&mut self, toks: &Vec<Token>, Ghost(title): Ghost<Seq<char>>) -> (r: Result<
        (),
        RenderError,
    >)
        requires
            old(self).pos <= toks@.len(),
        ensures
            old(self).pos <= final(self).pos <= toks@.len(),
            final(self).base_style == old(self).base_style,
            final(self).style_stack == old(self).style_stack,
            final(self).list_count == old(self).list_count,
            r is Ok ==> run_from(
                toks@,
                old(self).pos as int,
                old(self).buf@,
                old(self).list_count,
                Some((0, title)),
            ) == run_from(
                toks@,
                final(self).pos as int,
                final(self).buf@ + image_tail(title),
                final(self).list_count,
                None,
            ),
            r is Err ==> run_from(
                toks@,
                old(self).pos as int,
                old(self).buf@,
                old(self).list_count,
                Some((0, title)),
            ) is None,
            r is Ok ==> styles_from(
                toks@,
                old(self).pos as int,
                old(self).style_stack@,
                old(self).base_style,
                Some(0),
            ) == styles_from(
                toks@,
                final(self).pos as int,
                final(self).style_stack@,
                final(self).base_style,
                None,
            ),
            r is Ok ==> final(self).pos == alt_end(toks@, old(self).pos as int, 0),
            r is Err <==> alt_fails(toks@, old(self).pos as int, 0),
            r is Ok ==> final(self).buf@ == old(self).buf@ + alt_text(
                toks@,
                old(self).pos as int,
                0,
            ),
            r is Ok ==> count_from(toks@, old(self).pos as int, old(self).list_count, Some(0)) == count_from(
                toks@,
                final(self).pos as int,
                final(self).list_count,
                None,
            ),
    {
        let ghost p0 = self.pos as int;
        let ghost b0 = self.buf@;
        let ghost count = self.list_count;
        let mut nest: usize = 0;
        while self.pos < toks.len()
            invariant
                p0 == old(self).pos,
                p0 <= self.pos <= toks@.len(),
                nest <= self.pos - p0,
                self.list_count == old(self).list_count,
                count == old(self).list_count,
                b0 == old(self).buf@,
                self.base_style == old(self).base_style,
                self.style_stack == old(self).style_stack,
                run_from(toks@, p0, b0, count, Some((0, title))) == run_from(
                    toks@,
                    self.pos as int,
                    self.buf@,
                    count,
                    Some((nest as nat, title)),
                ),
                alt_end(toks@, p0, 0) == alt_end(toks@, self.pos as int, nest as nat),
                b0 + alt_text(toks@, p0, 0) == self.buf@ + alt_text(
                    toks@,
                    self.pos as int,
                    nest as nat,
                ),
                count_from(toks@, p0, count, Some(0)) == count_from(
                    toks@,
                    self.pos as int,
                    count,
                    Some(nest as nat),
                ),
                alt_fails(toks@, p0, 0) == alt_fails(toks@, self.pos as int, nest as nat),
                styles_from(toks@, p0, old(self).style_stack@, old(self).base_style, Some(0))
                    == styles_from(
                    toks@,
                    self.pos as int,
                    self.style_stack@,
                    self.base_style,
                    Some(nest as nat),
                ),
            decreases toks@.len() - self.pos,
        {
            let k = self.pos;
            self.pos = k + 1;
            match &toks[k] {
                Token::Start(tag) => {
                    if unsupported(tag) {
                        return Err(RenderError::UnimplementedFeature);
                    }
                    nest = nest + 1;
                },
                Token::End(tag) => {
                    if unsupported(tag) {
                        return Err(RenderError::UnimplementedFeature);
                    }
                    if nest == 0 {
                        return Ok(());
                    }
                    nest = nest - 1;
                },
                Token::Text(s) => push_str(&mut self.buf, s.as_str()),
                Token::Html(_) => {},
                Token::InlineHtml(s) => push_str(&mut self.buf, s.as_str()),
                Token::SoftBreak => push_char(&mut self.buf, ' '),
                Token::HardBreak => push_char(&mut self.buf, ' '),
                Token::FootnoteReference(_) => {
                    return Err(RenderError::UnimplementedFeature);
                },
            }
        }
        Ok(())
    }

    /// Handles a start event; an image also drains its alt text.
    fn start_tag(&mut self, toks: &Vec<Token>, tag: &Tag) -> (r: Result<(), RenderError>)
        requires
            1 <= old(self).pos <= toks@.len(),
            toks@[old(self).pos - 1] == Token::Start(*tag),
        ensures
            old(self).pos <= final(self).pos <= toks@.len(),
            final(self).base_style == old(self).base_style,
            r is Ok ==> run_from(
                toks@,
                old(self).pos - 1,
                old(self).buf@,
                old(self).list_count,
                None,
            ) == run_from(
                toks@,
                final(self).pos as int,
                final(self).buf@,
                final(self).list_count,
                None,
            ),
            r is Err ==> run_from(
                toks@,
                old(self).pos - 1,
                old(self).buf@,
                old(self).list_count,
                None,
            ) is None,
            *tag is Emphasis ==> final(self).style_stack@ == old(self).style_stack@.push(
                ansi_term::Style { is_italic: true, ..style_top(old(self).style_stack@, old(self).base_style) },
            ),
            *tag is Strong ==> final(self).style_stack@ == old(self).style_stack@.push(
                ansi_term::Style { is_bold: true, ..style_top(old(self).style_stack@, old(self).base_style) },
            ),
            !(*tag is Emphasis || *tag is Strong) ==> final(self).style_stack
                == old(self).style_stack,
            r is Ok ==> styles_from(
                toks@,
                old(self).pos - 1,
                old(self).style_stack@,
                old(self).base_style,
                None,
            ) == styles_from(
                toks@,
                final(self).pos as int,
                final(self).style_stack@,
                final(self).base_style,
                None,
            ),
            is_unsupported_tag(*tag) ==> r is Err,
            !is_unsupported_tag(*tag) && !(*tag is Image) ==> r is Ok && final(self).pos
                == old(self).pos,
            *tag is Item ==> final(self).buf@ == fresh(old(self).buf@) + item_mark(
                old(self).list_count,
            ) && final(self).list_count == old(self).list_count,
            *tag is Image && r is Ok ==> final(self).pos == alt_end(toks@, old(self).pos as int, 0),
            r is Ok && !(*tag is Image) ==> start_effect(
                *tag,
                old(self).buf@,
                old(self).list_count,
            ) == Some((final(self).buf@, final(self).list_count)),
            r is Ok && *tag is Image ==> final(self).buf@ == old(self).buf@ + image_head(
                tag->Image_0@,
            ) + alt_text(toks@, old(self).pos as int, 0) + image_tail(tag->Image_1@)
                && final(self).list_count == old(self).list_count,
            r is Ok ==> count_from(toks@, old(self).pos - 1, old(self).list_count, None) == count_from(
                toks@,
                final(self).pos as int,
                final(self).list_count,
                None,
            ),
    {
        let ghost b = self.buf@;
        match tag {
            Tag::Paragraph => {
                self.fresh_line();
            },
            Tag::Rule => {
                self.fresh_line();
                push_str(&mut self.buf, "<hr />\n");
            },
            Tag::Header(_) => {
                self.fresh_line();
            },
            Tag::Table(_) | Tag::TableHead | Tag::TableRow | Tag::TableCell => {
                return Err(RenderError::UnimplementedFeature);
            },
            Tag::BlockQuote => {
                self.fresh_line();
                push_str(&mut self.buf, "\n");
            },
            Tag::CodeBlock(info) => {
                self.fresh_line();
                let l = lang(info.as_str());
                if l.is_empty() {
                    push_str(&mut self.buf, "<code>");
                } else {
                    push_str(&mut self.buf, "<code class=\"language-");
                    push_str(&mut self.buf, l);
                    push_str(&mut self.buf, "\">");
                }
                assert(self.buf@ =~= fresh(b) + code_open(info@));
            },
            Tag::List(count) => {
                self.fresh_line();
                self.list_count = *count;
            },
            Tag::Item => {
                self.fresh_line();
                match self.list_count {
                    Some(c) => {
                        push_decimal(&mut self.buf, c);
                        push_str(&mut self.buf, ". ");
                    },
                    None => push_str(&mut self.buf, "* "),
                }
                assert(self.buf@ =~= fresh(b) + item_mark(self.list_count));
            },
            Tag::Emphasis => {
                let new_style = self.style_stack.last().unwrap_or(&self.base_style).italic();
                self.style_stack.push(new_style);
            },
            Tag::Strong => {
                let new_style = self.style_stack.last().unwrap_or(&self.base_style).bold();
                self.style_stack.push(new_style);
            },
            Tag::Code => push_char(&mut self.buf, '\t'),
            Tag::Link(dest, title) => {
                push_str(&mut self.buf, "<a href=\"");
                push_str(&mut self.buf, dest.as_str());
                if !title.as_str().is_empty() {
                    push_str(&mut self.buf, "\" title=\"");
                    push_str(&mut self.buf, title.as_str());
                }
                push_str(&mut self.buf, "\">");
                assert(self.buf@ =~= b + link_open(dest@, title@));
            },
            Tag::Image(dest, title) => {
                push_str(&mut self.buf, "<img src=\"");
                push_str(&mut self.buf, dest.as_str());
                push_str(&mut self.buf, "\" alt=\"");
                assert(self.buf@ =~= b + image_head(dest@));
                let res = self.raw_text(toks, Ghost(title@));
                if res.is_err() {
                    return res;
                }
                let ghost drained = self.buf@;
                if !title.as_str().is_empty() {
                    push_str(&mut self.buf, "\" title=\"");
                    push_str(&mut self.buf, title.as_str());
                }
                push_str(&mut self.buf, "\" />");
                assert(self.buf@ =~= drained + image_tail(title@));
            },
            Tag::FootnoteDefinition(_) => {
                return Err(RenderError::UnimplementedFeature);
            },
        }
        Ok(())
    }

    /// Handles an end event.
    fn end_tag(&mut self, toks: &Vec<Token>, tag: &Tag) -> (r: Result<(), RenderError>)
        requires
            1 <= old(self).pos <= toks@.len(),
            toks@[old(self).pos - 1] == Token::End(*tag),
        ensures
            final(self).pos == old(self).pos,
            final(self).base_style == old(self).base_style,
            final(self).list_count == old(self).list_count,
            r is Ok ==> run_from(
                toks@,
                old(self).pos - 1,
                old(self).buf@,
                old(self).list_count,
                None,
            ) == run_from(
                toks@,
                final(self).pos as int,
                final(self).buf@,
                final(self).list_count,
                None,
            ),
            r is Err ==> run_from(
                toks@,
                old(self).pos - 1,
                old(self).buf@,
                old(self).list_count,
                None,
            ) is None,
            (*tag is Emphasis || *tag is Strong) ==> final(self).style_stack@ == if old(
                self,
            ).style_stack@.len() == 0 {
                old(self).style_stack@
            } else {
                old(self).style_stack@.drop_last()
            },
            !(*tag is Emphasis || *tag is Strong) ==> final(self).style_stack
                == old(self).style_stack,
            r is Ok ==> styles_from(
                toks@,
                old(self).pos - 1,
                old(self).style_stack@,
                old(self).base_style,
                None,
            ) == styles_from(
                toks@,
                final(self).pos as int,
                final(self).style_stack@,
                final(self).base_style,
                None,
            ),
            r is Err <==> is_unsupported_tag(*tag),
            r is Ok ==> end_effect(*tag, old(self).buf@) == Some(final(self).buf@),
    {
        match tag {
            Tag::Paragraph => push_char(&mut self.buf, '\n'),
            Tag::Header(_) => push_char(&mut self.buf, '\n'),
            Tag::Table(_) | Tag::TableHead | Tag::TableRow | Tag::TableCell => {
                return Err(RenderError::UnimplementedFeature);
            },
            Tag::FootnoteDefinition(_) => {
                return Err(RenderError::UnimplementedFeature);
            },
            Tag::Emphasis | Tag::Strong => {
                self.style_stack.pop();
            },
            _ => {},
        }
        Ok(())
    }

    /// Renders the tokens from the current position to the end.
    fn run(&mut self, toks: &Vec<Token>) -> (r: Result<(), RenderError>)
        requires
            old(self).pos <= toks@.len(),
        ensures
            r is Ok ==> run_from(
                toks@,
                old(self).pos as int,
                old(self).buf@,
                old(self).list_count,
                None,
            ) == Some(final(self).buf@),
            r is Err ==> run_from(
                toks@,
                old(self).pos as int,
                old(self).buf@,
                old(self).list_count,
                None,
            ) is None,
            r is Ok ==> final(self).style_stack@ == styles_from(
                toks@,
                old(self).pos as int,
                old(self).style_stack@,
                old(self).base_style,
                None,
            ),
            r is Ok ==> final(self).list_count == count_from(
                toks@,
                old(self).pos as int,
                old(self).list_count,
                None,
            ),
    {
        let ghost p0 = self.pos as int;
        let ghost b0 = self.buf@;
        let ghost c0 = self.list_count;
        while self.pos < toks.len()
            invariant
                p0 == old(self).pos,
                b0 == old(self).buf@,
                c0 == old(self).list_count,
                self.pos <= toks@.len(),
                run_from(toks@, p0, b0, c0, None) == run_from(
                    toks@,
                    self.pos as int,
                    self.buf@,
                    self.list_count,
                    None,
                ),
                count_from(toks@, p0, c0, None) == count_from(
                    toks@,
                    self.pos as int,
                    self.list_count,
                    None,
                ),
                self.base_style == old(self).base_style,
                styles_from(toks@, p0, old(self).style_stack@, old(self).base_style, None)
                    == styles_from(
                    toks@,
                    self.pos as int,
                    self.style_stack@,
                    self.base_style,
                    None,
                ),
            decreases toks@.len() - self.pos,
        {
            let k = self.pos;
            self.pos = k + 1;
            match &toks[k] {
                Token::Start(tag) => {
                    let res = self.start_tag(toks, tag);
                    if res.is_err() {
                        return res;
                    }
                },
                Token::End(tag) => {
                    let res = self.end_tag(toks, tag);
                    if res.is_err() {
                        return res;
                    }
                },
                Token::Text(s) => push_str(&mut self.buf, s.as_str()),
                Token::Html(s) => push_str(&mut self.buf, s.as_str()),
                Token::InlineHtml(s) => push_str(&mut self.buf, s.as_str()),
                Token::SoftBreak => push_char(&mut self.buf, '\n'),
                Token::HardBreak => push_str(&mut self.buf, "<br />\n"),
                Token::FootnoteReference(_) => {
                    return Err(RenderError::UnimplementedFeature);
                },
            }
        }
        Ok(())
    }
}

/// Appends to `buf` the text rendered from `tokens`. On failure `buf` is
/// left as it was: no partial output is observable.
pub fn push_cli(buf: &mut String, tokens: &Vec<Token>) -> (r: Result<(), RenderError>)
    ensures
        r is Ok <==> rendered(tokens@, old(buf)@) is Some,
        r is Ok ==> rendered(tokens@, old(buf)@) == Some(final(buf)@),
        r is Err ==> final(buf)@ == old(buf)@,
        r is Err ==> r == Err::<(), RenderError>(RenderError::UnimplementedFeature),
{
    let mut ctx = Ctx {
        buf: buf.clone(),
        pos: 0,
        base_style: ansi_term::Style::new(),
        style_stack: Vec::new(),
        list_count: None,
    };
    let res = ctx.run(tokens);
    match res {
        Ok(()) => {
            *buf = ctx.buf;
            Ok(())
        },
        Err(e) => Err(e),
    }
}

/// The text rendered from `tokens`.
pub fn render(tokens: &Vec<Token>) -> (r: Result<String, RenderError>)
    ensures
        r is Ok <==> rendered(tokens@, Seq::empty()) is Some,
        r matches Ok(s) ==> rendered(tokens@, Seq::empty()) == Some(s@),
        r is Err ==> r == Err::<String, RenderError>(RenderError::UnimplementedFeature),
{
    let mut buf = String::new();
    match push_cli(&mut buf, tokens) {
        Ok(()) => Ok(buf),
        Err(e) => Err(e),
    }
}

proof fn lemma_supported_run(
    toks: Seq<Token>,
    i: int,
    buf: Seq<char>,
    count: Option<usize>,
    alt: Option<(nat, Seq<char>)>,
)
    requires
        all_supported(toks),
        0 <= i,
    ensures
        run_from(toks, i, buf, count, alt) is Some,
    decreases toks.len() - i,
{
    if i < toks.len() {
        assert(!is_unsupported_token(toks[i]));
        match alt {
            Some((nest, title)) => match toks[i] {
                Token::Start(_) => lemma_supported_run(toks, i + 1, buf, count, Some((nest + 1, title))),
                Token::End(_) => if nest == 0 {
                    lemma_supported_run(toks, i + 1, buf + image_tail(title), count, None);
                } else {
                    lemma_supported_run(toks, i + 1, buf, count, Some(((nest - 1) as nat, title)));
                },
                Token::Text(s) => lemma_supported_run(toks, i + 1, buf + s@, count, alt),
                Token::Html(_) => lemma_supported_run(toks, i + 1, buf, count, alt),
                Token::InlineHtml(s) => lemma_supported_run(toks, i + 1, buf + s@, count, alt),
                Token::SoftBreak => lemma_supported_run(toks, i + 1, buf.push(' '), count, alt),
                Token::HardBreak => lemma_supported_run(toks, i + 1, buf.push(' '), count, alt),
                Token::FootnoteReference(_) => {},
            },
            None => match toks[i] {
                Token::Start(tag) => {
                    let (b, c) = start_effect(tag, buf, count).unwrap();
                    match tag {
                        Tag::Image(_, title) => lemma_supported_run(toks, i + 1, b, c, Some((0, title@))),
                        _ => lemma_supported_run(toks, i + 1, b, c, None),
                    }
                },
                Token::End(tag) => {
                    lemma_supported_run(toks, i + 1, end_effect(tag, buf).unwrap(), count, None);
                },
                Token::Text(s) => lemma_supported_run(toks, i + 1, buf + s@, count, None),
                Token::Html(s) => lemma_supported_run(toks, i + 1, buf + s@, count, None),
                Token::InlineHtml(s) => lemma_supported_run(toks, i + 1, buf + s@, count, None),
                Token::SoftBreak => lemma_supported_run(toks, i + 1, buf.push('\n'), count, None),
                Token::HardBreak => lemma_supported_run(toks, i + 1, buf + "<br />\n"@, count, None),
                Token::FootnoteReference(_) => {},
            },
        }
    }
}

/// Rendering a stream with no table, footnote definition or footnote
/// reference in it always succeeds.
pub proof fn lemma_supported_renders(toks: Seq<Token>, prefix: Seq<char>)
    requires
        all_supported(toks),
    ensures
        rendered(toks, prefix) is Some,
{
    lemma_supported_run(toks, 0, prefix, None, None);
}

proof fn lemma_unsupported_run(
    toks: Seq<Token>,
    i: int,
    buf: Seq<char>,
    count: Option<usize>,
    alt: Option<(nat, Seq<char>)>,
    k: int,
)
    requires
        0 <= i <= k < toks.len(),
        is_unsupported_token(toks[k]),
    ensures
        run_from(toks, i, buf, count, alt) is None,
    decreases k - i,
{
    if i < k {
        match alt {
            Some((nest, title)) => match toks[i] {
                Token::Start(tag) => if !is_unsupported_tag(tag) {
                    lemma_unsupported_run(toks, i + 1, buf, count, Some((nest + 1, title)), k);
                },
                Token::End(tag) => if is_unsupported_tag(tag) {
                } else if nest == 0 {
                    lemma_unsupported_run(toks, i + 1, buf + image_tail(title), count, None, k);
                } else {
                    lemma_unsupported_run(toks, i + 1, buf, count, Some(((nest - 1) as nat, title)), k);
                },
                Token::Text(s) => lemma_unsupported_run(toks, i + 1, buf + s@, count, alt, k),
                Token::Html(_) => lemma_unsupported_run(toks, i + 1, buf, count, alt, k),
                Token::InlineHtml(s) => lemma_unsupported_run(toks, i + 1, buf + s@, count, alt, k),
                Token::SoftBreak => lemma_unsupported_run(toks, i + 1, buf.push(' '), count, alt, k),
                Token::HardBreak => lemma_unsupported_run(toks, i + 1, buf.push(' '), count, alt, k),
                Token::FootnoteReference(_) => {},
            },
            None => match toks[i] {
                Token::Start(tag) => match start_effect(tag, buf, count) {
                    Some((b, c)) => match tag {
                        Tag::Image(_, title) => lemma_unsupported_run(toks, i + 1, b, c, Some((0, title@)), k),
                        _ => lemma_unsupported_run(toks, i + 1, b, c, None, k),
                    },
                    None => {},
                },
                Token::End(tag) => match end_effect(tag, buf) {
                    Some(b) => lemma_unsupported_run(toks, i + 1, b, count, None, k),
                    None => {},
                },
                Token::Text(s) => lemma_unsupported_run(toks, i + 1, buf + s@, count, None, k),
                Token::Html(s) => lemma_unsupported_run(toks, i + 1, buf + s@, count, None, k),
                Token::InlineHtml(s) => lemma_unsupported_run(toks, i + 1, buf + s@, count, None, k),
                Token::SoftBreak => lemma_unsupported_run(toks, i + 1, buf.push('\n'), count, None, k),
                Token::HardBreak => lemma_unsupported_run(toks, i + 1, buf + "<br />\n"@, count, None, k),
                Token::FootnoteReference(_) => {},
            },
        }
    }
}

/// Rendering fails on a stream that holds a table event, a footnote
/// definition event or a footnote reference anywhere.
pub proof fn lemma_unsupported_fails(toks: Seq<Token>, prefix: Seq<char>, k: int)
    requires
        0 <= k < toks.len(),
        is_unsupported_token(toks[k]),
    ensures
        rendered(toks, prefix) is None,
{
    lemma_unsupported_run(toks, 0, prefix, None, None, k);
}

/// Rendering is a function of its input: equal streams rendered after equal
/// text give equal results.
pub proof fn lemma_render_deterministic(a: Seq<Token>, b: Seq<Token>, prefix: Seq<char>)
    requires
        a == b,
    ensures
        rendered(a, prefix) == rendered(b, prefix),
{
}

proof fn lemma_spans_close(
    toks: Seq<Token>,
    i: int,
    stack: Seq<ansi_term::Style>,
    base: ansi_term::Style,
    alt: Option<nat>,
    depth: nat,
)
    requires
        0 <= i,
        spans_closed_from(toks, i, depth, alt),
        depth <= stack.len(),
    ensures
        styles_from(toks, i, stack, base, alt) == stack.take(stack.len() - depth),
    decreases toks.len() - i,
{
    if i < toks.len() {
        match alt {
            Some(nest) => match toks[i] {
                Token::Start(_) => lemma_spans_close(toks, i + 1, stack, base, Some(nest + 1), depth),
                Token::End(_) => if nest == 0 {
                    lemma_spans_close(toks, i + 1, stack, base, None, depth);
                } else {
                    lemma_spans_close(toks, i + 1, stack, base, Some((nest - 1) as nat), depth);
                },
                _ => lemma_spans_close(toks, i + 1, stack, base, alt, depth),
            },
            None => match toks[i] {
                Token::Start(Tag::Emphasis) => {
                    let pushed = stack.push(
                        ansi_term::Style { is_italic: true, ..style_top(stack, base) },
                    );
                    lemma_spans_close(toks, i + 1, pushed, base, None, depth + 1);
                    assert(pushed.take(pushed.len() - (depth + 1)) =~= stack.take(
                        stack.len() - depth,
                    ));
                },
                Token::Start(Tag::Strong) => {
                    let pushed = stack.push(
                        ansi_term::Style { is_bold: true, ..style_top(stack, base) },
                    );
                    lemma_spans_close(toks, i + 1, pushed, base, None, depth + 1);
                    assert(pushed.take(pushed.len() - (depth + 1)) =~= stack.take(
                        stack.len() - depth,
                    ));
                },
                Token::Start(Tag::Image(_, _)) => lemma_spans_close(toks, i + 1, stack, base, Some(0), depth),
                Token::End(Tag::Emphasis) | Token::End(Tag::Strong) => {
                    let popped = style_pop(stack);
                    lemma_spans_close(toks, i + 1, popped, base, None, (depth - 1) as nat);
                    assert(popped.take(popped.len() - (depth - 1)) =~= stack.take(
                        stack.len() - depth,
                    ));
                },
                _ => lemma_spans_close(toks, i + 1, stack, base, None, depth),
            },
        }
    } else {
        assert(stack.take(stack.len() as int) =~= stack);
    }
}

/// A pass over a stream whose emphasis and strong spans are balanced leaves
/// the style stack as it found it.
pub proof fn lemma_balanced_spans_keep_styles(
    toks: Seq<Token>,
    stack: Seq<ansi_term::Style>,
    base: ansi_term::Style,
)
    requires
        spans_balanced(toks),
    ensures
        styles_from(toks, 0, stack, base, None) == stack,
{
    lemma_spans_close(toks, 0, stack, base, None, 0);
    assert(stack.take(stack.len() as int) =~= stack);
}

/// The nesting depth that an alt-text state carries, `None` in the main pass.
pub open spec fn nest_of(alt: Option<(nat, Seq<char>)>) -> Option<nat> {
    match alt {
        None => None,
        Some((nest, _)) => Some(nest),
    }
}

/// Whether a pass over `toks` from position `i`, in the state `alt` as in
/// `count_from`, ends in alt text (`Some`) or in the main pass (`None`).
pub open spec fn alt_after(toks: Seq<Token>, i: int, alt: Option<nat>) -> Option<nat>
    decreases toks.len() - i,
{
    if i < 0 || i >= toks.len() {
        alt
    } else {
        match alt {
            Some(nest) => match toks[i] {
                Token::Start(_) => alt_after(toks, i + 1, Some(nest + 1)),
                Token::End(_) => if nest == 0 {
                    alt_after(toks, i + 1, None)
                } else {
                    alt_after(toks, i + 1, Some((nest - 1) as nat))
                },
                _ => alt_after(toks, i + 1, alt),
            },
            None => match toks[i] {
                Token::Start(Tag::Image(_, _)) => alt_after(toks, i + 1, Some(0)),
                _ => alt_after(toks, i + 1, None),
            },
        }
    }
}

proof fn lemma_run_shift(
    t1: Seq<Token>,
    t2: Seq<Token>,
    j: int,
    buf: Seq<char>,
    count: Option<usize>,
    alt: Option<(nat, Seq<char>)>,
)
    requires
        0 <= j,
    ensures
        run_from(t1 + t2, t1.len() + j, buf, count, alt) == run_from(t2, j, buf, count, alt),
    decreases t2.len() - j,
{
    if j < t2.len() {
        assert((t1 + t2)[t1.len() + j] == t2[j]);
        match alt {
            Some((nest, title)) => match t2[j] {
                Token::Start(tag) => if !is_unsupported_tag(tag) {
                    lemma_run_shift(t1, t2, j + 1, buf, count, Some((nest + 1, title)));
                },
                Token::End(tag) => if is_unsupported_tag(tag) {
                } else if nest == 0 {
                    lemma_run_shift(t1, t2, j + 1, buf + image_tail(title), count, None);
                } else {
                    lemma_run_shift(t1, t2, j + 1, buf, count, Some(((nest - 1) as nat, title)));
                },
                Token::Text(s) => lemma_run_shift(t1, t2, j + 1, buf + s@, count, alt),
                Token::Html(_) => lemma_run_shift(t1, t2, j + 1, buf, count, alt),
                Token::InlineHtml(s) => lemma_run_shift(t1, t2, j + 1, buf + s@, count, alt),
                Token::SoftBreak => lemma_run_shift(t1, t2, j + 1, buf.push(' '), count, alt),
                Token::HardBreak => lemma_run_shift(t1, t2, j + 1, buf.push(' '), count, alt),
                Token::FootnoteReference(_) => {},
            },
            None => match t2[j] {
                Token::Start(tag) => match start_effect(tag, buf, count) {
                    Some((b, c)) => match tag {
                        Tag::Image(_, title) => lemma_run_shift(t1, t2, j + 1, b, c, Some((0, title@))),
                        _ => lemma_run_shift(t1, t2, j + 1, b, c, None),
                    },
                    None => {},
                },
                Token::End(tag) => match end_effect(tag, buf) {
                    Some(b) => lemma_run_shift(t1, t2, j + 1, b, count, None),
                    None => {},
                },
                Token::Text(s) => lemma_run_shift(t1, t2, j + 1, buf + s@, count, None),
                Token::Html(s) => lemma_run_shift(t1, t2, j + 1, buf + s@, count, None),
                Token::InlineHtml(s) => lemma_run_shift(t1, t2, j + 1, buf + s@, count, None),
                Token::SoftBreak => lemma_run_shift(t1, t2, j + 1, buf.push('\n'), count, None),
                Token::HardBreak => lemma_run_shift(t1, t2, j + 1, buf + "<br />\n"@, count, None),
                Token::FootnoteReference(_) => {},
            },
        }
    }
}

proof fn lemma_run_split(
    t1: Seq<Token>,
    t2: Seq<Token>,
    i: int,
    buf: Seq<char>,
    count: Option<usize>,
    alt: Option<(nat, Seq<char>)>,
)
    requires
        0 <= i <= t1.len(),
        alt_after(t1, i, nest_of(alt)) is None,
    ensures
        run_from(t1 + t2, i, buf, count, alt) == match run_from(t1, i, buf, count, alt) {
            Some(b) => run_from(t1 + t2, t1.len() as int, b, count_from(t1, i, count, nest_of(alt)), None),
            None => None,
        },
    decreases t1.len() - i,
{
    if i < t1.len() {
        assert((t1 + t2)[i] == t1[i]);
        match alt {
            Some((nest, title)) => match t1[i] {
                Token::Start(tag) => if !is_unsupported_tag(tag) {
                    lemma_run_split(t1, t2, i + 1, buf, count, Some((nest + 1, title)));
                },
                Token::End(tag) => if is_unsupported_tag(tag) {
                } else if nest == 0 {
                    lemma_run_split(t1, t2, i + 1, buf + image_tail(title), count, None);
                } else {
                    lemma_run_split(t1, t2, i + 1, buf, count, Some(((nest - 1) as nat, title)));
                },
                Token::Text(s) => lemma_run_split(t1, t2, i + 1, buf + s@, count, alt),
                Token::Html(_) => lemma_run_split(t1, t2, i + 1, buf, count, alt),
                Token::InlineHtml(s) => lemma_run_split(t1, t2, i + 1, buf + s@, count, alt),
                Token::SoftBreak => lemma_run_split(t1, t2, i + 1, buf.push(' '), count, alt),
                Token::HardBreak => lemma_run_split(t1, t2, i + 1, buf.push(' '), count, alt),
                Token::FootnoteReference(_) => {},
            },
            None => match t1[i] {
                Token::Start(tag) => match start_effect(tag, buf, count) {
                    Some((b, c)) => match tag {
                        Tag::Image(_, title) => lemma_run_split(t1, t2, i + 1, b, c, Some((0, title@))),
                        _ => lemma_run_split(t1, t2, i + 1, b, c, None),
                    },
                    None => {},
                },
                Token::End(tag) => match end_effect(tag, buf) {
                    Some(b) => lemma_run_split(t1, t2, i + 1, b, count, None),
                    None => {},
                },
                Token::Text(s) => lemma_run_split(t1, t2, i + 1, buf + s@, count, None),
                Token::Html(s) => lemma_run_split(t1, t2, i + 1, buf + s@, count, None),
                Token::InlineHtml(s) => lemma_run_split(t1, t2, i + 1, buf + s@, count, None),
                Token::SoftBreak => lemma_run_split(t1, t2, i + 1, buf.push('\n'), count, None),
                Token::HardBreak => lemma_run_split(t1, t2, i + 1, buf + "<br />\n"@, count, None),
                Token::FootnoteReference(_) => {},
            },
        }
    }
}

/// Rendering a stream in one pass gives what rendering its first part gives,
/// followed by a pass over the rest that starts from the text and the list
/// counter that the first part left, where the first part closes the alt
/// text of every image it opens.
pub proof fn lemma_render_concat(t1: Seq<Token>, t2: Seq<Token>, prefix: Seq<char>)
    requires
        alt_after(t1, 0, None) is None,
    ensures
        rendered(t1 + t2, prefix) == match rendered(t1, prefix) {
            Some(b) => run_from(t2, 0, b, count_from(t1, 0, None, None), None),
            None => None,
        },
{
    lemma_run_split(t1, t2, 0, prefix, None, None);
    if let Some(b) = rendered(t1, prefix) {
        lemma_run_shift(t1, t2, 0, b, count_from(t1, 0, None, None), None);
    }
}

} // verus!
