//! Markdown and HTML to Pango markup for the message view.
//!
//! Sending converts Markdown to the HTML of a `formatted_body`; receiving
//! splits such HTML into text segments (Pango markup) and code segments (raw
//! source with a language hint).

use vstd::prelude::*;
use crate::directory::Directory;
use crate::markdown::entities::{decoded, push_escape, push_escape_attr};
use crate::markdown::links::linkified;
use crate::markdown::tag::{parse_tag, Tag, TagView};
use crate::text::{chars_of, find_char_from, find_from, has_prefix, has_suffix, push_chars, push_str, same, slice_of,
    string_of, trimmed, trimmed_char, trimmed_end_char};

pub mod entities;
pub mod laws;
pub mod link_laws;
pub mod links;
pub mod tag;

verus! {

/// A segment of a formatted message body.
#[derive(Debug)]
pub enum Segment {
    /// Pango markup for a label.
    Text(String),
    /// Raw source code and a language hint for a source view.
    Code { content: String, lang: String },
}

/// A segment as text.
pub enum SegmentView {
    Text(Seq<char>),
    Code { content: Seq<char>, lang: Seq<char> },
}

impl View for Segment {
    type V = SegmentView;

    open spec fn view(&self) -> SegmentView {
        match self {
            Segment::Text(t) => SegmentView::Text(t@),
            Segment::Code { content, lang } => SegmentView::Code {
                content: content@,
                lang: lang@,
            },
        }
    }
}

/// What has been read of a message body so far.
pub struct Reading {
    /// The finished segments.
    pub segments: Seq<SegmentView>,
    /// Markup of the text segment that is being read.
    pub text: Seq<char>,
    /// Whether a `<pre>` block is open.
    pub in_pre: bool,
    /// Language of the open block.
    pub lang: Seq<char>,
    /// Source of the open block.
    pub code: Seq<char>,
    /// How many lists are open.
    pub depth: nat,
}

pub open spec fn nothing_read() -> Reading {
    Reading {
        segments: Seq::empty(),
        text: Seq::empty(),
        in_pre: false,
        lang: Seq::empty(),
        code: Seq::empty(),
        depth: 0,
    }
}

/// The text segment finished: kept when anything but line breaks is in it.
pub open spec fn flushed(r: Reading) -> Reading {
    let t = crate::text::trim_char(r.text, '\n');
    Reading {
        segments: if t.len() > 0 {
            r.segments.push(SegmentView::Text(t))
        } else {
            r.segments
        },
        text: Seq::empty(),
        ..r
    }
}

/// `text` appended to the open text segment; nothing inside `<pre>`.
pub open spec fn with_markup(r: Reading, text: Seq<char>) -> Reading {
    if r.in_pre {
        r
    } else {
        Reading { text: r.text + text, ..r }
    }
}

/// Indentation of a list item.
pub open spec fn spaces(n: nat) -> Seq<char> {
    Seq::new(2 * n, |i: int| ' ')
}

/// The language that a class attribute names.
pub open spec fn class_language(class: Seq<char>) -> Seq<char> {
    let prefix = "language-"@;
    if crate::text::starts_with(class, prefix) {
        class.subrange(prefix.len() as int, class.len() as int)
    } else {
        class
    }
}

/// The end of a `<pre>` block: a code segment when the block holds anything
/// but line breaks at its end. The text before it is finished only then, so that
/// text goes on over an empty block.
pub open spec fn pre_closed(r: Reading) -> Reading {
    let content = crate::text::trim_end_char(r.code, '\n');
    let f = if content.len() > 0 {
        flushed(r)
    } else {
        r
    };
    Reading {
        segments: if content.len() > 0 {
            f.segments.push(SegmentView::Code { content, lang: f.lang })
        } else {
            f.segments
        },
        in_pre: false,
        lang: Seq::empty(),
        code: Seq::empty(),
        ..f
    }
}

/// What a tag that maps to a pair of Pango tags adds.
pub open spec fn paired(r: Reading, closing: bool, open: Seq<char>, close: Seq<char>) -> Reading {
    with_markup(
        r,
        if closing {
            close
        } else {
            open
        },
    )
}

/// The effect of one tag.
pub open spec fn tag_read(r: Reading, t: TagView) -> Reading {
    if t.name == "b"@ || t.name == "strong"@ {
        paired(r, t.closing, "<b>"@, "</b>"@)
    } else if t.name == "i"@ || t.name == "em"@ {
        paired(r, t.closing, "<i>"@, "</i>"@)
    } else if t.name == "s"@ || t.name == "del"@ || t.name == "strike"@ {
        paired(r, t.closing, "<s>"@, "</s>"@)
    } else if t.name == "u"@ {
        paired(r, t.closing, "<u>"@, "</u>"@)
    } else if t.name == "code"@ {
        if r.in_pre {
            match crate::markdown::tag::attr(t.attrs, "class"@) {
                Some(class) => if t.closing {
                    r
                } else {
                    Reading { lang: class_language(class), ..r }
                },
                None => r,
            }
        } else {
            paired(r, t.closing, "<tt>"@, "</tt>"@)
        }
    } else if t.name == "pre"@ {
        if t.closing {
            pre_closed(r)
        } else {
            Reading { in_pre: true, ..r }
        }
    } else if t.name == "a"@ {
        if t.closing {
            with_markup(r, "</a>"@)
        } else {
            match crate::markdown::tag::attr(t.attrs, "href"@) {
                Some(href) => with_markup(
                    r,
                    "<a href=\""@ + crate::markdown::entities::escape_in_attr(href) + "\">"@,
                ),
                None => r,
            }
        }
    } else if t.name == "br"@ {
        if r.in_pre {
            Reading { code: r.code.push('\n'), ..r }
        } else {
            Reading { text: r.text.push('\n'), ..r }
        }
    } else if t.name == "p"@ {
        if t.closing {
            with_markup(r, seq!['\n'])
        } else {
            r
        }
    } else if t.name == "h1"@ || t.name == "h2"@ || t.name == "h3"@ {
        paired(r, t.closing, "<b>"@, "</b>\n"@)
    } else if t.name == "h4"@ || t.name == "h5"@ || t.name == "h6"@ {
        paired(r, t.closing, "<i>"@, "</i>\n"@)
    } else if t.name == "ul"@ || t.name == "ol"@ {
        if r.in_pre {
            r
        } else if t.closing {
            Reading {
                depth: if r.depth > 0 {
                    (r.depth - 1) as nat
                } else {
                    0
                },
                ..r
            }
        } else {
            Reading { depth: r.depth + 1, ..r }
        }
    } else if t.name == "li"@ {
        if t.closing {
            r
        } else {
            with_markup(
                r,
                seq!['\n'] + spaces(
                    if r.depth > 0 {
                        (r.depth - 1) as nat
                    } else {
                        0
                    },
                ) + "\u{2022} "@,
            )
        }
    } else if t.name == "blockquote"@ {
        paired(r, t.closing, "<span foreground=\"gray\">"@, "</span>"@)
    } else {
        r
    }
}

/// The effect of the text between two tags.
pub open spec fn text_read(dir: Directory, r: Reading, text: Seq<char>) -> Reading {
    let d = crate::markdown::entities::decode(text);
    if r.in_pre {
        Reading { code: r.code + d, ..r }
    } else {
        with_markup(
            r,
            crate::markdown::links::linked(dir, crate::markdown::entities::escape(d)),
        )
    }
}

/// The effect of a `<` that no `>` answers: the rest is text as it stands.
pub open spec fn rest_read(r: Reading, rest: Seq<char>) -> Reading {
    if r.in_pre {
        Reading { code: r.code + rest, ..r }
    } else {
        with_markup(r, crate::markdown::entities::escape(rest))
    }
}

/// The position of the `>` that ends the tag whose text is being read at `i`;
/// a `>` between quotes does not.
pub open spec fn tag_end(s: Seq<char>, i: int, quote: Option<char>) -> int
    decreases s.len() - i,
{
    if i < 0 || i >= s.len() {
        s.len() as int
    } else {
        match quote {
            Some(q) => tag_end(
                s,
                i + 1,
                if s[i] == q {
                    None
                } else {
                    quote
                },
            ),
            None => if s[i] == '"' || s[i] == '\'' {
                tag_end(s, i + 1, Some(s[i]))
            } else if s[i] == '>' {
                i
            } else {
                tag_end(s, i + 1, None)
            },
        }
    }
}

/// Where reading goes on after the tag that ends before `i`: an opening
/// `<mx-reply>` is skipped together with its contents.
pub open spec fn after_tag(s: Seq<char>, i: int, t: TagView) -> int {
    if t.name == "mx-reply"@ && !t.closing {
        let needle = "</mx-reply>"@;
        let k = crate::text::find(s, needle, i);
        if k < s.len() {
            k + needle.len()
        } else {
            s.len() as int
        }
    } else {
        i
    }
}

/// The HTML `s`, read from position `pos` on.
pub open spec fn read(dir: Directory, s: Seq<char>, pos: int, r: Reading) -> Reading
    decreases s.len() - pos,
{
    if pos < 0 || pos >= s.len() {
        r
    } else if s[pos] == '<' {
        let e = tag_end(s, pos + 1, None);
        if e >= s.len() {
            rest_read(r, s.subrange(pos, s.len() as int))
        } else {
            let t = crate::markdown::tag::tag_of(s.subrange(pos + 1, e));
            proof {
                lemma_tag_end(s, pos + 1, None);
                lemma_after_tag(s, e + 1, t);
            }
            read(dir, s, after_tag(s, e + 1, t), tag_read(r, t))
        }
    } else {
        let e = crate::text::find_char(s, '<', pos);
        proof {
            crate::text::lemma_find_char(s, '<', pos);
        }
        read(dir, s, e, text_read(dir, r, s.subrange(pos, e)))
    }
}

/// The segments of a message body.
pub open spec fn segments_of(dir: Directory, html: Seq<char>) -> Seq<SegmentView> {
    flushed(read(dir, html, 0, nothing_read())).segments
}

pub proof fn lemma_tag_end(s: Seq<char>, i: int, quote: Option<char>)
    requires
        0 <= i <= s.len(),
    ensures
        i <= tag_end(s, i, quote) <= s.len(),
    decreases s.len() - i,
{
    if i < s.len() {
        match quote {
            Some(q) => lemma_tag_end(
                s,
                i + 1,
                if s[i] == q {
                    None
                } else {
                    quote
                },
            ),
            None => if s[i] == '"' || s[i] == '\'' {
                lemma_tag_end(s, i + 1, Some(s[i]));
            } else {
                lemma_tag_end(s, i + 1, None);
            },
        }
    }
}

pub proof fn lemma_after_tag(s: Seq<char>, i: int, t: TagView)
    requires
        0 <= i <= s.len(),
    ensures
        i <= after_tag(s, i, t) <= s.len(),
{
    crate::text::lemma_find(s, "</mx-reply>"@, i);
}

/// A reading in executable form.
struct Reader {
    segments: Vec<Segment>,
    text: Vec<char>,
    in_pre: bool,
    lang: Vec<char>,
    code: Vec<char>,
    depth: usize,
}

impl View for Reader {
    type V = Reading;

    closed spec fn view(&self) -> Reading {
        Reading {
            segments: self.segments@.map_values(|s: Segment| s@),
            text: self.text@,
            in_pre: self.in_pre,
            lang: self.lang@,
            code: self.code@,
            depth: self.depth as nat,
        }
    }
}

impl Reader {
    fn new() -> (r: Self)
        ensures
            r@ == nothing_read(),
    {
        let r = Reader {
            segments: Vec::new(),
            text: Vec::new(),
            in_pre: false,
            lang: Vec::new(),
            code: Vec::new(),
            depth: 0,
        };
        assert(r@.segments == Seq::<SegmentView>::empty());
        r
    }

    fn flush(&mut self)
        ensures
            final(self)@ == flushed(old(self)@),
    {
        let t = trimmed_char(&self.text, '\n');
        if t.len() > 0 {
            let ghost before = self.segments@.map_values(|s: Segment| s@);
            self.segments.push(Segment::Text(string_of(&t)));
            assert(self.segments@.map_values(|s: Segment| s@) == before.push(
                SegmentView::Text(t@),
            ));
        }
        self.text.clear();
    }

    fn markup(&mut self, text: &str)
        ensures
            final(self)@ == with_markup(old(self)@, text@),
    {
        if !self.in_pre {
            push_str(&mut self.text, text);
        }
    }

    fn pair(&mut self, closing: bool, open: &str, close: &str)
        ensures
            final(self)@ == paired(old(self)@, closing, open@, close@),
    {
        if closing {
            self.markup(close);
        } else {
            self.markup(open);
        }
    }

    fn close_pre(&mut self)
        ensures
            final(self)@ == pre_closed(old(self)@),
    {
        let content = trimmed_end_char(&self.code, '\n');
        if content.len() > 0 {
            self.flush();
            let ghost before = self.segments@.map_values(|s: Segment| s@);
            let lang = string_of(&self.lang);
            self.segments.push(Segment::Code { content: string_of(&content), lang });
            assert(self.segments@.map_values(|s: Segment| s@) == before.push(
                SegmentView::Code { content: content@, lang: self.lang@ },
            ));
        }
        self.code.clear();
        self.lang.clear();
        self.in_pre = false;
    }

    fn open_code(&mut self, t: &Tag)
        ensures
            final(self)@ == (match crate::markdown::tag::attr(t@.attrs, "class"@) {
                Some(class) => Reading { lang: class_language(class), ..old(self)@ },
                None => old(self)@,
            }),
    {
        if let Some(class) = t.attr("class") {
            let c = chars_of(class.as_str());
            if has_prefix(&c, "language-") {
                let prefix = chars_of("language-");
                self.lang = slice_of(&c, prefix.len(), c.len());
            } else {
                self.lang = c;
            }
        }
    }

    fn open_anchor(&mut self, t: &Tag)
        ensures
            final(self)@ == (match crate::markdown::tag::attr(t@.attrs, "href"@) {
                Some(href) => with_markup(
                    old(self)@,
                    "<a href=\""@ + crate::markdown::entities::escape_in_attr(href) + "\">"@,
                ),
                None => old(self)@,
            }),
    {
        if let Some(href) = t.attr("href") {
            if !self.in_pre {
                let h = chars_of(href.as_str());
                push_str(&mut self.text, "<a href=\"");
                push_escape_attr(&mut self.text, &h);
                push_str(&mut self.text, "\">");
                assert(self.text@ == old(self).text@ + ("<a href=\""@
                    + crate::markdown::entities::escape_in_attr(href@) + "\">"@));
            }
        }
    }

    fn item(&mut self)
        ensures
            final(self)@ == with_markup(
                old(self)@,
                seq!['\n'] + spaces(
                    if old(self)@.depth > 0 {
                        (old(self)@.depth - 1) as nat
                    } else {
                        0
                    },
                ) + "\u{2022} "@,
            ),
    {
        if self.in_pre {
            return;
        }
        let n: usize = if self.depth > 0 {
            self.depth - 1
        } else {
            0
        };
        self.text.push('\n');
        let ghost start = self.text@;
        let mut i: usize = 0;
        while i < n
            invariant
                i <= n,
                self.text@ == start + spaces(i as nat),
                self.segments@ == old(self).segments@,
                self.in_pre == old(self).in_pre,
                self.lang@ == old(self).lang@,
                self.code@ == old(self).code@,
                self.depth == old(self).depth,
            decreases n - i,
        {
            self.text.push(' ');
            self.text.push(' ');
            i = i + 1;
            assert(self.text@ == start + spaces(i as nat));
        }
        push_str(&mut self.text, "\u{2022} ");
        assert(self.text@ == old(self).text@ + (seq!['\n'] + spaces(n as nat) + "\u{2022} "@));
    }

    fn tag(&mut self, t: &Tag)
        requires
            old(self)@.depth < usize::MAX,
        ensures
            final(self)@ == tag_read(old(self)@, t@),
            final(self)@.depth <= old(self)@.depth + 1,
    {
        let name = t.name.as_str();
        if same(name, "b") || same(name, "strong") {
            self.pair(t.closing, "<b>", "</b>");
        } else if same(name, "i") || same(name, "em") {
            self.pair(t.closing, "<i>", "</i>");
        } else if same(name, "s") || same(name, "del") || same(name, "strike") {
            self.pair(t.closing, "<s>", "</s>");
        } else if same(name, "u") {
            self.pair(t.closing, "<u>", "</u>");
        } else if same(name, "code") {
            if self.in_pre {
                if !t.closing {
                    self.open_code(t);
                }
            } else {
                self.pair(t.closing, "<tt>", "</tt>");
            }
        } else if same(name, "pre") {
            if t.closing {
                self.close_pre();
            } else {
                self.in_pre = true;
            }
        } else if same(name, "a") {
            if t.closing {
                self.markup("</a>");
            } else {
                self.open_anchor(t);
            }
        } else if same(name, "br") {
            if self.in_pre {
                self.code.push('\n');
            } else {
                self.text.push('\n');
            }
        } else if same(name, "p") {
            if !self.in_pre && t.closing {
                self.text.push('\n');
                assert(self.text@ == old(self).text@ + seq!['\n']);
            }
        } else if same(name, "h1") || same(name, "h2") || same(name, "h3") {
            self.pair(t.closing, "<b>", "</b>\n");
        } else if same(name, "h4") || same(name, "h5") || same(name, "h6") {
            self.pair(t.closing, "<i>", "</i>\n");
        } else if same(name, "ul") || same(name, "ol") {
            if !self.in_pre {
                if !t.closing {
                    self.depth = self.depth + 1;
                } else if self.depth > 0 {
                    self.depth = self.depth - 1;
                }
            }
        } else if same(name, "li") {
            if !t.closing {
                self.item();
            }
        } else if same(name, "blockquote") {
            self.pair(t.closing, "<span foreground=\"gray\">", "</span>");
        }
    }

    fn text(&mut self, dir: &Directory, text: &Vec<char>)
        ensures
            final(self)@ == text_read(*dir, old(self)@, text@),
    {
        let d = decoded(text);
        if self.in_pre {
            push_chars(&mut self.code, &d);
        } else {
            let mut e: Vec<char> = Vec::new();
            push_escape(&mut e, &d);
            assert(e@ == crate::markdown::entities::escape(d@));
            let l = linkified(dir, &e);
            push_chars(&mut self.text, &l);
        }
    }

    fn rest(&mut self, rest: &Vec<char>)
        ensures
            final(self)@ == rest_read(old(self)@, rest@),
    {
        if self.in_pre {
            push_chars(&mut self.code, rest);
        } else {
            push_escape(&mut self.text, rest);
        }
    }
}

/// The end of the tag that starts before `from`.
fn find_tag_end(s: &Vec<char>, from: usize) -> (r: usize)
    requires
        from <= s.len(),
    ensures
        r == tag_end(s@, from as int, None),
        from <= r <= s.len(),
{
    let mut i: usize = from;
    let mut quote: Option<char> = None;
    while i < s.len()
        invariant
            from <= i <= s.len(),
            tag_end(s@, i as int, quote) == tag_end(s@, from as int, None),
        decreases s.len() - i,
    {
        let c = s[i];
        match quote {
            Some(q) => {
                if c == q {
                    quote = None;
                }
            },
            None => {
                if c == '"' || c == '\'' {
                    quote = Some(c);
                } else if c == '>' {
                    return i;
                }
            },
        }
        i = i + 1;
    }
    i
}

/// Splits the HTML of a formatted body into display segments.
///
/// `<pre><code ...>...</code></pre>` blocks become code segments; everything
/// else becomes text segments of Pango markup. Adjacent text is one segment, empty
/// text segments are dropped, and so is the quoted part of a reply.
pub fn html_to_segments(dir: &Directory, html: &str) -> (r: Vec<Segment>)
    ensures
        r@.map_values(|s: Segment| s@) == segments_of(*dir, html@),
{
    let s = chars_of(html);
    let mut reader = Reader::new();
    let mut pos: usize = 0;
    while pos < s.len()
        invariant
            pos <= s.len(),
            s@ == html@,
            reader@.depth <= pos,
            read(*dir, s@, pos as int, reader@) == read(*dir, s@, 0, nothing_read()),
        decreases s.len() - pos,
    {
        if s[pos] == '<' {
            let e: usize = find_tag_end(&s, pos + 1);
            if e >= s.len() {
                let rest = slice_of(&s, pos, s.len());
                reader.rest(&rest);
                pos = s.len();
            } else {
                let raw = slice_of(&s, pos + 1, e);
                let t = parse_tag(&raw);
                proof {
                    lemma_after_tag(s@, e + 1, t@);
                }
                reader.tag(&t);
                if same(t.name.as_str(), "mx-reply") && !t.closing {
                    let needle = chars_of("</mx-reply>");
                    let k: usize = find_from(&s, &needle, e + 1);
                    if k < s.len() {
                        pos = k + needle.len();
                    } else {
                        pos = s.len();
                    }
                } else {
                    pos = e + 1;
                }
            }
        } else {
            let e: usize = find_char_from(&s, '<', pos);
            let text = slice_of(&s, pos, e);
            reader.text(dir, &text);
            pos = e;
        }
    }
    reader.flush();
    reader.segments
}

/// The markup of one segment: text as it is, code in a monospace span.
pub open spec fn segment_markup(s: SegmentView) -> Seq<char> {
    match s {
        SegmentView::Text(t) => t,
        SegmentView::Code { content, .. } => "<tt>"@ + crate::markdown::entities::escape(content)
            + "</tt>"@,
    }
}

/// The markup of the segments, one line break between two.
pub open spec fn joined(segments: Seq<SegmentView>) -> Seq<char>
    decreases segments.len(),
{
    if segments.len() == 0 {
        Seq::empty()
    } else if segments.len() == 1 {
        segment_markup(segments[0])
    } else {
        joined(segments.drop_last()).push('\n') + segment_markup(segments.last())
    }
}

/// The markup of a whole message body.
pub open spec fn pango_of(dir: Directory, html: Seq<char>) -> Seq<char> {
    crate::text::trim_char(joined(segments_of(dir, html)), '\n')
}

/// Converts the HTML of a formatted body to one Pango markup string; code
/// blocks are rendered inline.
pub fn html_to_pango(dir: &Directory, html: &str) -> (r: String)
    ensures
        r@ == pango_of(*dir, html@),
{
    let segments = html_to_segments(dir, html);
    let ghost view = segments@.map_values(|s: Segment| s@);
    let mut out: Vec<char> = Vec::new();
    let mut i: usize = 0;
    while i < segments.len()
        invariant
            i <= segments.len(),
            view == segments@.map_values(|s: Segment| s@),
            out@ == joined(view.subrange(0, i as int)),
        decreases segments.len() - i,
    {
        let ghost before = out@;
        let ghost upto = view.subrange(0, i + 1);
        assert(upto.drop_last() == view.subrange(0, i as int));
        if i > 0 {
            out.push('\n');
        }
        let ghost head = out@;
        match &segments[i] {
            Segment::Text(t) => push_str(&mut out, t.as_str()),
            Segment::Code { content, .. } => {
                let c = chars_of(content.as_str());
                push_str(&mut out, "<tt>");
                push_escape(&mut out, &c);
                push_str(&mut out, "</tt>");
                assert(out@ == head + ("<tt>"@ + crate::markdown::entities::escape(content@)
                    + "</tt>"@));
            },
        }
        assert(out@ == head + segment_markup(view[i as int]));
        assert(upto.last() == view[i as int]);
        if i == 0 {
            assert(out@ == segment_markup(view[0]));
        }
        i = i + 1;
    }
    assert(view.subrange(0, i as int) == view);
    string_of(&trimmed_char(&out, '\n'))
}

/// What the Markdown renderer makes of `text`, with strikethrough and tables
/// enabled.
pub uninterp spec fn rendered_markdown(text: Seq<char>) -> Seq<char>;

/// `pulldown_cmark::html::push_html` on the events of
/// `pulldown_cmark::Parser::new_ext` with strikethrough and tables enabled:
/// the rendered HTML is a function of the text alone.
#[verifier::external_body]
fn render_markdown(text: &str) -> (r: String)
    ensures
        r@ == rendered_markdown(text@),
{
    let opts = pulldown_cmark::Options::ENABLE_STRIKETHROUGH | pulldown_cmark::Options::ENABLE_TABLES;
    let parser = pulldown_cmark::Parser::new_ext(text, opts);
    let mut out = String::new();
    pulldown_cmark::html::push_html(&mut out, parser);
    out
}

/// Rendered HTML without the paragraph tags around it, when it is a single
/// paragraph.
pub open spec fn unwrapped(html: Seq<char>) -> Seq<char> {
    let t = crate::text::trim(html);
    if crate::text::starts_with(t, "<p>"@) && crate::text::ends_with(t, "</p>"@)
        && crate::text::count_from(t, "<p>"@, 0) == 1 {
        t.subrange(3, t.len() - 4)
    } else {
        html
    }
}

fn count(s: &Vec<char>, p: &str) -> (r: usize)
    requires
        p@.len() > 0,
    ensures
        r == crate::text::count_from(s@, p@, 0),
{
    let pv = chars_of(p);
    let mut n: usize = 0;
    let mut i: usize = 0;
    while i < s.len()
        invariant
            i <= s.len(),
            pv@ == p@,
            p@.len() > 0,
            n <= i,
            n + crate::text::count_from(s@, p@, i as int) == crate::text::count_from(s@, p@, 0),
        decreases s.len() - i,
    {
        let k: usize = find_from(s, &pv, i);
        if k >= s.len() {
            return n;
        }
        n = n + 1;
        i = k + pv.len();
    }
    n
}

/// Strips the paragraph tags that the renderer puts around a single paragraph.
pub fn unwrap_paragraph(html: String) -> (r: String)
    ensures
        r@ == unwrapped(html@),
{
    let v = chars_of(html.as_str());
    let t = trimmed(&v);
    proof {
        reveal_strlit("<p>");
        reveal_strlit("</p>");
    }
    if has_prefix(&t, "<p>") && has_suffix(&t, "</p>") && count(&t, "<p>") == 1 {
        proof {
            lemma_paragraph_long(t@);
        }
        string_of(&slice_of(&t, 3, t.len() - 4))
    } else {
        html
    }
}

/// An opening and a closing paragraph tag do not overlap.
proof fn lemma_paragraph_long(t: Seq<char>)
    requires
        crate::text::starts_with(t, "<p>"@),
        crate::text::ends_with(t, "</p>"@),
    ensures
        t.len() >= 7,
{
    reveal_strlit("<p>");
    reveal_strlit("</p>");
    let a = t.subrange(0, 3);
    let b = t.subrange(t.len() - 4, t.len() as int);
    assert(a[0] == '<' && a[1] == 'p' && a[2] == '>');
    assert(b[0] == '<' && b[1] == '/' && b[2] == 'p' && b[3] == '>');
    assert(t[0] == '<' && t[1] == 'p' && t[2] == '>');
    assert(t[t.len() - 4] == '<' && t[t.len() - 3] == '/' && t[t.len() - 2] == 'p');
}

/// Converts Markdown to the HTML of a formatted body.
pub fn md_to_html(text: &str) -> (r: String)
    ensures
        r@ == unwrapped(rendered_markdown(text@)),
{
    unwrap_paragraph(render_markdown(text))
}

/// Converts Markdown to Pango markup.
pub fn md_to_pango(dir: &Directory, text: &str) -> (r: String)
    ensures
        r@ == pango_of(*dir, unwrapped(rendered_markdown(text@))),
{
    html_to_pango(dir, md_to_html(text).as_str())
}

/// Records a room's display name for the pills that mention it.
pub fn set_room_name(dir: &mut Directory, room_id: &str, name: &str)
    ensures
        final(dir).rooms() == (if room_id@.len() == 0 || name@.len() == 0 {
            old(dir).rooms()
        } else {
            old(dir).rooms().insert(
                room_id@,
                crate::directory::RoomView {
                    name: name@,
                    ..(if old(dir).rooms().contains_key(room_id@) {
                        old(dir).rooms()[room_id@]
                    } else {
                        crate::directory::blank_room()
                    })
                },
            )
        }),
        final(dir).users() == old(dir).users(),
        final(dir).servers() == old(dir).servers(),
        final(dir).tick() == old(dir).tick(),
        forall|a: Seq<char>| final(dir).alias_owner(a) == old(dir).alias_owner(a),
{
    crate::directory::set_room_name(dir, room_id, name);
}

// ---- laws ---------------------------------------------------------------------

/// A text segment is never empty and neither starts nor ends with a line
/// break; a code segment is never empty and does not end with one.
pub open spec fn tidy(s: SegmentView) -> bool {
    match s {
        SegmentView::Text(t) => t.len() > 0 && t[0] != '\n' && t.last() != '\n',
        SegmentView::Code { content, .. } => content.len() > 0 && content.last() != '\n',
    }
}

proof fn lemma_trim_char_tidy(s: Seq<char>, c: char)
    ensures
        ({
            let t = crate::text::trim_char(s, c);
            t.len() > 0 ==> t[0] != c && t.last() != c
        }),
{
    lemma_trim_start_char_tidy(s, c);
    lemma_trim_end_char_tidy(crate::text::trim_start_char(s, c), c);
}

proof fn lemma_trim_start_char_tidy(s: Seq<char>, c: char)
    ensures
        ({
            let t = crate::text::trim_start_char(s, c);
            t.len() > 0 ==> t[0] != c
        }),
    decreases s.len(),
{
    if s.len() > 0 && s[0] == c {
        lemma_trim_start_char_tidy(s.drop_first(), c);
    }
}

proof fn lemma_trim_end_char_tidy(s: Seq<char>, c: char)
    ensures
        ({
            let t = crate::text::trim_end_char(s, c);
            &&& t.len() <= s.len()
            &&& t.len() > 0 ==> t[0] == s[0] && t.last() != c
        }),
    decreases s.len(),
{
    if s.len() > 0 && s.last() == c {
        lemma_trim_end_char_tidy(s.drop_last(), c);
    }
}

proof fn lemma_flush_tidy(r: Reading)
    requires
        forall|i: int| 0 <= i < r.segments.len() ==> tidy(#[trigger] r.segments[i]),
    ensures
        forall|i: int|
            0 <= i < flushed(r).segments.len() ==> tidy(#[trigger] flushed(r).segments[i]),
{
    lemma_trim_char_tidy(r.text, '\n');
}

proof fn lemma_tag_tidy(r: Reading, t: TagView)
    requires
        forall|i: int| 0 <= i < r.segments.len() ==> tidy(#[trigger] r.segments[i]),
    ensures
        forall|i: int|
            0 <= i < tag_read(r, t).segments.len() ==> tidy(#[trigger] tag_read(r, t).segments[i]),
{
    lemma_flush_tidy(r);
    lemma_trim_end_char_tidy(r.code, '\n');
}

proof fn lemma_read_tidy(dir: Directory, s: Seq<char>, pos: int, r: Reading)
    requires
        0 <= pos <= s.len(),
        forall|i: int| 0 <= i < r.segments.len() ==> tidy(#[trigger] r.segments[i]),
    ensures
        ({
            let out = read(dir, s, pos, r).segments;
            forall|i: int| 0 <= i < out.len() ==> tidy(#[trigger] out[i])
        }),
    decreases s.len() - pos,
{
    if pos < s.len() {
        if s[pos] == '<' {
            let e = tag_end(s, pos + 1, None);
            lemma_tag_end(s, pos + 1, None);
            if e < s.len() {
                let t = crate::markdown::tag::tag_of(s.subrange(pos + 1, e));
                lemma_after_tag(s, e + 1, t);
                lemma_tag_tidy(r, t);
                lemma_read_tidy(dir, s, after_tag(s, e + 1, t), tag_read(r, t));
                assert(read(dir, s, pos, r) == read(
                    dir,
                    s,
                    after_tag(s, e + 1, t),
                    tag_read(r, t),
                ));
            } else {
                assert(read(dir, s, pos, r).segments == r.segments);
            }
        } else {
            let e = crate::text::find_char(s, '<', pos);
            crate::text::lemma_find_char(s, '<', pos);
            let next = text_read(dir, r, s.subrange(pos, e));
            assert(next.segments == r.segments);
            lemma_read_tidy(dir, s, e, next);
            assert(read(dir, s, pos, r) == read(dir, s, e, next));
        }
    }
}

/// Whatever the HTML, no segment is empty, and no text segment starts or ends
/// with a line break.
pub proof fn law_segments_tidy(dir: Directory, html: Seq<char>)
    ensures
        forall|i: int|
            0 <= i < segments_of(dir, html).len() ==> tidy(#[trigger] segments_of(dir, html)[i]),
{
    lemma_read_tidy(dir, html, 0, nothing_read());
    lemma_flush_tidy(read(dir, html, 0, nothing_read()));
}

/// Whether no two text segments are neighbours.
pub open spec fn text_merged(segments: Seq<SegmentView>) -> bool {
    forall|i: int|
        #![trigger segments[i]]
        0 <= i < segments.len() - 1 ==> !(segments[i] is Text && segments[i + 1] is Text)
}

/// Whether no two text segments are neighbours, and another one may follow.
spec fn text_may_follow(segments: Seq<SegmentView>) -> bool {
    text_merged(segments) && (segments.len() > 0 ==> !(segments.last() is Text))
}

proof fn lemma_tag_merged(r: Reading, t: TagView)
    requires
        text_may_follow(r.segments),
    ensures
        text_may_follow(tag_read(r, t).segments),
{
    let out = tag_read(r, t).segments;
    let f = flushed(r).segments;
    if out != r.segments {
        assert(out == f.push(out.last()));
        assert(out.last() is Code);
        assert forall|i: int| #![trigger out[i]] 0 <= i < out.len() - 1 implies !(out[i] is Text
            && out[i + 1] is Text) by {
            if i + 1 < r.segments.len() {
                assert(out[i] == r.segments[i]);
                assert(out[i + 1] == r.segments[i + 1]);
            } else if i < r.segments.len() {
                assert(out[i] == r.segments.last());
            }
        }
    }
}

proof fn lemma_read_merged(dir: Directory, s: Seq<char>, pos: int, r: Reading)
    requires
        0 <= pos <= s.len(),
        text_may_follow(r.segments),
    ensures
        text_may_follow(read(dir, s, pos, r).segments),
    decreases s.len() - pos,
{
    if pos < s.len() {
        if s[pos] == '<' {
            let e = tag_end(s, pos + 1, None);
            lemma_tag_end(s, pos + 1, None);
            if e < s.len() {
                let t = crate::markdown::tag::tag_of(s.subrange(pos + 1, e));
                lemma_after_tag(s, e + 1, t);
                lemma_tag_merged(r, t);
                lemma_read_merged(dir, s, after_tag(s, e + 1, t), tag_read(r, t));
            } else {
                assert(read(dir, s, pos, r).segments == r.segments);
            }
        } else {
            let e = crate::text::find_char(s, '<', pos);
            crate::text::lemma_find_char(s, '<', pos);
            let next = text_read(dir, r, s.subrange(pos, e));
            assert(next.segments == r.segments);
            lemma_read_merged(dir, s, e, next);
        }
    }
}

/// Adjacent text is merged: whatever the HTML, no two text segments are
/// neighbours.
pub proof fn law_text_is_merged(dir: Directory, html: Seq<char>)
    ensures
        text_merged(segments_of(dir, html)),
{
    let r = read(dir, html, 0, nothing_read());
    lemma_read_merged(dir, html, 0, nothing_read());
    let out = segments_of(dir, html);
    assert forall|i: int| #![trigger out[i]] 0 <= i < out.len() - 1 implies !(out[i] is Text && out[i
        + 1] is Text) by {
        if i + 1 < r.segments.len() {
            assert(out[i] == r.segments[i]);
            assert(out[i + 1] == r.segments[i + 1]);
        } else {
            assert(out[i] == r.segments.last());
        }
    }
}

proof fn lemma_shift_tag_end(p: Seq<char>, s: Seq<char>, i: int, quote: Option<char>)
    requires
        0 <= i <= s.len(),
    ensures
        tag_end(p + s, p.len() + i, quote) == p.len() + tag_end(s, i, quote),
    decreases s.len() - i,
{
    if i < s.len() {
        assert((p + s)[p.len() + i] == s[i]);
        match quote {
            Some(q) => lemma_shift_tag_end(
                p,
                s,
                i + 1,
                if s[i] == q {
                    None
                } else {
                    quote
                },
            ),
            None => if s[i] == '"' || s[i] == '\'' {
                lemma_shift_tag_end(p, s, i + 1, Some(s[i]));
            } else if s[i] != '>' {
                lemma_shift_tag_end(p, s, i + 1, None);
            },
        }
    }
}

proof fn lemma_shift_find_char(p: Seq<char>, s: Seq<char>, c: char, i: int)
    requires
        0 <= i <= s.len(),
    ensures
        crate::text::find_char(p + s, c, p.len() + i) == p.len() + crate::text::find_char(s, c, i),
    decreases s.len() - i,
{
    if i < s.len() {
        assert((p + s)[p.len() + i] == s[i]);
        lemma_shift_find_char(p, s, c, i + 1);
    }
}

proof fn lemma_shift_find(p: Seq<char>, s: Seq<char>, needle: Seq<char>, i: int)
    requires
        0 <= i <= s.len(),
    ensures
        crate::text::find(p + s, needle, p.len() + i) == p.len() + crate::text::find(s, needle, i),
    decreases s.len() - i,
{
    if i < s.len() {
        if i + needle.len() <= s.len() {
            assert((p + s).subrange(p.len() + i, p.len() + i + needle.len()) =~= s.subrange(
                i,
                i + needle.len(),
            ));
        }
        lemma_shift_find(p, s, needle, i + 1);
    }
}

/// Reading from a position on does not depend on what stands before it.
proof fn lemma_shift_read(dir: Directory, p: Seq<char>, s: Seq<char>, pos: int, r: Reading)
    requires
        0 <= pos <= s.len(),
    ensures
        read(dir, p + s, p.len() + pos, r) == read(dir, s, pos, r),
    decreases s.len() - pos,
{
    let all = p + s;
    let n = p.len() as int;
    if pos < s.len() {
        assert(all[n + pos] == s[pos]);
        if s[pos] == '<' {
            let e = tag_end(s, pos + 1, None);
            lemma_tag_end(s, pos + 1, None);
            lemma_shift_tag_end(p, s, pos + 1, None);
            assert(tag_end(all, n + pos + 1, None) == n + e);
            if e < s.len() {
                assert(all.subrange(n + pos + 1, n + e) =~= s.subrange(pos + 1, e));
                let t = crate::markdown::tag::tag_of(s.subrange(pos + 1, e));
                lemma_after_tag(s, e + 1, t);
                lemma_shift_find(p, s, "</mx-reply>"@, e + 1);
                let next = after_tag(s, e + 1, t);
                assert(after_tag(all, n + e + 1, t) == n + next);
                lemma_shift_read(dir, p, s, next, tag_read(r, t));
                assert(read(dir, all, n + pos, r) == read(dir, all, n + next, tag_read(r, t)));
            } else {
                assert(all.subrange(n + pos, all.len() as int) =~= s.subrange(pos, s.len() as int));
            }
        } else {
            let e = crate::text::find_char(s, '<', pos);
            crate::text::lemma_find_char(s, '<', pos);
            lemma_shift_find_char(p, s, '<', pos);
            assert(all.subrange(n + pos, n + e) =~= s.subrange(pos, e));
            let next = text_read(dir, r, s.subrange(pos, e));
            lemma_shift_read(dir, p, s, e, next);
            assert(read(dir, all, n + pos, r) == read(dir, all, n + e, next));
        }
    }
}

/// The text of the tag that opens a quoted reply.
proof fn lemma_reply_tag()
    ensures
        ({
            let t = crate::markdown::tag::tag_of("mx-reply"@);
            t.name == "mx-reply"@ && !t.closing
        }),
{
    reveal_strlit("mx-reply");
    let raw = "mx-reply"@;
    assert(crate::text::trim(raw) == raw);
    let e = crate::text::find_space(raw, 0);
    assert(e == raw.len()) by {
        reveal_with_fuel(crate::text::find_space, 10);
    }
    assert(raw.subrange(0, e) =~= raw);
    assert(crate::text::all_ascii(raw));
    assert(crate::text::lowercase(raw) =~= raw);
    assert(crate::text::trim_end_char(raw, '/') == raw);
}

proof fn lemma_reply_adds_nothing(t: TagView)
    requires
        t.name == "mx-reply"@,
    ensures
        tag_read(nothing_read(), t) == nothing_read(),
{
    reveal_strlit("mx-reply");
    reveal_strlit("b");
    reveal_strlit("strong");
    reveal_strlit("i");
    reveal_strlit("em");
    reveal_strlit("s");
    reveal_strlit("del");
    reveal_strlit("strike");
    reveal_strlit("u");
    reveal_strlit("code");
    reveal_strlit("pre");
    reveal_strlit("a");
    reveal_strlit("br");
    reveal_strlit("p");
    reveal_strlit("h1");
    reveal_strlit("h2");
    reveal_strlit("h3");
    reveal_strlit("h4");
    reveal_strlit("h5");
    reveal_strlit("h6");
    reveal_strlit("ul");
    reveal_strlit("ol");
    reveal_strlit("li");
    reveal_strlit("blockquote");
    assert("mx-reply"@.len() == 8);
}

/// The quoted part of a reply at the start of a body adds nothing to it, whatever
/// markup the quoted part holds.
pub proof fn law_reply_is_skipped(dir: Directory, quoted: Seq<char>, rest: Seq<char>)
    requires
        !crate::text::contains(quoted, "</mx-reply>"@),
    ensures
        segments_of(dir, "<mx-reply>"@ + quoted + "</mx-reply>"@ + rest) == segments_of(dir, rest),
{
    reveal_strlit("<mx-reply>");
    reveal_strlit("</mx-reply>");
    reveal_strlit("mx-reply");
    let open = "<mx-reply>"@;
    let close = "</mx-reply>"@;
    let p = open + quoted + close;
    let s = open + quoted + close + rest;
    assert(s =~= p + rest);
    assert(s[0] == '<' && s[1] == 'm' && s[2] == 'x' && s[3] == '-' && s[4] == 'r' && s[5] == 'e' && s[6]
        == 'p' && s[7] == 'l' && s[8] == 'y' && s[9] == '>');
    assert(tag_end(s, 1, None) == 9) by {
        reveal_with_fuel(tag_end, 10);
    }
    assert(s.subrange(1, 9) =~= "mx-reply"@);
    let t = crate::markdown::tag::tag_of("mx-reply"@);
    lemma_reply_tag();
    lemma_reply_adds_nothing(t);
    let k = (open.len() + quoted.len()) as int;
    assert(crate::text::matches_at(s, close, k)) by {
        assert(s.subrange(k, k + close.len()) =~= close);
    }
    assert forall|j: int| open.len() <= j < k implies !crate::text::matches_at(s, close, j) by {
        if crate::text::matches_at(s, close, j) {
            let i = j - open.len();
            let w = s.subrange(j, j + close.len());
            if i + close.len() <= quoted.len() {
                assert(quoted.subrange(i, i + close.len()) =~= w);
                crate::text::lemma_find(quoted, close, 0);
                assert(crate::text::matches_at(quoted, close, i));
            } else {
                assert(w[k - j] == s[k]);
                assert(s[k] == close[0]);
                assert(close[k - j] == '<');
            }
        }
    }
    crate::text::lemma_find(s, close, open.len() as int);
    assert(crate::text::find(s, close, 10) == k);
    assert(after_tag(s, 10, t) == p.len());
    assert(read(dir, s, 0, nothing_read()) == read(dir, s, p.len() as int, nothing_read()));
    lemma_shift_read(dir, p, rest, 0, nothing_read());
}

/// Plain text without tags becomes at most one text segment: its links made,
/// its special characters escaped.
pub proof fn law_plain_text(dir: Directory, s: Seq<char>)
    requires
        forall|i: int| 0 <= i < s.len() ==> s[i] != '<',
    ensures
        segments_of(dir, s) == ({
            let t = crate::text::trim_char(
                crate::markdown::links::linked(
                    dir,
                    crate::markdown::entities::escape(crate::markdown::entities::decode(s)),
                ),
                '\n',
            );
            if s.len() > 0 && t.len() > 0 {
                seq![SegmentView::Text(t)]
            } else {
                Seq::empty()
            }
        }),
{
    crate::text::lemma_find_char(s, '<', 0);
    let e = crate::text::find_char(s, '<', 0);
    let t0 = crate::text::trim_char(Seq::<char>::empty(), '\n');
    lemma_trim_end_char_tidy(Seq::<char>::empty(), '\n');
    assert(t0.len() == 0);
    if s.len() > 0 {
        assert(e == s.len());
        assert(s.subrange(0, e) == s);
        let r = text_read(dir, nothing_read(), s);
        assert(read(dir, s, 0, nothing_read()) == r) by {
            reveal_with_fuel(read, 2);
        }
        let l = crate::markdown::links::linked(
            dir,
            crate::markdown::entities::escape(crate::markdown::entities::decode(s)),
        );
        assert(Seq::<char>::empty() + l == l);
    }
}

} // verus!
