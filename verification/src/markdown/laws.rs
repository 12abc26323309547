//! What the tags of a message body come to on the screen.

use vstd::prelude::*;
use crate::directory::Directory;
use crate::markdown::entities::{decode, escape, escape_in_attr, law_escape_has_no_brackets};
use crate::markdown::links::{alias_at, alias_linked, http_linked, linked};
use crate::markdown::tag::{attributes, tag_of, TagView};
use crate::markdown::{
    after_tag, flushed, lemma_shift_read, nothing_read, pango_of, read, segments_of, tag_end, tag_read,
    text_read, unwrapped, Reading, SegmentView,
};
use crate::text::{
    all_ascii, find, find_char, find_space, is_space, lemma_find, lemma_find_char, lowercase, matches_at, trim,
    trim_char, trim_end, trim_end_char, trim_start, trim_start_char,
};

verus! {

/// Text that means just itself: not empty, and without tags, references, links (which
/// all hold a colon) and line breaks.
pub open spec fn plain(a: Seq<char>) -> bool {
    a.len() > 0 && forall|i: int|
        0 <= i < a.len() ==> (#[trigger] a[i]) != '<' && a[i] != '&' && a[i] != ':' && a[i] != '\n'
}

/// The name of a tag: small letters and digits.
spec fn tag_name(name: Seq<char>) -> bool {
    name.len() > 0 && forall|i: int|
        0 <= i < name.len() ==> ('a' <= #[trigger] name[i] <= 'z' || '0' <= name[i] <= '9')
}

spec fn no_attrs() -> Seq<(Seq<char>, Seq<char>)> {
    Seq::empty()
}

proof fn lemma_no_space(s: Seq<char>, i: int)
    requires
        0 <= i <= s.len(),
        forall|j: int| i <= j < s.len() ==> !is_space(#[trigger] s[j]),
    ensures
        find_space(s, i) == s.len(),
    decreases s.len() - i,
{
    if i < s.len() {
        lemma_no_space(s, i + 1);
    }
}

proof fn lemma_lower(s: Seq<char>)
    requires
        forall|i: int|
            0 <= i < s.len() ==> ('a' <= #[trigger] s[i] <= 'z' || '0' <= s[i] <= '9' || s[i] == '/'),
    ensures
        lowercase(s) == s,
{
    assert(all_ascii(s));
    assert(lowercase(s) =~= s);
}

proof fn lemma_tag_of_name(name: Seq<char>)
    requires
        tag_name(name),
    ensures
        tag_of(name) == (TagView { name, attrs: no_attrs(), closing: false }),
        tag_of(seq!['/'] + name) == (TagView { name, attrs: no_attrs(), closing: true }),
{
    assert(trim(name) == name);
    lemma_no_space(name, 0);
    assert(name.subrange(0, name.len() as int) =~= name);
    lemma_lower(name);
    assert(trim_end_char(name, '/') == name);
    assert(attributes(Seq::empty()) =~= no_attrs());
    let c = seq!['/'] + name;
    assert(trim(c) == c);
    assert(c.drop_first() =~= name);
    assert(trim_start_char(c, '/') == trim_start_char(name, '/'));
    assert(trim_start_char(name, '/') == name);
}

proof fn lemma_tag_end_prefix(s: Seq<char>, t: Seq<char>, i: int, quote: Option<char>)
    requires
        0 <= i,
        tag_end(s, i, quote) < s.len(),
    ensures
        tag_end(s + t, i, quote) == tag_end(s, i, quote),
    decreases s.len() - i,
{
    if i < s.len() {
        assert((s + t)[i] == s[i]);
        match quote {
            Some(q) => lemma_tag_end_prefix(
                s,
                t,
                i + 1,
                if s[i] == q {
                    None
                } else {
                    quote
                },
            ),
            None => if s[i] == '"' || s[i] == '\'' {
                lemma_tag_end_prefix(s, t, i + 1, Some(s[i]));
            } else if s[i] != '>' {
                lemma_tag_end_prefix(s, t, i + 1, None);
            },
        }
    }
}

/// Without quotes a tag ends with the first bracket.
proof fn lemma_tag_end_plain(s: Seq<char>, i: int, e: int)
    requires
        0 <= i <= e < s.len(),
        s[e] == '>',
        forall|j: int| i <= j < e ==> (#[trigger] s[j]) != '>' && s[j] != '"' && s[j] != '\'',
    ensures
        tag_end(s, i, None) == e,
    decreases e - i,
{
    if i < e {
        lemma_tag_end_plain(s, i + 1, e);
    }
}

/// Reading goes on behind a tag.
proof fn lemma_step(dir: Directory, tag: Seq<char>, s: Seq<char>, r: Reading, t: TagView)
    requires
        tag.len() >= 2,
        tag[0] == '<',
        tag_end(tag, 1, None) == tag.len() - 1,
        tag_of(tag.subrange(1, tag.len() - 1)) == t,
        t.name != "mx-reply"@,
    ensures
        read(dir, tag + s, 0, r) == read(dir, s, 0, tag_read(r, t)),
{
    let all = tag + s;
    let e = tag.len() - 1;
    lemma_tag_end_prefix(tag, s, 1, None);
    assert(all[0] == '<');
    assert(all.subrange(1, e) =~= tag.subrange(1, e));
    assert(after_tag(all, e + 1, t) == e + 1);
    assert(read(dir, all, 0, r) == read(dir, all, e + 1, tag_read(r, t)));
    lemma_shift_read(dir, tag, s, 0, tag_read(r, t));
}

/// Reading goes on behind an opening tag without attributes.
proof fn lemma_open(dir: Directory, tag: Seq<char>, name: Seq<char>, s: Seq<char>, r: Reading)
    requires
        tag_name(name),
        tag == seq!['<'] + name + seq!['>'],
    ensures
        read(dir, tag + s, 0, r) == read(
            dir,
            s,
            0,
            tag_read(r, TagView { name, attrs: no_attrs(), closing: false }),
        ),
{
    lemma_tag_of_name(name);
    lemma_not_reply(name);
    assert(tag.subrange(1, tag.len() - 1) =~= name);
    assert forall|j: int| 1 <= j < tag.len() - 1 implies (#[trigger] tag[j]) != '>' && tag[j] != '"'
        && tag[j] != '\'' by {
        assert(tag[j] == name[j - 1]);
    }
    lemma_tag_end_plain(tag, 1, tag.len() - 1);
    lemma_step(dir, tag, s, r, TagView { name, attrs: no_attrs(), closing: false });
}

/// Reading goes on behind a closing tag.
proof fn lemma_close(dir: Directory, tag: Seq<char>, name: Seq<char>, s: Seq<char>, r: Reading)
    requires
        tag_name(name),
        tag == seq!['<', '/'] + name + seq!['>'],
    ensures
        read(dir, tag + s, 0, r) == read(
            dir,
            s,
            0,
            tag_read(r, TagView { name, attrs: no_attrs(), closing: true }),
        ),
{
    lemma_tag_of_name(name);
    lemma_not_reply(name);
    assert(tag.subrange(1, tag.len() - 1) =~= seq!['/'] + name);
    assert forall|j: int| 1 <= j < tag.len() - 1 implies (#[trigger] tag[j]) != '>' && tag[j] != '"'
        && tag[j] != '\'' by {
        if j > 1 {
            assert(tag[j] == name[j - 2]);
        }
    }
    lemma_tag_end_plain(tag, 1, tag.len() - 1);
    lemma_step(dir, tag, s, r, TagView { name, attrs: no_attrs(), closing: true });
}

proof fn lemma_not_reply(name: Seq<char>)
    requires
        tag_name(name),
    ensures
        name != "mx-reply"@,
{
    reveal_strlit("mx-reply");
    assert("mx-reply"@[2] == '-');
    if name == "mx-reply"@ {
        assert(name[2] == '-');
    }
}

/// Reading goes on behind a text.
proof fn lemma_text(dir: Directory, a: Seq<char>, s: Seq<char>, r: Reading)
    requires
        a.len() > 0,
        forall|i: int| 0 <= i < a.len() ==> (#[trigger] a[i]) != '<',
        s.len() > 0 ==> s[0] == '<',
    ensures
        read(dir, a + s, 0, r) == read(dir, s, 0, text_read(dir, r, a)),
{
    let all = a + s;
    lemma_find_char(all, '<', 0);
    let e = find_char(all, '<', 0);
    assert(all[0] == a[0]);
    if e < a.len() {
        assert(all[e] == a[e]);
    }
    if s.len() > 0 {
        assert(all[a.len() as int] == '<');
    }
    assert(e == a.len());
    assert(all.subrange(0, e) =~= a);
    assert(read(dir, all, 0, r) == read(dir, all, e, text_read(dir, r, a)));
    lemma_shift_read(dir, a, s, 0, text_read(dir, r, a));
}

proof fn lemma_decode_nothing(s: Seq<char>)
    requires
        forall|i: int| 0 <= i < s.len() ==> (#[trigger] s[i]) != '&',
    ensures
        decode(s) == s,
    decreases s.len(),
{
    if s.len() > 0 {
        let rest = s.drop_first();
        assert forall|i: int| 0 <= i < rest.len() implies (#[trigger] rest[i]) != '&' by {
            assert(rest[i] == s[i + 1]);
        }
        lemma_decode_nothing(rest);
        assert(seq![s[0]] + rest =~= s);
    }
}

proof fn lemma_escape_keeps(s: Seq<char>)
    requires
        forall|i: int| 0 <= i < s.len() ==> (#[trigger] s[i]) != ':' && s[i] != '\n',
    ensures
        forall|i: int| 0 <= i < escape(s).len() ==> (#[trigger] escape(s)[i]) != ':' && escape(s)[i] != '\n',
        escape(s).len() >= s.len(),
    decreases s.len(),
{
    if s.len() > 0 {
        let rest = s.drop_first();
        assert forall|i: int| 0 <= i < rest.len() implies (#[trigger] rest[i]) != ':' && rest[i]
            != '\n' by {
            assert(rest[i] == s[i + 1]);
        }
        lemma_escape_keeps(rest);
        reveal_strlit("&amp;");
        reveal_strlit("&lt;");
        reveal_strlit("&gt;");
        let head = crate::markdown::entities::escape_char(s[0]);
        let tail = escape(rest);
        assert forall|i: int| 0 <= i < escape(s).len() implies (#[trigger] escape(s)[i]) != ':'
            && escape(s)[i] != '\n' by {
            if i < head.len() {
                assert(escape(s)[i] == head[i]);
            } else {
                assert(escape(s)[i] == tail[i - head.len()]);
            }
        }
    }
}

proof fn lemma_no_url(dir: Directory, s: Seq<char>)
    requires
        forall|i: int| 0 <= i < s.len() ==> (#[trigger] s[i]) != ':',
    ensures
        http_linked(dir, s) == s,
    decreases s.len(),
{
    let k = find(s, "http"@, 0);
    lemma_find(s, "http"@, 0);
    if k + 4 <= s.len() {
        let c = s.subrange(k, s.len() as int);
        reveal_strlit("http://");
        reveal_strlit("https://");
        if crate::text::starts_with(c, "https://"@) {
            assert(c.subrange(0, 8)[5] == ':');
            assert(s[k + 5] == ':');
        }
        if crate::text::starts_with(c, "http://"@) {
            assert(c.subrange(0, 7)[4] == ':');
            assert(s[k + 4] == ':');
        }
        let rest = s.subrange(k + 4, s.len() as int);
        assert forall|i: int| 0 <= i < rest.len() implies (#[trigger] rest[i]) != ':' by {
            assert(rest[i] == s[k + 4 + i]);
        }
        lemma_no_url(dir, rest);
        assert(s.subrange(0, k + 4) + rest =~= s);
    }
}

proof fn lemma_no_alias(s: Seq<char>, i: int, run: bool)
    requires
        0 <= i <= s.len(),
        forall|j: int|
            0 <= j < s.len() ==> (#[trigger] s[j]) != ':' && s[j] != '<' && s[j] != '>',
    ensures
        alias_linked(s, i, false, 0, run) == s.subrange(i, s.len() as int),
    decreases s.len() - i,
{
    if i < s.len() {
        lemma_no_alias(s, i + 1, true);
        lemma_no_alias(s, i + 1, false);
        assert(alias_at(s, i) is None);
        assert(seq![s[i]] + s.subrange(i + 1, s.len() as int) =~= s.subrange(i, s.len() as int));
    } else {
        assert(s.subrange(i, s.len() as int) =~= Seq::<char>::empty());
    }
}

/// Plain text is shown as it is, its special characters escaped.
proof fn lemma_plain(dir: Directory, a: Seq<char>)
    requires
        plain(a),
    ensures
        decode(a) == a,
        linked(dir, escape(a)) == escape(a),
        escape(a).len() > 0,
        forall|i: int| 0 <= i < escape(a).len() ==> (#[trigger] escape(a)[i]) != '\n',
{
    lemma_decode_nothing(a);
    lemma_escape_keeps(a);
    law_escape_has_no_brackets(a);
    lemma_no_url(dir, escape(a));
    lemma_no_alias(escape(a), 0, false);
    assert(escape(a).subrange(0, escape(a).len() as int) =~= escape(a));
}

/// A reading with more markup in its open text.
spec fn more(r: Reading, x: Seq<char>) -> Reading {
    Reading { text: r.text + x, ..r }
}

/// Reading goes on behind a plain text.
proof fn lemma_word(dir: Directory, a: Seq<char>, s: Seq<char>, r: Reading)
    requires
        plain(a),
        !r.in_pre,
        s.len() > 0 ==> s[0] == '<',
    ensures
        read(dir, a + s, 0, r) == read(dir, s, 0, more(r, escape(a))),
{
    lemma_plain(dir, a);
    lemma_text(dir, a, s, r);
}

proof fn lemma_no_trim(t: Seq<char>, c: char)
    requires
        t.len() > 0 ==> t[0] != c && t.last() != c,
    ensures
        trim_char(t, c) == t,
{
    assert(trim_start_char(t, c) == t);
}

/// A text that neither starts nor ends with a line break is one segment.
proof fn lemma_one_segment(dir: Directory, html: Seq<char>, r: Reading)
    requires
        read(dir, html, 0, nothing_read()) == r,
        r.segments.len() == 0,
        r.text.len() > 0,
        r.text[0] != '\n',
        r.text.last() != '\n',
    ensures
        segments_of(dir, html) == seq![SegmentView::Text(r.text)],
{
    lemma_no_trim(r.text, '\n');
    assert(flushed(r).segments =~= seq![SegmentView::Text(r.text)]);
}

/// The names of the tags are told apart by their lengths and letters.
proof fn lemma_names()
    ensures
        "b"@.len() == 1,
        "b"@[0] == 'b',
        "strong"@.len() == 6,
        "strong"@[0] == 's',
        "strong"@[1] == 't',
        "strong"@[2] == 'r',
        "strong"@[3] == 'o',
        "strong"@[4] == 'n',
        "strong"@[5] == 'g',
        "i"@.len() == 1,
        "i"@[0] == 'i',
        "em"@.len() == 2,
        "em"@[0] == 'e',
        "em"@[1] == 'm',
        "s"@.len() == 1,
        "s"@[0] == 's',
        "del"@.len() == 3,
        "del"@[0] == 'd',
        "del"@[1] == 'e',
        "del"@[2] == 'l',
        "strike"@.len() == 6,
        "strike"@[0] == 's',
        "strike"@[1] == 't',
        "strike"@[2] == 'r',
        "strike"@[3] == 'i',
        "strike"@[4] == 'k',
        "strike"@[5] == 'e',
        "u"@.len() == 1,
        "u"@[0] == 'u',
        "code"@.len() == 4,
        "code"@[0] == 'c',
        "code"@[1] == 'o',
        "code"@[2] == 'd',
        "code"@[3] == 'e',
        "pre"@.len() == 3,
        "pre"@[0] == 'p',
        "pre"@[1] == 'r',
        "pre"@[2] == 'e',
        "a"@.len() == 1,
        "a"@[0] == 'a',
        "br"@.len() == 2,
        "br"@[0] == 'b',
        "br"@[1] == 'r',
        "p"@.len() == 1,
        "p"@[0] == 'p',
        "h1"@.len() == 2,
        "h1"@[0] == 'h',
        "h1"@[1] == '1',
        "h2"@.len() == 2,
        "h2"@[0] == 'h',
        "h2"@[1] == '2',
        "h3"@.len() == 2,
        "h3"@[0] == 'h',
        "h3"@[1] == '3',
        "h4"@.len() == 2,
        "h4"@[0] == 'h',
        "h4"@[1] == '4',
        "h5"@.len() == 2,
        "h5"@[0] == 'h',
        "h5"@[1] == '5',
        "h6"@.len() == 2,
        "h6"@[0] == 'h',
        "h6"@[1] == '6',
        "ul"@.len() == 2,
        "ul"@[0] == 'u',
        "ul"@[1] == 'l',
        "ol"@.len() == 2,
        "ol"@[0] == 'o',
        "ol"@[1] == 'l',
        "li"@.len() == 2,
        "li"@[0] == 'l',
        "li"@[1] == 'i',
        "blockquote"@.len() == 10,
        "blockquote"@[0] == 'b',
        "blockquote"@[1] == 'l',
        "blockquote"@[2] == 'o',
        "blockquote"@[3] == 'c',
        "blockquote"@[4] == 'k',
        "blockquote"@[5] == 'q',
        "blockquote"@[6] == 'u',
        "blockquote"@[7] == 'o',
        "blockquote"@[8] == 't',
        "blockquote"@[9] == 'e',
{
    reveal_strlit("b");
    reveal_strlit("strong");
    reveal_strlit("i");
    reveal_strlit("em");
    reveal_strlit("s");
    reveal_strlit("del");
    reveal_strlit("strike");
    reveal_strlit("u");
    reveal_strlit("code");
    reveal_strlit("pre");
    reveal_strlit("a");
    reveal_strlit("br");
    reveal_strlit("p");
    reveal_strlit("h1");
    reveal_strlit("h2");
    reveal_strlit("h3");
    reveal_strlit("h4");
    reveal_strlit("h5");
    reveal_strlit("h6");
    reveal_strlit("ul");
    reveal_strlit("ol");
    reveal_strlit("li");
    reveal_strlit("blockquote");
}

/// Bold text.
proof fn lemma_bold(r: Reading, attrs: Seq<(Seq<char>, Seq<char>)>)
    requires
        !r.in_pre,
    ensures
        tag_read(r, TagView { name: "b"@, attrs, closing: false }) == more(r, "<b>"@),
        tag_read(r, TagView { name: "b"@, attrs, closing: true }) == more(r, "</b>"@),
        tag_read(r, TagView { name: "strong"@, attrs, closing: false }) == more(r, "<b>"@),
        tag_read(r, TagView { name: "strong"@, attrs, closing: true }) == more(r, "</b>"@),
{
    lemma_names();
}

/// Italic text.
proof fn lemma_italic(r: Reading, attrs: Seq<(Seq<char>, Seq<char>)>)
    requires
        !r.in_pre,
    ensures
        tag_read(r, TagView { name: "i"@, attrs, closing: false }) == more(r, "<i>"@),
        tag_read(r, TagView { name: "i"@, attrs, closing: true }) == more(r, "</i>"@),
        tag_read(r, TagView { name: "em"@, attrs, closing: false }) == more(r, "<i>"@),
        tag_read(r, TagView { name: "em"@, attrs, closing: true }) == more(r, "</i>"@),
{
    lemma_names();
}

/// Text that is struck out.
proof fn lemma_struck(r: Reading, attrs: Seq<(Seq<char>, Seq<char>)>)
    requires
        !r.in_pre,
    ensures
        tag_read(r, TagView { name: "s"@, attrs, closing: false }) == more(r, "<s>"@),
        tag_read(r, TagView { name: "s"@, attrs, closing: true }) == more(r, "</s>"@),
        tag_read(r, TagView { name: "del"@, attrs, closing: false }) == more(r, "<s>"@),
        tag_read(r, TagView { name: "del"@, attrs, closing: true }) == more(r, "</s>"@),
        tag_read(r, TagView { name: "strike"@, attrs, closing: false }) == more(r, "<s>"@),
        tag_read(r, TagView { name: "strike"@, attrs, closing: true }) == more(r, "</s>"@),
{
    lemma_names();
}

/// Underlined text and short pieces of code.
proof fn lemma_underlined(r: Reading, attrs: Seq<(Seq<char>, Seq<char>)>)
    requires
        !r.in_pre,
    ensures
        tag_read(r, TagView { name: "u"@, attrs, closing: false }) == more(r, "<u>"@),
        tag_read(r, TagView { name: "u"@, attrs, closing: true }) == more(r, "</u>"@),
        tag_read(r, TagView { name: "code"@, attrs, closing: false }) == more(r, "<tt>"@),
        tag_read(r, TagView { name: "code"@, attrs, closing: true }) == more(r, "</tt>"@),
{
    lemma_names();
}

/// Headings.
proof fn lemma_headings(r: Reading, attrs: Seq<(Seq<char>, Seq<char>)>)
    requires
        !r.in_pre,
    ensures
        tag_read(r, TagView { name: "h1"@, attrs, closing: false }) == more(r, "<b>"@),
        tag_read(r, TagView { name: "h1"@, attrs, closing: true }) == more(r, "</b>\n"@),
        tag_read(r, TagView { name: "h2"@, attrs, closing: false }) == more(r, "<b>"@),
        tag_read(r, TagView { name: "h2"@, attrs, closing: true }) == more(r, "</b>\n"@),
        tag_read(r, TagView { name: "h3"@, attrs, closing: false }) == more(r, "<b>"@),
        tag_read(r, TagView { name: "h3"@, attrs, closing: true }) == more(r, "</b>\n"@),
        tag_read(r, TagView { name: "h4"@, attrs, closing: false }) == more(r, "<i>"@),
        tag_read(r, TagView { name: "h4"@, attrs, closing: true }) == more(r, "</i>\n"@),
        tag_read(r, TagView { name: "h5"@, attrs, closing: false }) == more(r, "<i>"@),
        tag_read(r, TagView { name: "h5"@, attrs, closing: true }) == more(r, "</i>\n"@),
        tag_read(r, TagView { name: "h6"@, attrs, closing: false }) == more(r, "<i>"@),
        tag_read(r, TagView { name: "h6"@, attrs, closing: true }) == more(r, "</i>\n"@),
{
    lemma_names();
}

/// Quoted text.
proof fn lemma_quote(r: Reading, attrs: Seq<(Seq<char>, Seq<char>)>)
    requires
        !r.in_pre,
    ensures
        tag_read(r, TagView { name: "blockquote"@, attrs, closing: false }) == more(r, "<span foreground=\"gray\">"@),
        tag_read(r, TagView { name: "blockquote"@, attrs, closing: true }) == more(r, "</span>"@),
{
    lemma_names();
}

/// Paragraphs and line breaks.
proof fn lemma_breaks(r: Reading, attrs: Seq<(Seq<char>, Seq<char>)>)
    requires
        !r.in_pre,
    ensures
        tag_read(r, TagView { name: "p"@, attrs, closing: false }) == r,
        tag_read(r, TagView { name: "p"@, attrs, closing: true }) == more(r, seq!['\n']),
        tag_read(r, TagView { name: "br"@, attrs, closing: false }) == more(r, seq!['\n']),
{
    lemma_names();
    assert(r.text.push('\n') =~= r.text + seq!['\n']);
}

/// Lists.
proof fn lemma_lists(r: Reading, attrs: Seq<(Seq<char>, Seq<char>)>)
    requires
        !r.in_pre,
    ensures
        tag_read(r, TagView { name: "ul"@, attrs, closing: false }) == (Reading { depth: r.depth + 1, ..r }),
        tag_read(r, TagView { name: "ol"@, attrs, closing: false }) == (Reading { depth: r.depth + 1, ..r }),
        tag_read(r, TagView { name: "ul"@, attrs, closing: true }) == (Reading { depth: if r.depth > 0 { (r.depth - 1) as nat } else { 0 }, ..r }),
        tag_read(r, TagView { name: "ol"@, attrs, closing: true }) == (Reading { depth: if r.depth > 0 { (r.depth - 1) as nat } else { 0 }, ..r }),
        tag_read(r, TagView { name: "li"@, attrs, closing: true }) == r,
        tag_read(r, TagView { name: "li"@, attrs, closing: false }) == more(r, seq!['\n'] + crate::markdown::spaces(if r.depth > 0 { (r.depth - 1) as nat } else { 0 }) + "\u{2022} "@),
{
    lemma_names();
}


spec fn opening(name: Seq<char>) -> TagView {
    TagView { name, attrs: no_attrs(), closing: false }
}

spec fn closing(name: Seq<char>) -> TagView {
    TagView { name, attrs: no_attrs(), closing: true }
}

/// The reading behind a plain text at the start.
spec fn after_word(a: Seq<char>) -> Reading {
    more(nothing_read(), escape(a))
}

/// A pair of tags around a text, with texts before and behind.
proof fn lemma_inline(
    dir: Directory,
    a: Seq<char>,
    open: Seq<char>,
    b: Seq<char>,
    close: Seq<char>,
    c: Seq<char>,
    name: Seq<char>,
    o: Seq<char>,
    e: Seq<char>,
)
    requires
        plain(a),
        plain(b),
        plain(c),
        tag_name(name),
        open == seq!['<'] + name + seq!['>'],
        close == seq!['<', '/'] + name + seq!['>'],
        tag_read(after_word(a), opening(name)) == more(after_word(a), o),
        tag_read(more(more(after_word(a), o), escape(b)), closing(name)) == more(
            more(more(after_word(a), o), escape(b)),
            e,
        ),
    ensures
        segments_of(dir, a + open + b + close + c) == seq![
            SegmentView::Text(escape(a) + o + escape(b) + e + escape(c)),
        ],
{
    let html = a + open + b + close + c;
    let s1 = open + (b + (close + c));
    let r0 = nothing_read();
    let r1 = after_word(a);
    let r2 = more(r1, o);
    let r3 = more(r2, escape(b));
    let r4 = more(r3, e);
    let r5 = more(r4, escape(c));
    assert(html =~= a + s1);
    assert(s1[0] == '<');
    lemma_word(dir, a, s1, r0);
    lemma_open(dir, open, name, b + (close + c), r1);
    assert((close + c)[0] == '<');
    lemma_word(dir, b, close + c, r2);
    lemma_close(dir, close, name, c, r3);
    assert(c + Seq::<char>::empty() =~= c);
    lemma_word(dir, c, Seq::empty(), r4);
    lemma_plain(dir, a);
    lemma_plain(dir, c);
    assert(r5.text =~= escape(a) + o + escape(b) + e + escape(c));
    assert(r5.text[0] == escape(a)[0]);
    assert(r5.text.last() == escape(c).last());
    lemma_one_segment(dir, html, r5);
}

/// Bold and italic text is shown as such, and the text around it as it was.
pub proof fn law_bold_and_italic(dir: Directory, a: Seq<char>, b: Seq<char>, c: Seq<char>)
    requires
        plain(a),
        plain(b),
        plain(c),
    ensures
        segments_of(dir, a + "<b>"@ + b + "</b>"@ + c) == seq![
            SegmentView::Text(escape(a) + "<b>"@ + escape(b) + "</b>"@ + escape(c)),
        ],
        segments_of(dir, a + "<strong>"@ + b + "</strong>"@ + c) == seq![
            SegmentView::Text(escape(a) + "<b>"@ + escape(b) + "</b>"@ + escape(c)),
        ],
        segments_of(dir, a + "<i>"@ + b + "</i>"@ + c) == seq![
            SegmentView::Text(escape(a) + "<i>"@ + escape(b) + "</i>"@ + escape(c)),
        ],
        segments_of(dir, a + "<em>"@ + b + "</em>"@ + c) == seq![
            SegmentView::Text(escape(a) + "<i>"@ + escape(b) + "</i>"@ + escape(c)),
        ],
{
    lemma_names();
    let r = after_word(a);
    assert(segments_of(dir, a + "<b>"@ + b + "</b>"@ + c) == seq![
        SegmentView::Text(escape(a) + "<b>"@ + escape(b) + "</b>"@ + escape(c)),
    ]) by {
        reveal_strlit("<b>");
        reveal_strlit("</b>");
        assert("<b>"@ =~= seq!['<'] + "b"@ + seq!['>']);
        assert("</b>"@ =~= seq!['<', '/'] + "b"@ + seq!['>']);
        lemma_bold(r, no_attrs());
        lemma_bold(more(more(r, "<b>"@), escape(b)), no_attrs());
        lemma_inline(dir, a, "<b>"@, b, "</b>"@, c, "b"@, "<b>"@, "</b>"@);
    }
    assert(segments_of(dir, a + "<strong>"@ + b + "</strong>"@ + c) == seq![
        SegmentView::Text(escape(a) + "<b>"@ + escape(b) + "</b>"@ + escape(c)),
    ]) by {
        reveal_strlit("<strong>");
        reveal_strlit("</strong>");
        assert("<strong>"@ =~= seq!['<'] + "strong"@ + seq!['>']);
        assert("</strong>"@ =~= seq!['<', '/'] + "strong"@ + seq!['>']);
        lemma_bold(r, no_attrs());
        lemma_bold(more(more(r, "<b>"@), escape(b)), no_attrs());
        lemma_inline(dir, a, "<strong>"@, b, "</strong>"@, c, "strong"@, "<b>"@, "</b>"@);
    }
    assert(segments_of(dir, a + "<i>"@ + b + "</i>"@ + c) == seq![
        SegmentView::Text(escape(a) + "<i>"@ + escape(b) + "</i>"@ + escape(c)),
    ]) by {
        reveal_strlit("<i>");
        reveal_strlit("</i>");
        assert("<i>"@ =~= seq!['<'] + "i"@ + seq!['>']);
        assert("</i>"@ =~= seq!['<', '/'] + "i"@ + seq!['>']);
        lemma_italic(r, no_attrs());
        lemma_italic(more(more(r, "<i>"@), escape(b)), no_attrs());
        lemma_inline(dir, a, "<i>"@, b, "</i>"@, c, "i"@, "<i>"@, "</i>"@);
    }
    assert(segments_of(dir, a + "<em>"@ + b + "</em>"@ + c) == seq![
        SegmentView::Text(escape(a) + "<i>"@ + escape(b) + "</i>"@ + escape(c)),
    ]) by {
        reveal_strlit("<em>");
        reveal_strlit("</em>");
        assert("<em>"@ =~= seq!['<'] + "em"@ + seq!['>']);
        assert("</em>"@ =~= seq!['<', '/'] + "em"@ + seq!['>']);
        lemma_italic(r, no_attrs());
        lemma_italic(more(more(r, "<i>"@), escape(b)), no_attrs());
        lemma_inline(dir, a, "<em>"@, b, "</em>"@, c, "em"@, "<i>"@, "</i>"@);
    }
}

/// Text that is struck out, underlined text and short code are shown as such.
pub proof fn law_struck_and_underlined(dir: Directory, a: Seq<char>, b: Seq<char>, c: Seq<char>)
    requires
        plain(a),
        plain(b),
        plain(c),
    ensures
        segments_of(dir, a + "<s>"@ + b + "</s>"@ + c) == seq![
            SegmentView::Text(escape(a) + "<s>"@ + escape(b) + "</s>"@ + escape(c)),
        ],
        segments_of(dir, a + "<del>"@ + b + "</del>"@ + c) == seq![
            SegmentView::Text(escape(a) + "<s>"@ + escape(b) + "</s>"@ + escape(c)),
        ],
        segments_of(dir, a + "<strike>"@ + b + "</strike>"@ + c) == seq![
            SegmentView::Text(escape(a) + "<s>"@ + escape(b) + "</s>"@ + escape(c)),
        ],
        segments_of(dir, a + "<u>"@ + b + "</u>"@ + c) == seq![
            SegmentView::Text(escape(a) + "<u>"@ + escape(b) + "</u>"@ + escape(c)),
        ],
        segments_of(dir, a + "<code>"@ + b + "</code>"@ + c) == seq![
            SegmentView::Text(escape(a) + "<tt>"@ + escape(b) + "</tt>"@ + escape(c)),
        ],
{
    lemma_names();
    let r = after_word(a);
    assert(segments_of(dir, a + "<s>"@ + b + "</s>"@ + c) == seq![
        SegmentView::Text(escape(a) + "<s>"@ + escape(b) + "</s>"@ + escape(c)),
    ]) by {
        reveal_strlit("<s>");
        reveal_strlit("</s>");
        assert("<s>"@ =~= seq!['<'] + "s"@ + seq!['>']);
        assert("</s>"@ =~= seq!['<', '/'] + "s"@ + seq!['>']);
        lemma_struck(r, no_attrs());
        lemma_struck(more(more(r, "<s>"@), escape(b)), no_attrs());
        lemma_inline(dir, a, "<s>"@, b, "</s>"@, c, "s"@, "<s>"@, "</s>"@);
    }
    assert(segments_of(dir, a + "<del>"@ + b + "</del>"@ + c) == seq![
        SegmentView::Text(escape(a) + "<s>"@ + escape(b) + "</s>"@ + escape(c)),
    ]) by {
        reveal_strlit("<del>");
        reveal_strlit("</del>");
        assert("<del>"@ =~= seq!['<'] + "del"@ + seq!['>']);
        assert("</del>"@ =~= seq!['<', '/'] + "del"@ + seq!['>']);
        lemma_struck(r, no_attrs());
        lemma_struck(more(more(r, "<s>"@), escape(b)), no_attrs());
        lemma_inline(dir, a, "<del>"@, b, "</del>"@, c, "del"@, "<s>"@, "</s>"@);
    }
    assert(segments_of(dir, a + "<strike>"@ + b + "</strike>"@ + c) == seq![
        SegmentView::Text(escape(a) + "<s>"@ + escape(b) + "</s>"@ + escape(c)),
    ]) by {
        reveal_strlit("<strike>");
        reveal_strlit("</strike>");
        assert("<strike>"@ =~= seq!['<'] + "strike"@ + seq!['>']);
        assert("</strike>"@ =~= seq!['<', '/'] + "strike"@ + seq!['>']);
        lemma_struck(r, no_attrs());
        lemma_struck(more(more(r, "<s>"@), escape(b)), no_attrs());
        lemma_inline(dir, a, "<strike>"@, b, "</strike>"@, c, "strike"@, "<s>"@, "</s>"@);
    }
    assert(segments_of(dir, a + "<u>"@ + b + "</u>"@ + c) == seq![
        SegmentView::Text(escape(a) + "<u>"@ + escape(b) + "</u>"@ + escape(c)),
    ]) by {
        reveal_strlit("<u>");
        reveal_strlit("</u>");
        assert("<u>"@ =~= seq!['<'] + "u"@ + seq!['>']);
        assert("</u>"@ =~= seq!['<', '/'] + "u"@ + seq!['>']);
        lemma_underlined(r, no_attrs());
        lemma_underlined(more(more(r, "<u>"@), escape(b)), no_attrs());
        lemma_inline(dir, a, "<u>"@, b, "</u>"@, c, "u"@, "<u>"@, "</u>"@);
    }
    assert(segments_of(dir, a + "<code>"@ + b + "</code>"@ + c) == seq![
        SegmentView::Text(escape(a) + "<tt>"@ + escape(b) + "</tt>"@ + escape(c)),
    ]) by {
        reveal_strlit("<code>");
        reveal_strlit("</code>");
        assert("<code>"@ =~= seq!['<'] + "code"@ + seq!['>']);
        assert("</code>"@ =~= seq!['<', '/'] + "code"@ + seq!['>']);
        lemma_underlined(r, no_attrs());
        lemma_underlined(more(more(r, "<tt>"@), escape(b)), no_attrs());
        lemma_inline(dir, a, "<code>"@, b, "</code>"@, c, "code"@, "<tt>"@, "</tt>"@);
    }
}

/// A heading stands out and ends its line.
pub proof fn law_headings(dir: Directory, a: Seq<char>, b: Seq<char>, c: Seq<char>)
    requires
        plain(a),
        plain(b),
        plain(c),
    ensures
        segments_of(dir, a + "<h1>"@ + b + "</h1>"@ + c) == seq![
            SegmentView::Text(escape(a) + "<b>"@ + escape(b) + "</b>\n"@ + escape(c)),
        ],
        segments_of(dir, a + "<h2>"@ + b + "</h2>"@ + c) == seq![
            SegmentView::Text(escape(a) + "<b>"@ + escape(b) + "</b>\n"@ + escape(c)),
        ],
        segments_of(dir, a + "<h3>"@ + b + "</h3>"@ + c) == seq![
            SegmentView::Text(escape(a) + "<b>"@ + escape(b) + "</b>\n"@ + escape(c)),
        ],
        segments_of(dir, a + "<h4>"@ + b + "</h4>"@ + c) == seq![
            SegmentView::Text(escape(a) + "<i>"@ + escape(b) + "</i>\n"@ + escape(c)),
        ],
        segments_of(dir, a + "<h5>"@ + b + "</h5>"@ + c) == seq![
            SegmentView::Text(escape(a) + "<i>"@ + escape(b) + "</i>\n"@ + escape(c)),
        ],
        segments_of(dir, a + "<h6>"@ + b + "</h6>"@ + c) == seq![
            SegmentView::Text(escape(a) + "<i>"@ + escape(b) + "</i>\n"@ + escape(c)),
        ],
{
    lemma_names();
    let r = after_word(a);
    assert(segments_of(dir, a + "<h1>"@ + b + "</h1>"@ + c) == seq![
        SegmentView::Text(escape(a) + "<b>"@ + escape(b) + "</b>\n"@ + escape(c)),
    ]) by {
        reveal_strlit("<h1>");
        reveal_strlit("</h1>");
        assert("<h1>"@ =~= seq!['<'] + "h1"@ + seq!['>']);
        assert("</h1>"@ =~= seq!['<', '/'] + "h1"@ + seq!['>']);
        lemma_headings(r, no_attrs());
        lemma_headings(more(more(r, "<b>"@), escape(b)), no_attrs());
        lemma_inline(dir, a, "<h1>"@, b, "</h1>"@, c, "h1"@, "<b>"@, "</b>\n"@);
    }
    assert(segments_of(dir, a + "<h2>"@ + b + "</h2>"@ + c) == seq![
        SegmentView::Text(escape(a) + "<b>"@ + escape(b) + "</b>\n"@ + escape(c)),
    ]) by {
        reveal_strlit("<h2>");
        reveal_strlit("</h2>");
        assert("<h2>"@ =~= seq!['<'] + "h2"@ + seq!['>']);
        assert("</h2>"@ =~= seq!['<', '/'] + "h2"@ + seq!['>']);
        lemma_headings(r, no_attrs());
        lemma_headings(more(more(r, "<b>"@), escape(b)), no_attrs());
        lemma_inline(dir, a, "<h2>"@, b, "</h2>"@, c, "h2"@, "<b>"@, "</b>\n"@);
    }
    assert(segments_of(dir, a + "<h3>"@ + b + "</h3>"@ + c) == seq![
        SegmentView::Text(escape(a) + "<b>"@ + escape(b) + "</b>\n"@ + escape(c)),
    ]) by {
        reveal_strlit("<h3>");
        reveal_strlit("</h3>");
        assert("<h3>"@ =~= seq!['<'] + "h3"@ + seq!['>']);
        assert("</h3>"@ =~= seq!['<', '/'] + "h3"@ + seq!['>']);
        lemma_headings(r, no_attrs());
        lemma_headings(more(more(r, "<b>"@), escape(b)), no_attrs());
        lemma_inline(dir, a, "<h3>"@, b, "</h3>"@, c, "h3"@, "<b>"@, "</b>\n"@);
    }
    assert(segments_of(dir, a + "<h4>"@ + b + "</h4>"@ + c) == seq![
        SegmentView::Text(escape(a) + "<i>"@ + escape(b) + "</i>\n"@ + escape(c)),
    ]) by {
        reveal_strlit("<h4>");
        reveal_strlit("</h4>");
        assert("<h4>"@ =~= seq!['<'] + "h4"@ + seq!['>']);
        assert("</h4>"@ =~= seq!['<', '/'] + "h4"@ + seq!['>']);
        lemma_headings(r, no_attrs());
        lemma_headings(more(more(r, "<i>"@), escape(b)), no_attrs());
        lemma_inline(dir, a, "<h4>"@, b, "</h4>"@, c, "h4"@, "<i>"@, "</i>\n"@);
    }
    assert(segments_of(dir, a + "<h5>"@ + b + "</h5>"@ + c) == seq![
        SegmentView::Text(escape(a) + "<i>"@ + escape(b) + "</i>\n"@ + escape(c)),
    ]) by {
        reveal_strlit("<h5>");
        reveal_strlit("</h5>");
        assert("<h5>"@ =~= seq!['<'] + "h5"@ + seq!['>']);
        assert("</h5>"@ =~= seq!['<', '/'] + "h5"@ + seq!['>']);
        lemma_headings(r, no_attrs());
        lemma_headings(more(more(r, "<i>"@), escape(b)), no_attrs());
        lemma_inline(dir, a, "<h5>"@, b, "</h5>"@, c, "h5"@, "<i>"@, "</i>\n"@);
    }
    assert(segments_of(dir, a + "<h6>"@ + b + "</h6>"@ + c) == seq![
        SegmentView::Text(escape(a) + "<i>"@ + escape(b) + "</i>\n"@ + escape(c)),
    ]) by {
        reveal_strlit("<h6>");
        reveal_strlit("</h6>");
        assert("<h6>"@ =~= seq!['<'] + "h6"@ + seq!['>']);
        assert("</h6>"@ =~= seq!['<', '/'] + "h6"@ + seq!['>']);
        lemma_headings(r, no_attrs());
        lemma_headings(more(more(r, "<i>"@), escape(b)), no_attrs());
        lemma_inline(dir, a, "<h6>"@, b, "</h6>"@, c, "h6"@, "<i>"@, "</i>\n"@);
    }
}

/// Quoted text is gray.
pub proof fn law_quotes_are_gray(dir: Directory, a: Seq<char>, b: Seq<char>, c: Seq<char>)
    requires
        plain(a),
        plain(b),
        plain(c),
    ensures
        segments_of(dir, a + "<blockquote>"@ + b + "</blockquote>"@ + c) == seq![
            SegmentView::Text(escape(a) + "<span foreground=\"gray\">"@ + escape(b) + "</span>"@ + escape(c)),
        ],
{
    lemma_names();
    let r = after_word(a);
    assert(segments_of(dir, a + "<blockquote>"@ + b + "</blockquote>"@ + c) == seq![
        SegmentView::Text(escape(a) + "<span foreground=\"gray\">"@ + escape(b) + "</span>"@ + escape(c)),
    ]) by {
        reveal_strlit("<blockquote>");
        reveal_strlit("</blockquote>");
        assert("<blockquote>"@ =~= seq!['<'] + "blockquote"@ + seq!['>']);
        assert("</blockquote>"@ =~= seq!['<', '/'] + "blockquote"@ + seq!['>']);
        lemma_quote(r, no_attrs());
        lemma_quote(more(more(r, "<span foreground=\"gray\">"@), escape(b)), no_attrs());
        lemma_inline(dir, a, "<blockquote>"@, b, "</blockquote>"@, c, "blockquote"@, "<span foreground=\"gray\">"@, "</span>"@);
    }
}


/// Paragraphs stand on lines of their own.
pub proof fn law_paragraphs(dir: Directory, a: Seq<char>, b: Seq<char>)
    requires
        plain(a),
        plain(b),
    ensures
        segments_of(dir, "<p>"@ + a + "</p><p>"@ + b + "</p>"@) == seq![
            SegmentView::Text(escape(a) + "\n"@ + escape(b)),
        ],
{
    reveal_strlit("<p>");
    reveal_strlit("</p>");
    reveal_strlit("</p><p>");
    reveal_strlit("\n");
    lemma_names();
    let o = "<p>"@;
    let e = "</p>"@;
    assert(o =~= seq!['<'] + "p"@ + seq!['>']);
    assert(e =~= seq!['<', '/'] + "p"@ + seq!['>']);
    assert("</p><p>"@ =~= e + o);
    let html = "<p>"@ + a + "</p><p>"@ + b + "</p>"@;
    let none = Seq::<char>::empty();
    let s4 = e + none;
    let s3 = b + s4;
    let s2 = o + s3;
    let s1 = e + s2;
    assert(html =~= o + (a + s1));
    let r0 = nothing_read();
    let r1 = more(r0, escape(a));
    let r2 = more(r1, seq!['\n']);
    let r3 = more(r2, escape(b));
    let r4 = more(r3, seq!['\n']);
    lemma_breaks(r0, no_attrs());
    lemma_breaks(r1, no_attrs());
    lemma_breaks(r2, no_attrs());
    lemma_breaks(r3, no_attrs());
    lemma_open(dir, o, "p"@, a + s1, r0);
    lemma_word(dir, a, s1, r0);
    lemma_close(dir, e, "p"@, s2, r1);
    lemma_open(dir, o, "p"@, s3, r2);
    lemma_word(dir, b, s4, r2);
    lemma_close(dir, e, "p"@, none, r3);
    lemma_plain(dir, a);
    lemma_plain(dir, b);
    let want = escape(a) + "\n"@ + escape(b);
    assert(r4.text =~= want.push('\n'));
    assert(want[0] == escape(a)[0]);
    assert(want.last() == escape(b).last());
    assert(trim_start_char(r4.text, '\n') == r4.text);
    assert(r4.text.drop_last() =~= want);
    assert(trim_end_char(r4.text, '\n') == trim_end_char(want, '\n'));
    assert(flushed(r4).segments =~= seq![SegmentView::Text(want)]);
}

/// A line break breaks the line, however it is written.
pub proof fn law_line_breaks(dir: Directory, a: Seq<char>, b: Seq<char>)
    requires
        plain(a),
        plain(b),
    ensures
        segments_of(dir, a + "<br>"@ + b) == seq![
            SegmentView::Text(escape(a) + "\n"@ + escape(b)),
        ],
        segments_of(dir, a + "<br/>"@ + b) == seq![
            SegmentView::Text(escape(a) + "\n"@ + escape(b)),
        ],
        segments_of(dir, a + "<br />"@ + b) == seq![
            SegmentView::Text(escape(a) + "\n"@ + escape(b)),
        ],
{
    reveal_strlit("<br>");
    reveal_strlit("<br/>");
    reveal_strlit("<br />");
    reveal_strlit("\n");
    lemma_names();
    lemma_not_reply("br"@);
    let r1 = after_word(a);
    lemma_breaks(r1, no_attrs());
    let t = opening("br"@);
    assert(attributes(Seq::empty()) =~= no_attrs());
    assert(tag_of("<br>"@.subrange(1, 3)) == t) by {
        assert("<br>"@.subrange(1, 3) =~= "br"@);
        lemma_tag_of_name("br"@);
    }
    assert(tag_of("<br/>"@.subrange(1, 4)) == t) by {
        let raw = "<br/>"@.subrange(1, 4);
        assert(trim(raw) == raw);
        lemma_no_space(raw, 0);
        assert(raw.subrange(0, 3) =~= raw);
        lemma_lower(raw);
        assert(raw.drop_last() =~= "br"@);
        assert(trim_end_char(raw, '/') == trim_end_char("br"@, '/'));
    }
    assert(tag_of("<br />"@.subrange(1, 5)) == t) by {
        let raw = "<br />"@.subrange(1, 5);
        assert(trim(raw) == raw);
        assert(find_space(raw, 0) == 2) by {
            reveal_with_fuel(find_space, 4);
        }
        assert(raw.subrange(0, 2) =~= "br"@);
        lemma_lower("br"@);
        let rest = raw.subrange(3, 4);
        assert(rest =~= seq!['/']);
        assert(trim_start(rest) == rest);
        assert(find_char(rest, '=', 0) == 1) by {
            reveal_with_fuel(find_char, 3);
        }
        assert(attributes(rest) =~= no_attrs());
    }
    lemma_tag_end_plain("<br>"@, 1, 3);
    lemma_tag_end_plain("<br/>"@, 1, 4);
    lemma_tag_end_plain("<br />"@, 1, 5);
    lemma_one_break(dir, a, "<br>"@, b);
    lemma_one_break(dir, a, "<br/>"@, b);
    lemma_one_break(dir, a, "<br />"@, b);
    assert(seq!['\n'] =~= "\n"@);
}

proof fn lemma_one_break(dir: Directory, a: Seq<char>, tag: Seq<char>, b: Seq<char>)
    requires
        plain(a),
        plain(b),
        tag.len() >= 2,
        tag[0] == '<',
        tag_end(tag, 1, None) == tag.len() - 1,
        tag_of(tag.subrange(1, tag.len() - 1)) == opening("br"@),
    ensures
        segments_of(dir, a + tag + b) == seq![
            SegmentView::Text(escape(a) + seq!['\n'] + escape(b)),
        ],
{
    let none = Seq::<char>::empty();
    let r1 = after_word(a);
    let r2 = more(r1, seq!['\n']);
    let r3 = more(r2, escape(b));
    lemma_names();
    lemma_not_reply("br"@);
    lemma_breaks(r1, no_attrs());
    assert(a + tag + b =~= a + (tag + b));
    lemma_word(dir, a, tag + b, nothing_read());
    lemma_step(dir, tag, b, r1, opening("br"@));
    assert(b + none =~= b);
    lemma_word(dir, b, none, r2);
    lemma_plain(dir, a);
    lemma_plain(dir, b);
    assert(r3.text =~= escape(a) + seq!['\n'] + escape(b));
    assert(r3.text[0] == escape(a)[0]);
    assert(r3.text.last() == escape(b).last());
    lemma_one_segment(dir, a + tag + b, r3);
}

/// The items of a list stand on lines of their own behind a bullet, those of a list
/// inside it are indented, and what follows it is not.
pub proof fn law_lists(dir: Directory, a: Seq<char>, b: Seq<char>, c: Seq<char>)
    requires
        plain(a),
        plain(b),
        plain(c),
    ensures
        segments_of(
            dir,
            "<ul><li>"@ + a + "<ul><li>"@ + b + "</li></ul></li><li>"@ + c + "</li></ul>"@,
        ) == seq![
            SegmentView::Text(
                "\u{2022} "@ + escape(a) + "\n  \u{2022} "@ + escape(b) + "\n\u{2022} "@ + escape(c),
            ),
        ],
        segments_of(
            dir,
            "<ol><li>"@ + a + "<ol><li>"@ + b + "</li></ol></li><li>"@ + c + "</li></ol>"@,
        ) == seq![
            SegmentView::Text(
                "\u{2022} "@ + escape(a) + "\n  \u{2022} "@ + escape(b) + "\n\u{2022} "@ + escape(c),
            ),
        ],
{
    lemma_names();
    reveal_strlit("<li>");
    reveal_strlit("</li>");
    reveal_strlit("<ul>");
    reveal_strlit("</ul>");
    reveal_strlit("<ol>");
    reveal_strlit("</ol>");
    reveal_strlit("<ul><li>");
    reveal_strlit("<ol><li>");
    reveal_strlit("</li></ul></li><li>");
    reveal_strlit("</li></ol></li><li>");
    reveal_strlit("</li></ul>");
    reveal_strlit("</li></ol>");
    assert("<ul>"@ =~= seq!['<'] + "ul"@ + seq!['>']);
    assert("<ol>"@ =~= seq!['<'] + "ol"@ + seq!['>']);
    assert("</ul>"@ =~= seq!['<', '/'] + "ul"@ + seq!['>']);
    assert("</ol>"@ =~= seq!['<', '/'] + "ol"@ + seq!['>']);
    assert("<ul><li>"@ =~= "<ul>"@ + "<li>"@);
    assert("<ol><li>"@ =~= "<ol>"@ + "<li>"@);
    assert("</li></ul></li><li>"@ =~= "</li>"@ + "</ul>"@ + "</li>"@ + "<li>"@);
    assert("</li></ol></li><li>"@ =~= "</li>"@ + "</ol>"@ + "</li>"@ + "<li>"@);
    assert("</li></ul>"@ =~= "</li>"@ + "</ul>"@);
    assert("</li></ol>"@ =~= "</li>"@ + "</ol>"@);
    lemma_list(dir, a, b, c, "ul"@, "<ul>"@, "</ul>"@);
    lemma_list(dir, a, b, c, "ol"@, "<ol>"@, "</ol>"@);
}

proof fn lemma_list(
    dir: Directory,
    a: Seq<char>,
    b: Seq<char>,
    c: Seq<char>,
    name: Seq<char>,
    o: Seq<char>,
    e: Seq<char>,
)
    requires
        plain(a),
        plain(b),
        plain(c),
        name == "ul"@ || name == "ol"@,
        o == seq!['<'] + name + seq!['>'],
        e == seq!['<', '/'] + name + seq!['>'],
    ensures
        segments_of(
            dir,
            (o + "<li>"@) + a + (o + "<li>"@) + b + ("</li>"@ + e + "</li>"@ + "<li>"@) + c + (
            "</li>"@ + e),
        ) == seq![
            SegmentView::Text(
                "\u{2022} "@ + escape(a) + "\n  \u{2022} "@ + escape(b) + "\n\u{2022} "@ + escape(c),
            ),
        ],
{
    lemma_names();
    reveal_strlit("<li>");
    reveal_strlit("</li>");
    reveal_strlit("\u{2022} ");
    reveal_strlit("\n  \u{2022} ");
    reveal_strlit("\n\u{2022} ");
    let li = "<li>"@;
    let il = "</li>"@;
    assert(li =~= seq!['<'] + "li"@ + seq!['>']);
    assert(il =~= seq!['<', '/'] + "li"@ + seq!['>']);
    let none = Seq::<char>::empty();
    let s11 = e + none;
    let s10 = il + s11;
    let s9 = c + s10;
    let s8 = li + s9;
    let s7 = il + s8;
    let s6 = e + s7;
    let s5 = il + s6;
    let s4 = b + s5;
    let s3 = li + s4;
    let s2 = o + s3;
    let s1 = a + s2;
    let s0 = li + s1;
    let html = (o + li) + a + (o + li) + b + (il + e + il + li) + c + (il + e);
    assert(html =~= o + s0);
    let dot = "\u{2022} "@;
    let r0 = nothing_read();
    let r1 = Reading { depth: 1, ..r0 };
    let r2 = more(r1, seq!['\n'] + crate::markdown::spaces(0) + dot);
    let r3 = more(r2, escape(a));
    let r4 = Reading { depth: 2, ..r3 };
    let r5 = more(r4, seq!['\n'] + crate::markdown::spaces(1) + dot);
    let r6 = more(r5, escape(b));
    let r7 = Reading { depth: 1, ..r6 };
    let r8 = more(r7, seq!['\n'] + crate::markdown::spaces(0) + dot);
    let r9 = more(r8, escape(c));
    let r10 = Reading { depth: 0, ..r9 };
    lemma_lists(r0, no_attrs());
    lemma_lists(r1, no_attrs());
    lemma_lists(r3, no_attrs());
    lemma_lists(r4, no_attrs());
    lemma_lists(r6, no_attrs());
    lemma_lists(r7, no_attrs());
    lemma_lists(r9, no_attrs());
    lemma_open(dir, o, name, s0, r0);
    lemma_open(dir, li, "li"@, s1, r1);
    lemma_word(dir, a, s2, r2);
    lemma_open(dir, o, name, s3, r3);
    lemma_open(dir, li, "li"@, s4, r4);
    lemma_word(dir, b, s5, r5);
    lemma_close(dir, il, "li"@, s6, r6);
    lemma_close(dir, e, name, s7, r6);
    lemma_close(dir, il, "li"@, s8, r7);
    lemma_open(dir, li, "li"@, s9, r7);
    lemma_word(dir, c, s10, r8);
    lemma_close(dir, il, "li"@, s11, r9);
    lemma_close(dir, e, name, none, r9);
    lemma_plain(dir, c);
    let want = "\u{2022} "@ + escape(a) + "\n  \u{2022} "@ + escape(b) + "\n\u{2022} "@ + escape(c);
    assert(seq!['\n'] + crate::markdown::spaces(0) + dot =~= "\n\u{2022} "@);
    assert(seq!['\n'] + crate::markdown::spaces(1) + dot =~= "\n  \u{2022} "@);
    assert("\n\u{2022} "@ =~= seq!['\n'] + dot);
    assert(r10.text =~= seq!['\n'] + want);
    assert(want[0] == '\u{2022}');
    assert(want.last() == escape(c).last());
    assert(r10.text.drop_first() =~= want);
    assert(trim_start_char(r10.text, '\n') == trim_start_char(want, '\n'));
    assert(trim_end_char(want, '\n') == want);
    assert(flushed(r10).segments =~= seq![SegmentView::Text(want)]);
}

/// Inside quotes a tag does not end.
proof fn lemma_tag_end_quoted(s: Seq<char>, i: int, q: int)
    requires
        0 <= i <= q < s.len(),
        s[q] == '"',
        forall|j: int| i <= j < q ==> (#[trigger] s[j]) != '"',
    ensures
        tag_end(s, i, Some('"')) == tag_end(s, q + 1, None),
    decreases q - i,
{
    if i < q {
        lemma_tag_end_quoted(s, i + 1, q);
    }
}

/// Up to the first quote of a tag.
proof fn lemma_tag_end_to_quote(s: Seq<char>, i: int, q: int)
    requires
        0 <= i <= q < s.len(),
        s[q] == '"',
        forall|j: int| i <= j < q ==> (#[trigger] s[j]) != '>' && s[j] != '"' && s[j] != '\'',
    ensures
        tag_end(s, i, None) == tag_end(s, q + 1, Some('"')),
    decreases q - i,
{
    if i < q {
        lemma_tag_end_to_quote(s, i + 1, q);
    }
}

proof fn lemma_find_char_at(s: Seq<char>, c: char, i: int, e: int)
    requires
        0 <= i <= e <= s.len(),
        e < s.len() ==> s[e] == c,
        forall|j: int| i <= j < e ==> (#[trigger] s[j]) != c,
    ensures
        find_char(s, c, i) == e,
    decreases e - i,
{
    if i < e {
        lemma_find_char_at(s, c, i + 1, e);
    }
}

proof fn lemma_find_space_at(s: Seq<char>, i: int, e: int)
    requires
        0 <= i <= e <= s.len(),
        e < s.len() ==> is_space(s[e]),
        forall|j: int| i <= j < e ==> !is_space(#[trigger] s[j]),
    ensures
        find_space(s, i) == e,
    decreases e - i,
{
    if i < e {
        lemma_find_space_at(s, i + 1, e);
    }
}

/// A tag with one quoted attribute.
proof fn lemma_tag_with_attr(
    dir: Directory,
    tag: Seq<char>,
    name: Seq<char>,
    key: Seq<char>,
    value: Seq<char>,
    s: Seq<char>,
    r: Reading,
)
    requires
        tag_name(name),
        tag_name(key),
        forall|i: int| 0 <= i < value.len() ==> (#[trigger] value[i]) != '"',
        tag == seq!['<'] + name + seq![' '] + key + seq!['=', '"'] + value + seq!['"', '>'],
    ensures
        read(dir, tag + s, 0, r) == read(
            dir,
            s,
            0,
            tag_read(r, TagView { name, attrs: seq![(key, value)], closing: false }),
        ),
{
    let t = TagView { name, attrs: seq![(key, value)], closing: false };
    let n = name.len() as int;
    let k = key.len() as int;
    let v = value.len() as int;
    let raw = name + seq![' '] + key + seq!['=', '"'] + value + seq!['"'];
    let q1 = 1 + n + 1 + k + 1;
    let q2 = q1 + 1 + v;
    assert(tag.len() == q2 + 2);
    assert(tag.subrange(1, tag.len() - 1) =~= raw);
    assert(tag[q1] == '"');
    assert(tag[q2] == '"');
    assert(tag[q2 + 1] == '>');
    assert forall|j: int| 1 <= j < q1 implies (#[trigger] tag[j]) != '>' && tag[j] != '"' && tag[j]
        != '\'' by {
        if j < 1 + n {
            assert(tag[j] == name[j - 1]);
        } else if j > 1 + n && j < 2 + n + k {
            assert(tag[j] == key[j - 2 - n]);
        }
    }
    lemma_tag_end_to_quote(tag, 1, q1);
    assert forall|j: int| q1 + 1 <= j < q2 implies (#[trigger] tag[j]) != '"' by {
        assert(tag[j] == value[j - q1 - 1]);
    }
    lemma_tag_end_quoted(tag, q1 + 1, q2);
    lemma_tag_end_plain(tag, q2 + 1, q2 + 1);
    lemma_not_reply(name);
    assert(tag_of(raw) == t) by {
        assert(raw[0] == name[0]);
        assert(raw.last() == '"');
        assert(trim(raw) == raw);
        assert forall|j: int| 0 <= j < n implies !is_space(#[trigger] raw[j]) by {
            assert(raw[j] == name[j]);
        }
        lemma_find_space_at(raw, 0, n);
        assert(raw.subrange(0, n) =~= name);
        lemma_lower(name);
        assert(trim_end_char(name, '/') == name);
        let rest = raw.subrange(n + 1, raw.len() as int);
        let quoted = seq!['"'] + value + seq!['"'];
        assert(rest =~= key + seq!['='] + quoted);
        assert(rest[0] == key[0]);
        assert(trim_start(rest) == rest);
        assert forall|j: int| 0 <= j < k implies (#[trigger] rest[j]) != '=' by {
            assert(rest[j] == key[j]);
        }
        lemma_find_char_at(rest, '=', 0, k);
        assert(rest.subrange(0, k) =~= key);
        assert(trim(key) == key);
        lemma_lower(key);
        assert(rest.subrange(k + 1, rest.len() as int) =~= quoted);
        assert(trim_start(quoted) == quoted);
        assert forall|j: int| 1 <= j < v + 1 implies (#[trigger] quoted[j]) != '"' by {
            assert(quoted[j] == value[j - 1]);
        }
        lemma_find_char_at(quoted, '"', 1, v + 1);
        assert(quoted.subrange(1, v + 1) =~= value);
        assert(quoted.subrange(v + 2, quoted.len() as int) =~= Seq::<char>::empty());
        assert(attributes(Seq::empty()) =~= no_attrs());
        assert(attributes(rest) =~= seq![(key, value)]);
    }
    lemma_step(dir, tag, s, r, t);
}

/// A link leads where it says, and shows its text.
pub proof fn law_links_keep_their_target(
    dir: Directory,
    a: Seq<char>,
    url: Seq<char>,
    b: Seq<char>,
    c: Seq<char>,
)
    requires
        plain(a),
        plain(b),
        plain(c),
        forall|i: int| 0 <= i < url.len() ==> (#[trigger] url[i]) != '"',
    ensures
        segments_of(dir, a + "<a href=\""@ + url + "\">"@ + b + "</a>"@ + c) == seq![
            SegmentView::Text(
                escape(a) + "<a href=\""@ + escape_in_attr(url) + "\">"@ + escape(b) + "</a>"@
                    + escape(c),
            ),
        ],
{
    lemma_names();
    reveal_strlit("<a href=\"");
    reveal_strlit("\">");
    reveal_strlit("</a>");
    reveal_strlit("href");
    reveal_strlit("<a");
    let tag = "<a href=\""@ + url + "\">"@;
    assert(tag =~= seq!['<'] + "a"@ + seq![' '] + "href"@ + seq!['=', '"'] + url + seq!['"', '>']);
    assert("</a>"@ =~= seq!['<', '/'] + "a"@ + seq!['>']);
    let html = a + "<a href=\""@ + url + "\">"@ + b + "</a>"@ + c;
    let s2 = "</a>"@ + c;
    let s1 = b + s2;
    assert(html =~= a + (tag + s1));
    assert((tag + s1)[0] == '<');
    let o = "<a href=\""@ + escape_in_attr(url) + "\">"@;
    let r1 = after_word(a);
    let r2 = more(r1, o);
    let r3 = more(r2, escape(b));
    let r4 = more(r3, "</a>"@);
    let r5 = more(r4, escape(c));
    let t = TagView { name: "a"@, attrs: seq![("href"@, url)], closing: false };
    assert(crate::markdown::tag::attr(t.attrs, "href"@) == Some(url));
    assert(tag_read(r1, t) == r2);
    assert(tag_read(r3, closing("a"@)) == r4);
    assert(tag_name("href"@));
    lemma_word(dir, a, tag + s1, nothing_read());
    lemma_tag_with_attr(dir, tag, "a"@, "href"@, url, s1, r1);
    lemma_word(dir, b, s2, r2);
    lemma_close(dir, "</a>"@, "a"@, c, r3);
    assert(c + Seq::<char>::empty() =~= c);
    lemma_word(dir, c, Seq::empty(), r4);
    lemma_plain(dir, a);
    lemma_plain(dir, c);
    assert(r5.text =~= escape(a) + "<a href=\""@ + escape_in_attr(url) + "\">"@ + escape(b)
        + "</a>"@ + escape(c));
    assert(r5.text[0] == escape(a)[0]);
    assert(r5.text.last() == escape(c).last());
    lemma_one_segment(dir, html, r5);
}

/// The end of a code block, behind a text.
proof fn lemma_pre_closed(r: Reading)
    requires
        r.in_pre,
        r.segments.len() == 0,
        r.text.len() > 0,
        r.text[0] != '\n',
        r.text.last() != '\n',
        r.code.len() > 0,
        r.code.last() != '\n',
    ensures
        tag_read(r, closing("pre"@)) == (Reading {
            segments: seq![
                SegmentView::Text(r.text),
                SegmentView::Code { content: r.code, lang: r.lang },
            ],
            text: Seq::empty(),
            in_pre: false,
            lang: Seq::empty(),
            code: Seq::empty(),
            depth: r.depth,
        }),
{
    lemma_names();
    lemma_no_trim(r.text, '\n');
    assert(trim_end_char(r.code, '\n') == r.code);
    let f = flushed(r);
    assert(f.segments =~= seq![SegmentView::Text(r.text)]);
    assert(f.segments.push(SegmentView::Code { content: r.code, lang: r.lang }) =~= seq![
        SegmentView::Text(r.text),
        SegmentView::Code { content: r.code, lang: r.lang },
    ]);
}

/// Behind a code block, text goes on in a segment of its own.
proof fn lemma_behind_code(
    dir: Directory,
    html: Seq<char>,
    b: Seq<char>,
    r: Reading,
    first: SegmentView,
    code: SegmentView,
)
    requires
        plain(b),
        r.segments == seq![first, code],
        r.text.len() == 0,
        !r.in_pre,
        read(dir, html, 0, nothing_read()) == read(dir, b, 0, r),
    ensures
        segments_of(dir, html) == seq![first, code, SegmentView::Text(escape(b))],
{
    let none = Seq::<char>::empty();
    assert(b + none =~= b);
    lemma_word(dir, b, none, r);
    lemma_plain(dir, b);
    let e = more(r, escape(b));
    assert(e.text =~= escape(b));
    lemma_no_trim(escape(b), '\n');
    assert(flushed(e).segments =~= seq![first, code, SegmentView::Text(escape(b))]);
}

/// Code: not empty, without tags and references, and not ending with a line break.
pub open spec fn plain_code(code: Seq<char>) -> bool {
    &&& code.len() > 0
    &&& code.last() != '\n'
    &&& forall|i: int| 0 <= i < code.len() ==> (#[trigger] code[i]) != '<' && code[i] != '&'
}

/// A code block is a segment of its own, between the text before and behind it, with
/// its source as it stands and the language that it names.
pub proof fn law_code_block(
    dir: Directory,
    a: Seq<char>,
    lang: Seq<char>,
    code: Seq<char>,
    b: Seq<char>,
)
    requires
        plain(a),
        plain(b),
        plain_code(code),
        forall|i: int| 0 <= i < lang.len() ==> (#[trigger] lang[i]) != '"',
    ensures
        segments_of(
            dir,
            a + "<pre><code class=\"language-"@ + lang + "\">"@ + code + "</code></pre>"@ + b,
        ) == seq![
            SegmentView::Text(escape(a)),
            SegmentView::Code { content: code, lang },
            SegmentView::Text(escape(b)),
        ],
{
    lemma_names();
    reveal_strlit("<pre>");
    reveal_strlit("</pre>");
    reveal_strlit("</code>");
    reveal_strlit("class");
    reveal_strlit("language-");
    reveal_strlit("\">");
    reveal_strlit("<pre><code class=\"language-");
    reveal_strlit("</code></pre>");
    let o = "<pre>"@;
    let e = "</pre>"@;
    let ce = "</code>"@;
    assert(o =~= seq!['<'] + "pre"@ + seq!['>']);
    assert(e =~= seq!['<', '/'] + "pre"@ + seq!['>']);
    assert(ce =~= seq!['<', '/'] + "code"@ + seq!['>']);
    assert("</code></pre>"@ =~= ce + e);
    let value = "language-"@ + lang;
    assert forall|i: int| 0 <= i < value.len() implies (#[trigger] value[i]) != '"' by {
        if i >= 9 {
            assert(value[i] == lang[i - 9]);
        }
    }
    let tag = seq!['<'] + "code"@ + seq![' '] + "class"@ + seq!['=', '"'] + value + seq!['"', '>'];
    let html = a + "<pre><code class=\"language-"@ + lang + "\">"@ + code + "</code></pre>"@ + b;
    let s5 = e + b;
    let s4 = ce + s5;
    let s3 = code + s4;
    let s2 = tag + s3;
    let s1 = o + s2;
    assert(html =~= a + s1);
    let r1 = after_word(a);
    let r2 = Reading { in_pre: true, ..r1 };
    let r3 = Reading { lang, ..r2 };
    let r4 = Reading { code, ..r3 };
    lemma_plain(dir, a);
    assert(r1.text =~= escape(a));
    let r5 = tag_read(r4, closing("pre"@));
    let t = TagView { name: "code"@, attrs: seq![("class"@, value)], closing: false };
    assert(tag_read(r1, opening("pre"@)) == r2);
    assert(crate::markdown::tag::attr(t.attrs, "class"@) == Some(value));
    assert(value.subrange(0, 9) =~= "language-"@);
    assert(value.subrange(9, value.len() as int) =~= lang);
    assert(tag_read(r2, t) == r3);
    assert(tag_read(r4, closing("code"@)) == r4);
    lemma_word(dir, a, s1, nothing_read());
    lemma_open(dir, o, "pre"@, s2, r1);
    lemma_tag_with_attr(dir, tag, "code"@, "class"@, value, s3, r2);
    lemma_decode_nothing(code);
    assert(Seq::<char>::empty() + code =~= code);
    lemma_text(dir, code, s4, r3);
    lemma_close(dir, ce, "code"@, s5, r4);
    lemma_close(dir, e, "pre"@, b, r4);
    lemma_pre_closed(r4);
    lemma_behind_code(
        dir,
        html,
        b,
        r5,
        SegmentView::Text(escape(a)),
        SegmentView::Code { content: code, lang },
    );
}

/// A code block that names no language has none; its lines are those of the source,
/// and the line breaks at its end do not count.
pub proof fn law_bare_code_block(
    dir: Directory,
    a: Seq<char>,
    code: Seq<char>,
    last: Seq<char>,
    b: Seq<char>,
)
    requires
        plain(a),
        plain(b),
        plain_code(code),
        plain_code(last),
    ensures
        segments_of(dir, a + "<pre>"@ + code + "<br>"@ + last + "\n</pre>"@ + b) == seq![
            SegmentView::Text(escape(a)),
            SegmentView::Code { content: code + "\n"@ + last, lang: Seq::empty() },
            SegmentView::Text(escape(b)),
        ],
        pango_of(dir, a + "<pre>"@ + code + "<br>"@ + last + "\n</pre>"@ + b) == escape(a)
            + "\n<tt>"@ + escape(code + "\n"@ + last) + "</tt>\n"@ + escape(b),
{
    lemma_names();
    reveal_strlit("<pre>");
    reveal_strlit("<br>");
    reveal_strlit("</pre>");
    reveal_strlit("\n</pre>");
    reveal_strlit("\n");
    let o = "<pre>"@;
    let e = "</pre>"@;
    let br = "<br>"@;
    assert(o =~= seq!['<'] + "pre"@ + seq!['>']);
    assert(br =~= seq!['<'] + "br"@ + seq!['>']);
    assert(e =~= seq!['<', '/'] + "pre"@ + seq!['>']);
    let tail = last.push('\n');
    let html = a + "<pre>"@ + code + "<br>"@ + last + "\n</pre>"@ + b;
    let s5 = e + b;
    let s4 = tail + s5;
    let s3 = br + s4;
    let s2 = code + s3;
    let s1 = o + s2;
    assert("\n</pre>"@ =~= seq!['\n'] + e);
    assert(html =~= a + s1);
    let r1 = after_word(a);
    let r2 = Reading { in_pre: true, ..r1 };
    let r3 = Reading { code, ..r2 };
    let r4 = Reading { code: code.push('\n'), ..r2 };
    let r5 = Reading { code: code.push('\n') + tail, ..r2 };
    let whole = code + "\n"@ + last;
    let r6 = Reading { code: whole, ..r2 };
    lemma_plain(dir, a);
    assert(r1.text =~= escape(a));
    assert(tag_read(r1, opening("pre"@)) == r2);
    assert(tag_read(r3, opening("br"@)) == r4);
    lemma_word(dir, a, s1, nothing_read());
    lemma_open(dir, o, "pre"@, s2, r1);
    lemma_decode_nothing(code);
    assert(Seq::<char>::empty() + code =~= code);
    lemma_text(dir, code, s3, r2);
    lemma_open(dir, br, "br"@, s4, r3);
    assert forall|i: int| 0 <= i < tail.len() implies (#[trigger] tail[i]) != '<' && tail[i] != '&' by {
        if i < last.len() {
            assert(tail[i] == last[i]);
        }
    }
    lemma_decode_nothing(tail);
    lemma_text(dir, tail, s5, r4);
    lemma_close(dir, e, "pre"@, b, r5);
    assert(r5.code =~= whole.push('\n'));
    assert(r5.code.drop_last() =~= whole);
    assert(whole.last() == last.last());
    assert(trim_end_char(whole.push('\n'), '\n') == trim_end_char(whole, '\n'));
    assert(trim_end_char(r5.code, '\n') == whole);
    assert(trim_end_char(r6.code, '\n') == whole);
    assert(tag_read(r5, closing("pre"@)) == tag_read(r6, closing("pre"@)));
    lemma_pre_closed(r6);
    let r7 = tag_read(r6, closing("pre"@));
    let text = SegmentView::Text(escape(a));
    let block = SegmentView::Code { content: whole, lang: Seq::empty() };
    lemma_behind_code(dir, html, b, r7, text, block);
    let end = SegmentView::Text(escape(b));
    let all = seq![text, block, end];
    lemma_joined(text, block, end, escape(a), whole, escape(b));
    lemma_plain(dir, b);
    let shown = crate::markdown::joined(all);
    assert(shown[0] == escape(a)[0]);
    assert(shown.last() == escape(b).last());
    lemma_no_trim(shown, '\n');
}

proof fn lemma_joined(
    text: SegmentView,
    block: SegmentView,
    end: SegmentView,
    a: Seq<char>,
    code: Seq<char>,
    b: Seq<char>,
)
    requires
        text == SegmentView::Text(a),
        block == (SegmentView::Code { content: code, lang: Seq::empty() }),
        end == SegmentView::Text(b),
    ensures
        crate::markdown::joined(seq![text, block, end]) == a + "\n<tt>"@ + escape(code)
            + "</tt>\n"@ + b,
{
    reveal_strlit("<tt>");
    reveal_strlit("</tt>");
    reveal_strlit("\n<tt>");
    reveal_strlit("</tt>\n");
    let all = seq![text, block, end];
    assert(all.drop_last() =~= seq![text, block]);
    assert(seq![text, block].drop_last() =~= seq![text]);
    reveal_with_fuel(crate::markdown::joined, 4);
    assert(crate::markdown::joined(seq![text]) == a);
    assert(crate::markdown::joined(seq![text, block]) =~= a.push('\n') + ("<tt>"@ + escape(code)
        + "</tt>"@));
    assert("\n<tt>"@ =~= seq!['\n'] + "<tt>"@);
    assert("</tt>\n"@ =~= "</tt>"@ + seq!['\n']);
    assert(crate::markdown::joined(all) =~= a + "\n<tt>"@ + escape(code) + "</tt>\n"@ + b);
}

/// A tag that is not known leaves no trace, but the text inside it stays.
pub proof fn law_unknown_tags_are_dropped(
    dir: Directory,
    a: Seq<char>,
    name: Seq<char>,
    b: Seq<char>,
    c: Seq<char>,
)
    requires
        plain(a),
        plain(b),
        plain(c),
        name == "span"@ || name == "font"@ || name == "div"@ || name == "table"@ || name == "img"@,
    ensures
        segments_of(
            dir,
            a + (seq!['<'] + name + seq!['>']) + b + (seq!['<', '/'] + name + seq!['>']) + c,
        ) == seq![SegmentView::Text(escape(a) + escape(b) + escape(c))],
{
    lemma_names();
    reveal_strlit("span");
    reveal_strlit("font");
    reveal_strlit("div");
    reveal_strlit("table");
    reveal_strlit("img");
    assert("span"@[0] == 's' && "font"@[0] == 'f' && "div"@[0] == 'd' && "div"@[1] == 'i'
        && "table"@[0] == 't' && "img"@[0] == 'i');
    assert("code"@[0] == 'c');
    let none = Seq::<char>::empty();
    let r1 = after_word(a);
    let r2 = more(r1, none);
    let r3 = more(r2, escape(b));
    assert(r1.text + none =~= r1.text);
    assert(r3.text + none =~= r3.text);
    assert(tag_read(r1, opening(name)) == r2);
    assert(tag_read(r3, closing(name)) == more(r3, none));
    assert(tag_name(name));
    lemma_inline(
        dir,
        a,
        seq!['<'] + name + seq!['>'],
        b,
        seq!['<', '/'] + name + seq!['>'],
        c,
        name,
        none,
        none,
    );
    assert(escape(a) + none + escape(b) + none + escape(c) =~= escape(a) + escape(b) + escape(c));
}

proof fn lemma_tag_end_none(s: Seq<char>, i: int)
    requires
        0 <= i <= s.len(),
        forall|j: int| i <= j < s.len() ==> (#[trigger] s[j]) != '>',
    ensures
        tag_end(s, i, None) == s.len(),
        tag_end(s, i, Some('"')) == s.len(),
        tag_end(s, i, Some('\'')) == s.len(),
    decreases s.len() - i,
{
    if i < s.len() {
        lemma_tag_end_none(s, i + 1);
    }
}

proof fn lemma_escape_concat(a: Seq<char>, b: Seq<char>)
    ensures
        escape(a + b) == escape(a) + escape(b),
    decreases a.len(),
{
    if a.len() == 0 {
        assert(a + b =~= b);
        assert(escape(a) + escape(b) =~= escape(b));
    } else {
        assert((a + b).drop_first() =~= a.drop_first() + b);
        lemma_escape_concat(a.drop_first(), b);
        assert(escape(a + b) =~= escape(a) + escape(b));
    }
}

/// Escaping goes character by character, and changes only the three characters that
/// mean something in markup.
pub proof fn law_escape_by_character(a: Seq<char>, b: Seq<char>, c: char)
    ensures
        escape(a + b) == escape(a) + escape(b),
        escape(seq!['&']) == "&amp;"@,
        escape(seq!['<']) == "&lt;"@,
        escape(seq!['>']) == "&gt;"@,
        c != '&' && c != '<' && c != '>' ==> escape(seq![c]) == seq![c],
{
    lemma_escape_concat(a, b);
    reveal_with_fuel(escape, 2);
    assert(seq!['&'].drop_first() =~= Seq::<char>::empty());
    assert(seq!['<'].drop_first() =~= Seq::<char>::empty());
    assert(seq!['>'].drop_first() =~= Seq::<char>::empty());
    assert(seq![c].drop_first() =~= Seq::<char>::empty());
    assert("&amp;"@ + Seq::<char>::empty() =~= "&amp;"@);
    assert("&lt;"@ + Seq::<char>::empty() =~= "&lt;"@);
    assert("&gt;"@ + Seq::<char>::empty() =~= "&gt;"@);
    assert(seq![c] + Seq::<char>::empty() =~= seq![c]);
}

/// A bracket that opens no tag is text.
pub proof fn law_lone_bracket_is_text(dir: Directory, a: Seq<char>, b: Seq<char>)
    requires
        plain(a),
        b.len() > 0,
        b.last() != '\n',
        forall|i: int| 0 <= i < b.len() ==> (#[trigger] b[i]) != '>',
    ensures
        segments_of(dir, a + "<"@ + b) == seq![SegmentView::Text(escape(a + "<"@ + b))],
{
    reveal_strlit("<");
    let rest = "<"@ + b;
    let html = a + "<"@ + b;
    assert(html =~= a + rest);
    lemma_word(dir, a, rest, nothing_read());
    assert forall|j: int| 0 <= j < rest.len() implies (#[trigger] rest[j]) != '>' by {
        if j > 0 {
            assert(rest[j] == b[j - 1]);
        }
    }
    lemma_tag_end_none(rest, 1);
    let r = more(after_word(a), escape(rest));
    assert(rest.subrange(0, rest.len() as int) =~= rest);
    assert(read(dir, rest, 0, after_word(a)) == r);
    lemma_escape_concat(a, rest);
    lemma_plain(dir, a);
    assert(r.text =~= escape(html));
    assert(r.text[0] == escape(a)[0]);
    let head = rest.drop_last();
    assert(rest =~= head + seq![b.last()]);
    lemma_escape_concat(head, seq![b.last()]);
    reveal_with_fuel(escape, 2);
    assert(seq![b.last()].drop_first() =~= Seq::<char>::empty());
    let e = crate::markdown::entities::escape_char(b.last());
    assert(escape(seq![b.last()]) =~= e);
    reveal_strlit("&amp;");
    reveal_strlit("&lt;");
    reveal_strlit("&gt;");
    assert(r.text.last() == e.last());
    assert(e.last() != '\n');
    lemma_one_segment(dir, html, r);
}

// ---- one paragraph ------------------------------------------------------------

proof fn lemma_only_paragraph(t: Seq<char>, j: int)
    requires
        !crate::text::contains(t, "<p>"@),
        3 <= j < t.len() + 7,
    ensures
        !crate::text::matches_at("<p>"@ + t + "</p>"@, "<p>"@, j),
{
    reveal_strlit("<p>");
    reveal_strlit("</p>");
    let p = "<p>"@;
    let e = "</p>"@;
    let html = p + t + e;
    assert(p.len() == 3 && p[0] == '<' && p[1] == 'p' && p[2] == '>');
    assert(e.len() == 4 && e[0] == '<' && e[1] == '/' && e[2] == 'p' && e[3] == '>');
    if crate::text::matches_at(html, p, j) {
        let part = html.subrange(j, j + 3);
        assert(part[0] == '<' && part[1] == 'p' && part[2] == '>');
        assert(html[j] == '<' && html[j + 1] == 'p' && html[j + 2] == '>');
        let k = j - 3;
        if k + 3 <= t.len() {
            assert(t.subrange(k, k + 3) == part);
            crate::text::lemma_find(t, p, 0);
            assert(crate::text::matches_at(t, p, k));
        } else {
            assert(html[3 + t.len() as int] == '<');
            assert(html[4 + t.len() as int] == '/');
        }
    }
}

/// A text that is one paragraph stands without the tags of the paragraph; a text of
/// two paragraphs keeps them.
pub proof fn law_one_paragraph_is_unwrapped(t: Seq<char>, more: Seq<char>, end: Seq<char>)
    requires
        !crate::text::contains(t, "<p>"@),
        end.len() == 0 || end == seq!['\n'],
    ensures
        unwrapped("<p>"@ + t + "</p>"@ + end) == t,
        unwrapped("<p>"@ + t + "</p>"@ + "<p>"@ + more + "</p>"@) == "<p>"@ + t + "</p>"@ + "<p>"@ + more
            + "</p>"@,
{
    reveal_strlit("<p>");
    reveal_strlit("</p>");
    let p = "<p>"@;
    let e = "</p>"@;
    assert(p.len() == 3 && p[0] == '<' && p[1] == 'p' && p[2] == '>');
    assert(e.len() == 4 && e[0] == '<' && e[1] == '/' && e[2] == 'p' && e[3] == '>');
    let one = p + t + e;
    let whole = p + t + e + end;
    assert(one[0] == '<' && one.last() == '>');
    assert(whole[0] == '<');
    reveal_with_fuel(crate::text::trim_end, 3);
    assert(crate::text::trim_start(whole) == whole);
    if end.len() > 0 {
        assert(whole.last() == '\n');
        assert(whole.drop_last() == one);
    } else {
        assert(whole == one);
    }
    assert(crate::text::trim(whole) == one);
    assert(one.subrange(0, 3) == p);
    assert(one.subrange(one.len() - 4, one.len() as int) == e);
    assert(one.subrange(3, one.len() - 4) == t);
    crate::text::lemma_find(one, p, 0);
    crate::text::lemma_find(one, p, 3);
    assert(crate::text::matches_at(one, p, 0));
    assert(crate::text::find(one, p, 0) == 0);
    let f = crate::text::find(one, p, 3);
    if f < one.len() {
        lemma_only_paragraph(t, f);
    }
    assert(f == one.len());
    assert(crate::text::count_from(one, p, 3) == 0);
    assert(crate::text::count_from(one, p, 0) == 1);

    let two = p + t + e + p + more + e;
    let k = t.len() as int + 7;
    assert(two.subrange(k, k + 3) == p);
    assert(crate::text::matches_at(two, p, k));
    assert(two.subrange(0, 3) == p);
    assert(two[0] == '<' && two.last() == '>');
    assert(crate::text::trim(two) == two);
    crate::text::lemma_find(two, p, 0);
    crate::text::lemma_find(two, p, 3);
    assert(crate::text::matches_at(two, p, 0));
    assert(crate::text::find(two, p, 0) == 0);
    let g = crate::text::find(two, p, 3);
    assert(g <= k) by {
        if g > k {
            assert(!crate::text::matches_at(two, p, k));
        }
    }
    assert(crate::text::count_from(two, p, 3) >= 1);
}

} // verus!
