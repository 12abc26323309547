//! Escaping for Pango markup and decoding of HTML character references.

use vstd::prelude::*;
use crate::text::{chars_eq, find_char_from, number_of, push_hex, push_str, slice_of};

verus! {

/// `char::from_u32` gives the character with the code point `i`, and None
/// exactly when `i` is a surrogate or beyond the last code point.
pub assume_specification[ char::from_u32 ](i: u32) -> (r: Option<char>)
    ensures
        r is Some <==> scalar(i as nat),
        r is Some ==> r->0 == i as char,
;

/// Whether `n` is the code point of a character.
pub open spec fn scalar(n: nat) -> bool {
    n <= 0xd7ff || (0xe000 <= n && n <= 0x10ffff)
}

// ---- escaping -----------------------------------------------------------------

/// One character of element text.
pub open spec fn escape_char(c: char) -> Seq<char> {
    if c == '&' {
        "&amp;"@
    } else if c == '<' {
        "&lt;"@
    } else if c == '>' {
        "&gt;"@
    } else {
        seq![c]
    }
}

/// Text escaped for use between tags.
pub open spec fn escape(s: Seq<char>) -> Seq<char>
    decreases s.len(),
{
    if s.len() == 0 {
        Seq::empty()
    } else {
        escape_char(s[0]) + escape(s.drop_first())
    }
}

/// Text escaped for use inside a double-quoted attribute.
pub open spec fn escape_in_attr(s: Seq<char>) -> Seq<char>
    decreases s.len(),
{
    if s.len() == 0 {
        Seq::empty()
    } else {
        (if s[0] == '"' {
            "&quot;"@
        } else {
            escape_char(s[0])
        }) + escape_in_attr(s.drop_first())
    }
}

/// The control characters that markup may only hold as character references.
pub open spec fn is_markup_control(c: char) -> bool {
    let n = c as u32;
    (0x1 <= n <= 0x8) || (0xb <= n <= 0xc) || (0xe <= n <= 0x1f) || (0x7f <= n <= 0x84) || (0x86
        <= n <= 0x9f)
}

/// One character of a text that becomes markup.
pub open spec fn markup_char(c: char) -> Seq<char> {
    if c == '\'' {
        "&#39;"@
    } else if c == '"' {
        "&quot;"@
    } else if is_markup_control(c) {
        "&#x"@ + crate::text::hexadecimal(c as u32 as nat) + ";"@
    } else {
        escape_char(c)
    }
}

/// Text escaped so that a markup parser reads it back unchanged: the five
/// special characters become entities, control characters become numeric
/// references.
pub open spec fn markup_escape(s: Seq<char>) -> Seq<char>
    decreases s.len(),
{
    if s.len() == 0 {
        Seq::empty()
    } else {
        markup_char(s[0]) + markup_escape(s.drop_first())
    }
}

fn push_escaped(out: &mut Vec<char>, c: char)
    ensures
        final(out)@ == old(out)@ + escape_char(c),
{
    if c == '&' {
        push_str(out, "&amp;");
    } else if c == '<' {
        push_str(out, "&lt;");
    } else if c == '>' {
        push_str(out, "&gt;");
    } else {
        out.push(c);
        assert(out@ == old(out)@ + escape_char(c));
    }
}

/// Appends the escaped form of `s`.
pub fn push_escape(out: &mut Vec<char>, s: &Vec<char>)
    ensures
        final(out)@ == old(out)@ + escape(s@),
{
    let ghost start = out@;
    let mut i: usize = 0;
    assert(s@.subrange(0, s@.len() as int) == s@);
    while i < s.len()
        invariant
            i <= s.len(),
            out@ + escape(s@.subrange(i as int, s@.len() as int)) == start + escape(s@),
        decreases s.len() - i,
    {
        let ghost before = out@;
        let ghost rest = s@.subrange(i as int, s@.len() as int);
        assert(rest.drop_first() == s@.subrange(i + 1, s@.len() as int));
        push_escaped(out, s[i]);
        assert((before + escape_char(rest[0])) + escape(rest.drop_first()) == before + (escape_char(
            rest[0],
        ) + escape(rest.drop_first())));
        i = i + 1;
    }
    assert(out@ + escape(s@.subrange(i as int, s@.len() as int)) == out@);
}

/// Appends the form of `s` that may stand in a double-quoted attribute.
pub fn push_escape_attr(out: &mut Vec<char>, s: &Vec<char>)
    ensures
        final(out)@ == old(out)@ + escape_in_attr(s@),
{
    let ghost start = out@;
    let mut i: usize = 0;
    assert(s@.subrange(0, s@.len() as int) == s@);
    while i < s.len()
        invariant
            i <= s.len(),
            out@ + escape_in_attr(s@.subrange(i as int, s@.len() as int)) == start + escape_in_attr(
                s@,
            ),
        decreases s.len() - i,
    {
        let ghost before = out@;
        let ghost rest = s@.subrange(i as int, s@.len() as int);
        assert(rest.drop_first() == s@.subrange(i + 1, s@.len() as int));
        if s[i] == '"' {
            push_str(out, "&quot;");
        } else {
            push_escaped(out, s[i]);
        }
        proof {
            let head = if rest[0] == '"' {
                "&quot;"@
            } else {
                escape_char(rest[0])
            };
            assert((before + head) + escape_in_attr(rest.drop_first()) == before + (head
                + escape_in_attr(rest.drop_first())));
        }
        i = i + 1;
    }
    assert(out@ + escape_in_attr(s@.subrange(i as int, s@.len() as int)) == out@);
}

fn is_control(c: char) -> (r: bool)
    ensures
        r == is_markup_control(c),
{
    let n: u32 = c as u32;
    (0x1 <= n && n <= 0x8) || (0xb <= n && n <= 0xc) || (0xe <= n && n <= 0x1f) || (0x7f <= n && n
        <= 0x84) || (0x86 <= n && n <= 0x9f)
}

/// Appends the markup-escaped form of `s`.
pub fn push_markup_escape(out: &mut Vec<char>, s: &Vec<char>)
    ensures
        final(out)@ == old(out)@ + markup_escape(s@),
{
    let ghost start = out@;
    let mut i: usize = 0;
    assert(s@.subrange(0, s@.len() as int) == s@);
    while i < s.len()
        invariant
            i <= s.len(),
            out@ + markup_escape(s@.subrange(i as int, s@.len() as int)) == start + markup_escape(
                s@,
            ),
        decreases s.len() - i,
    {
        let ghost before = out@;
        let ghost rest = s@.subrange(i as int, s@.len() as int);
        assert(rest.drop_first() == s@.subrange(i + 1, s@.len() as int));
        let c = s[i];
        if c == '\'' {
            push_str(out, "&#39;");
        } else if c == '"' {
            push_str(out, "&quot;");
        } else if is_control(c) {
            push_str(out, "&#x");
            push_hex(out, c as u32 as u64);
            push_str(out, ";");
            assert(out@ == before + ("&#x"@ + crate::text::hexadecimal(c as u32 as nat) + ";"@));
        } else {
            push_escaped(out, c);
        }
        assert(out@ == before + markup_char(c));
        assert((before + markup_char(c)) + markup_escape(rest.drop_first()) == before + (
        markup_char(c) + markup_escape(rest.drop_first())));
        i = i + 1;
    }
    assert(out@ + markup_escape(s@.subrange(i as int, s@.len() as int)) == out@);
}

// ---- decoding -----------------------------------------------------------------

/// The text of a numeric character reference `&#n;`: the character, or nothing
/// when `n` is not the number of a character.
pub open spec fn char_reference(n: Seq<char>) -> Seq<char> {
    let code = if n.len() > 0 && n[0] == 'x' {
        crate::text::parse_number(n.drop_first(), 16, 0xffff_ffff)
    } else {
        crate::text::parse_number(n, 10, 0xffff_ffff)
    };
    match code {
        Some(v) => if scalar(v) {
            seq![(v as u32) as char]
        } else {
            Seq::empty()
        },
        None => Seq::empty(),
    }
}

/// What the reference `&e;` stands for; None when `e` names no character.
pub open spec fn entity(e: Seq<char>) -> Option<Seq<char>> {
    if e == "amp"@ {
        Some(seq!['&'])
    } else if e == "lt"@ {
        Some(seq!['<'])
    } else if e == "gt"@ {
        Some(seq!['>'])
    } else if e == "quot"@ {
        Some(seq!['"'])
    } else if e == "apos"@ {
        Some(seq!['\''])
    } else if e == "nbsp"@ {
        Some(seq!['\u{a0}'])
    } else if e.len() > 0 && e[0] == '#' {
        Some(char_reference(e.drop_first()))
    } else {
        None
    }
}

/// Text with its character references resolved; an `&` that starts none stays.
pub open spec fn decode(s: Seq<char>) -> Seq<char>
    decreases s.len(),
{
    if s.len() == 0 {
        Seq::empty()
    } else {
        let semi = crate::text::find_char(s, ';', 0);
        if s[0] == '&' && 0 < semi && semi < s.len() && entity(s.subrange(1, semi)) is Some {
            entity(s.subrange(1, semi))->0 + decode(s.subrange(semi + 1, s.len() as int))
        } else {
            seq![s[0]] + decode(s.drop_first())
        }
    }
}

fn push_char_reference(out: &mut Vec<char>, n: &Vec<char>)
    ensures
        final(out)@ == old(out)@ + char_reference(n@),
{
    let code: Option<u64> = if n.len() > 0 && n[0] == 'x' {
        let h = slice_of(n, 1, n.len());
        assert(h@ == n@.drop_first());
        number_of(&h, 16, 0xffff_ffff)
    } else {
        number_of(n, 10, 0xffff_ffff)
    };
    if let Some(v) = code {
        if let Some(c) = char::from_u32(v as u32) {
            out.push(c);
        }
    }
    assert(out@ == old(out)@ + char_reference(n@));
}

/// Appends what `&e;` stands for; false when `e` names no character.
fn push_entity(out: &mut Vec<char>, e: &Vec<char>) -> (r: bool)
    ensures
        r == (entity(e@) is Some),
        final(out)@ == old(out)@ + (if entity(e@) is Some {
            entity(e@)->0
        } else {
            Seq::empty()
        }),
{
    let named: Option<char> = if chars_eq(e, "amp") {
        Some('&')
    } else if chars_eq(e, "lt") {
        Some('<')
    } else if chars_eq(e, "gt") {
        Some('>')
    } else if chars_eq(e, "quot") {
        Some('"')
    } else if chars_eq(e, "apos") {
        Some('\'')
    } else if chars_eq(e, "nbsp") {
        Some('\u{a0}')
    } else {
        None
    };
    match named {
        Some(c) => {
            out.push(c);
            assert(out@ == old(out)@ + seq![c]);
            true
        },
        None => {
            if e.len() > 0 && e[0] == '#' {
                let n = slice_of(e, 1, e.len());
                assert(n@ == e@.drop_first());
                push_char_reference(out, &n);
                true
            } else {
                assert(out@ == old(out)@ + Seq::<char>::empty());
                false
            }
        },
    }
}

/// Searching a suffix is searching the whole from the suffix on.
pub proof fn lemma_find_char_suffix(s: Seq<char>, c: char, i: int, j: int)
    requires
        0 <= i <= s.len(),
        0 <= j <= s.len() - i,
    ensures
        crate::text::find_char(s.subrange(i, s.len() as int), c, j) + i == crate::text::find_char(
            s,
            c,
            i + j,
        ),
    decreases s.len() - i - j,
{
    let t = s.subrange(i, s.len() as int);
    if j < t.len() && t[j] != c {
        lemma_find_char_suffix(s, c, i, j + 1);
    }
}

/// The text of `s` with its character references resolved.
pub fn decoded(s: &Vec<char>) -> (r: Vec<char>)
    ensures
        r@ == decode(s@),
{
    let mut out: Vec<char> = Vec::new();
    let mut i: usize = 0;
    assert(s@.subrange(0, s@.len() as int) == s@);
    while i < s.len()
        invariant
            i <= s.len(),
            out@ + decode(s@.subrange(i as int, s@.len() as int)) == decode(s@),
        decreases s.len() - i,
    {
        let ghost before = out@;
        let ghost rest = s@.subrange(i as int, s@.len() as int);
        assert(rest.drop_first() == s@.subrange(i + 1, s@.len() as int));
        let mut done = false;
        let ghost i0 = i as int;
        if s[i] == '&' {
            let semi: usize = find_char_from(s, ';', i);
            proof {
                lemma_find_char_suffix(s@, ';', i as int, 0);
            }
            if semi < s.len() {
                let e = slice_of(s, i + 1, semi);
                assert(e@ == rest.subrange(1, semi - i0));
                if push_entity(&mut out, &e) {
                    done = true;
                    i = semi + 1;
                    assert(rest.subrange(semi - i0 + 1, rest.len() as int) == s@.subrange(
                        semi + 1,
                        s@.len() as int,
                    ));
                    assert(out@ + decode(s@.subrange(i as int, s@.len() as int)) == before + (
                    entity(e@)->0 + decode(s@.subrange(i as int, s@.len() as int))));
                } else {
                    assert(out@ == before);
                }
            }
        }
        if !done {
            out.push(s[i]);
            i = i + 1;
            assert(out@ + decode(rest.drop_first()) == before + (seq![rest[0]] + decode(
                rest.drop_first(),
            )));
        }
    }
    assert(out@ + decode(s@.subrange(i as int, s@.len() as int)) == out@);
    out
}

/// `s` with `&`, `<` and `>` escaped.
pub fn escape_text(s: &str) -> (r: String)
    ensures
        r@ == escape(s@),
{
    let v = crate::text::chars_of(s);
    let mut out: Vec<char> = Vec::new();
    push_escape(&mut out, &v);
    assert(out@ == escape(s@));
    crate::text::string_of(&out)
}

/// `s` escaped for a double-quoted attribute.
pub fn escape_attr(s: &str) -> (r: String)
    ensures
        r@ == escape_in_attr(s@),
{
    let v = crate::text::chars_of(s);
    let mut out: Vec<char> = Vec::new();
    push_escape_attr(&mut out, &v);
    assert(out@ == escape_in_attr(s@));
    crate::text::string_of(&out)
}

/// `s` with its HTML character references resolved.
pub fn decode_html_entities(s: &str) -> (r: String)
    ensures
        r@ == decode(s@),
{
    let v = crate::text::chars_of(s);
    let out = decoded(&v);
    crate::text::string_of(&out)
}

// ---- laws ---------------------------------------------------------------------

/// Decoding undoes escaping.
pub proof fn law_decode_escape(s: Seq<char>)
    ensures
        decode(escape(s)) == s,
    decreases s.len(),
{
    if s.len() > 0 {
        let c = s[0];
        let rest = s.drop_first();
        let tail = escape(rest);
        law_decode_escape(rest);
        reveal_strlit("&amp;");
        reveal_strlit("&lt;");
        reveal_strlit("&gt;");
        reveal_strlit("amp");
        reveal_strlit("lt");
        reveal_strlit("gt");
        let e = escape(s);
        assert(e == escape_char(c) + tail);
        assert(s == seq![c] + rest);
        reveal_with_fuel(crate::text::find_char, 6);
        if c == '&' {
            assert(crate::text::find_char(e, ';', 0) == 4);
            assert(e.subrange(1, 4) =~= "amp"@);
            assert(e.subrange(5, e.len() as int) =~= tail);
        } else if c == '<' || c == '>' {
            assert(crate::text::find_char(e, ';', 0) == 3);
            if c == '<' {
                assert(e.subrange(1, 3) =~= "lt"@);
                assert("lt"@[0] != "amp"@[0]);
            } else {
                assert(e.subrange(1, 3) =~= "gt"@);
                assert("gt"@[0] != "amp"@[0]);
                assert("gt"@[0] != "lt"@[0]);
            }
            assert(e.subrange(4, e.len() as int) =~= tail);
        } else {
            assert(e.drop_first() =~= tail);
        }
    }
}

/// Decoding undoes escaping for an attribute.
pub proof fn law_decode_escape_attr(s: Seq<char>)
    ensures
        decode(escape_in_attr(s)) == s,
    decreases s.len(),
{
    if s.len() > 0 {
        let c = s[0];
        let rest = s.drop_first();
        let tail = escape_in_attr(rest);
        law_decode_escape_attr(rest);
        reveal_strlit("&amp;");
        reveal_strlit("&lt;");
        reveal_strlit("&gt;");
        reveal_strlit("&quot;");
        reveal_strlit("amp");
        reveal_strlit("lt");
        reveal_strlit("gt");
        reveal_strlit("quot");
        let e = escape_in_attr(s);
        assert(s == seq![c] + rest);
        reveal_with_fuel(crate::text::find_char, 7);
        if c == '"' {
            assert(e == "&quot;"@ + tail);
            assert(crate::text::find_char(e, ';', 0) == 5);
            assert(e.subrange(1, 5) =~= "quot"@);
            assert(e.subrange(6, e.len() as int) =~= tail);
        } else if c == '&' {
            assert(crate::text::find_char(e, ';', 0) == 4);
            assert(e.subrange(1, 4) =~= "amp"@);
            assert(e.subrange(5, e.len() as int) =~= tail);
        } else if c == '<' || c == '>' {
            assert(crate::text::find_char(e, ';', 0) == 3);
            if c == '<' {
                assert(e.subrange(1, 3) =~= "lt"@);
                assert("lt"@[0] != "amp"@[0]);
            } else {
                assert(e.subrange(1, 3) =~= "gt"@);
                assert("gt"@[0] != "amp"@[0]);
                assert("gt"@[0] != "lt"@[0]);
            }
            assert(e.subrange(4, e.len() as int) =~= tail);
        } else {
            assert(e.drop_first() =~= tail);
        }
    }
}

/// Escaped text holds no angle brackets, so it cannot open or close a tag.
pub proof fn law_escape_has_no_brackets(s: Seq<char>)
    ensures
        forall|i: int| 0 <= i < escape(s).len() ==> escape(s)[i] != '<' && escape(s)[i] != '>',
    decreases s.len(),
{
    if s.len() > 0 {
        law_escape_has_no_brackets(s.drop_first());
        reveal_strlit("&amp;");
        reveal_strlit("&lt;");
        reveal_strlit("&gt;");
        let head = escape_char(s[0]);
        let tail = escape(s.drop_first());
        assert forall|i: int| 0 <= i < escape(s).len() implies escape(s)[i] != '<' && escape(s)[i]
            != '>' by {
            if i < head.len() {
                assert(escape(s)[i] == head[i]);
            } else {
                assert(escape(s)[i] == tail[i - head.len()]);
            }
        }
    }
}

/// Text escaped for an attribute holds no double quote and no angle bracket,
/// so it cannot end the attribute or the tag.
pub proof fn law_escape_attr_stays_inside(s: Seq<char>)
    ensures
        forall|i: int|
            0 <= i < escape_in_attr(s).len() ==> escape_in_attr(s)[i] != '"' && escape_in_attr(
                s,
            )[i] != '<' && escape_in_attr(s)[i] != '>',
    decreases s.len(),
{
    if s.len() > 0 {
        law_escape_attr_stays_inside(s.drop_first());
        reveal_strlit("&amp;");
        reveal_strlit("&lt;");
        reveal_strlit("&gt;");
        reveal_strlit("&quot;");
        let e = escape_in_attr(s);
        let head = if s[0] == '"' {
            "&quot;"@
        } else {
            escape_char(s[0])
        };
        let tail = escape_in_attr(s.drop_first());
        assert forall|i: int| 0 <= i < e.len() implies e[i] != '"' && e[i] != '<' && e[i] != '>' by {
            if i < head.len() {
                assert(e[i] == head[i]);
            } else {
                assert(e[i] == tail[i - head.len()]);
            }
        }
    }
}

} // verus!
