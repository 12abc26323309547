//! Reading one HTML tag: its name, its attributes and whether it closes.

use vstd::prelude::*;
use crate::text::{chars_of, find_char_from, find_space_from, slice_of, string_of, trimmed, trimmed_end_char,
    trimmed_start, trimmed_start_char};

verus! {

/// What stands between `<` and `>`.
pub struct TagView {
    pub name: Seq<char>,
    pub attrs: Seq<(Seq<char>, Seq<char>)>,
    pub closing: bool,
}

/// An attribute value at the start of `v`, and what follows it.  A quoted
/// value ends at the next quote of its kind; when that quote is missing, the
/// last character is given up for it.  An unquoted value ends at white space.
pub open spec fn attr_value(v: Seq<char>) -> (Seq<char>, Seq<char>) {
    if v.len() > 0 && (v[0] == '"' || v[0] == '\'') {
        let q = crate::text::find_char(v, v[0], 1);
        if q < v.len() {
            (v.subrange(1, q), v.subrange(q + 1, v.len() as int))
        } else if v.len() > 1 {
            (v.subrange(1, v.len() - 1), Seq::empty())
        } else {
            (Seq::empty(), Seq::empty())
        }
    } else {
        let e = crate::text::find_space(v, 0);
        (v.subrange(0, e), v.subrange(e, v.len() as int))
    }
}

/// The `key=value` pairs of `s`.  A key is all that stands before the next `=`.
pub open spec fn attributes(s: Seq<char>) -> Seq<(Seq<char>, Seq<char>)>
    decreases s.len(),
{
    let t = crate::text::trim_start(s);
    let eq = crate::text::find_char(t, '=', 0);
    if s.len() > 0 && eq < t.len() {
        let v = crate::text::trim_start(t.subrange(eq + 1, t.len() as int));
        proof {
            lemma_attributes_shrink(s);
        }
        seq![(
            crate::text::lowercase(crate::text::trim(t.subrange(0, eq))),
            attr_value(v).0,
        )] + attributes(attr_value(v).1)
    } else {
        Seq::empty()
    }
}

/// The tag whose text is `raw`.
pub open spec fn tag_of(raw: Seq<char>) -> TagView {
    let t = crate::text::trim(raw);
    let closing = t.len() > 0 && t[0] == '/';
    let body = if closing {
        crate::text::trim(crate::text::trim_start_char(t, '/'))
    } else {
        t
    };
    let e = crate::text::find_space(body, 0);
    TagView {
        name: crate::text::trim_end_char(crate::text::lowercase(body.subrange(0, e)), '/'),
        attrs: attributes(
            if e < body.len() {
                body.subrange(e + 1, body.len() as int)
            } else {
                Seq::empty()
            },
        ),
        closing,
    }
}

/// The value of the first attribute named `key`.
pub open spec fn attr(attrs: Seq<(Seq<char>, Seq<char>)>, key: Seq<char>) -> Option<Seq<char>>
    decreases attrs.len(),
{
    if attrs.len() == 0 {
        None
    } else if attrs[0].0 == key {
        Some(attrs[0].1)
    } else {
        attr(attrs.drop_first(), key)
    }
}

proof fn lemma_trim_start_len(s: Seq<char>)
    ensures
        crate::text::trim_start(s).len() <= s.len(),
    decreases s.len(),
{
    if s.len() > 0 {
        lemma_trim_start_len(s.drop_first());
    }
}

pub proof fn lemma_attributes_shrink(s: Seq<char>)
    requires
        ({
            let t = crate::text::trim_start(s);
            crate::text::find_char(t, '=', 0) < t.len()
        }),
    ensures
        ({
            let t = crate::text::trim_start(s);
            let eq = crate::text::find_char(t, '=', 0);
            let v = crate::text::trim_start(t.subrange(eq + 1, t.len() as int));
            attr_value(v).1.len() < s.len()
        }),
{
    let t = crate::text::trim_start(s);
    lemma_trim_start_len(s);
    crate::text::lemma_find_char(t, '=', 0);
    let eq = crate::text::find_char(t, '=', 0);
    let w = t.subrange(eq + 1, t.len() as int);
    lemma_trim_start_len(w);
    let v = crate::text::trim_start(w);
    if v.len() > 0 && (v[0] == '"' || v[0] == '\'') {
        crate::text::lemma_find_char(v, v[0], 1);
    } else {
        crate::text::lemma_find_space(v, 0);
    }
}

/// A tag in executable form.
pub struct Tag {
    pub name: String,
    pub attrs: Vec<(String, String)>,
    pub closing: bool,
}

impl View for Tag {
    type V = TagView;

    open spec fn view(&self) -> TagView {
        TagView {
            name: self.name@,
            attrs: self.attrs@.map_values(|a: (String, String)| (a.0@, a.1@)),
            closing: self.closing,
        }
    }
}

impl Tag {
    /// The value of the first attribute named `key`.
    pub fn attr(&self, key: &str) -> (r: Option<&String>)
        ensures
            match r {
                Some(v) => attr(self@.attrs, key@) == Some(v@),
                None => attr(self@.attrs, key@) is None,
            },
    {
        let mut i: usize = 0;
        assert(self@.attrs.subrange(0, self@.attrs.len() as int) == self@.attrs);
        while i < self.attrs.len()
            invariant
                i <= self.attrs.len(),
                attr(self@.attrs.subrange(i as int, self@.attrs.len() as int), key@) == attr(
                    self@.attrs,
                    key@,
                ),
            decreases self.attrs.len() - i,
        {
            let ghost rest = self@.attrs.subrange(i as int, self@.attrs.len() as int);
            assert(rest.drop_first() == self@.attrs.subrange(i + 1, self@.attrs.len() as int));
            if crate::text::same(self.attrs[i].0.as_str(), key) {
                return Some(&self.attrs[i].1);
            }
            i = i + 1;
        }
        None
    }
}

fn read_value(v: &Vec<char>) -> (r: (Vec<char>, Vec<char>))
    ensures
        (r.0@, r.1@) == attr_value(v@),
        r.1@.len() <= v@.len(),
{
    if v.len() > 0 && (v[0] == '"' || v[0] == '\'') {
        let q: usize = find_char_from(v, v[0], 1);
        if q < v.len() {
            (slice_of(v, 1, q), slice_of(v, q + 1, v.len()))
        } else if v.len() > 1 {
            (slice_of(v, 1, v.len() - 1), Vec::new())
        } else {
            (Vec::new(), Vec::new())
        }
    } else {
        let e: usize = find_space_from(v, 0);
        (slice_of(v, 0, e), slice_of(v, e, v.len()))
    }
}

fn read_attributes(s: &Vec<char>) -> (r: Vec<(String, String)>)
    ensures
        r@.map_values(|a: (String, String)| (a.0@, a.1@)) == attributes(s@),
{
    let mut out: Vec<(String, String)> = Vec::new();
    let mut rest: Vec<char> = slice_of(s, 0, s.len());
    let ghost view = |a: (String, String)| (a.0@, a.1@);
    assert(rest@ == s@);
    assert(out@.map_values(view) + attributes(rest@) == attributes(s@));
    loop
        invariant
            out@.map_values(view) + attributes(rest@) == attributes(s@),
            view == |a: (String, String)| (a.0@, a.1@),
        ensures
            attributes(rest@) == Seq::<(Seq<char>, Seq<char>)>::empty(),
        decreases rest@.len(),
    {
        if rest.len() == 0 {
            break;
        }
        let t = trimmed_start(&rest);
        let eq: usize = find_char_from(&t, '=', 0);
        if eq >= t.len() {
            break;
        }
        let raw_key = slice_of(&t, 0, eq);
        let key = string_of(&trimmed(&raw_key)).as_str().to_lowercase();
        let after = slice_of(&t, eq + 1, t.len());
        let v = trimmed_start(&after);
        let (val, rest2) = read_value(&v);
        let val = string_of(&val);
        let ghost before = out@.map_values(view);
        proof {
            lemma_attributes_shrink(rest@);
        }
        out.push((key, val));
        assert(out@.map_values(view) == before.push((key@, val@)));
        assert(out@.map_values(view) + attributes(rest2@) == before + (seq![(key@, val@)]
            + attributes(rest2@)));
        rest = rest2;
    }
    assert(out@.map_values(view) + attributes(rest@) == out@.map_values(view));
    out
}

/// Reads the tag whose text is `raw`.
pub fn parse_tag(raw: &Vec<char>) -> (r: Tag)
    ensures
        r@ == tag_of(raw@),
{
    let t = trimmed(raw);
    let closing = t.len() > 0 && t[0] == '/';
    let body = if closing {
        let bare = trimmed_start_char(&t, '/');
        trimmed(&bare)
    } else {
        t
    };
    let e: usize = find_space_from(&body, 0);
    let first = string_of(&slice_of(&body, 0, e));
    let lower = chars_of(first.as_str().to_lowercase().as_str());
    let name = string_of(&trimmed_end_char(&lower, '/'));
    let rest: Vec<char> = if e < body.len() {
        slice_of(&body, e + 1, body.len())
    } else {
        Vec::new()
    };
    let attrs = read_attributes(&rest);
    Tag { name, attrs, closing }
}

// ---- laws ---------------------------------------------------------------------

proof fn lemma_trimmed(s: Seq<char>)
    requires
        s.len() > 0,
        !crate::text::is_space(s[0]),
        !crate::text::is_space(s.last()),
    ensures
        crate::text::trim(s) == s,
        crate::text::trim_start(s) == s,
{
}

proof fn lemma_pair(key: Seq<char>, v: Seq<char>)
    requires
        key.len() > 0,
        !crate::text::is_space(key[0]),
        !crate::text::is_space(key.last()),
        !key.contains('='),
        v.len() > 0,
        !crate::text::is_space(v[0]),
    ensures
        attributes(key + seq!['='] + v) == seq![(crate::text::lowercase(key), attr_value(v).0)]
            + attributes(attr_value(v).1),
{
    let s = key + seq!['='] + v;
    let n = key.len() as int;
    assert(s[0] == key[0]);
    assert(crate::text::trim_start(s) == s);
    crate::text::lemma_find_char(s, '=', 0);
    assert(s[n] == '=');
    let f = crate::text::find_char(s, '=', 0);
    assert(f == n) by {
        if f < n {
            assert(s[f] == key[f]);
            assert(key.contains(key[f]));
        } else if f > n {
            assert(s[n] != '=');
        }
    }
    assert(s.subrange(0, n) == key);
    lemma_trimmed(key);
    assert(s.subrange(n + 1, s.len() as int) == v);
    assert(crate::text::trim_start(v) == v);
}

/// An attribute has the value that stands behind the equals sign: what stands
/// between quotes of either kind, or, without quotes, all up to white space. The
/// name of an attribute does not depend on capitals.
pub proof fn law_attributes_have_their_values(key: Seq<char>, value: Seq<char>, rest: Seq<char>)
    requires
        key.len() > 0,
        !crate::text::is_space(key[0]),
        !crate::text::is_space(key.last()),
        !key.contains('='),
    ensures
        !value.contains('"') ==> attributes(key + seq!['='] + (seq!['"'] + value + seq!['"'] + rest))
            == seq![(crate::text::lowercase(key), value)] + attributes(rest),
        !value.contains('\'') ==> attributes(
            key + seq!['='] + (seq!['\''] + value + seq!['\''] + rest),
        ) == seq![(crate::text::lowercase(key), value)] + attributes(rest),
        value.len() > 0 && value[0] != '"' && value[0] != '\'' && (forall|i: int|
            0 <= i < value.len() ==> !crate::text::is_space(#[trigger] value[i])) && (rest.len() == 0
            || crate::text::is_space(rest[0])) ==> attributes(key + seq!['='] + (value + rest)) == seq![
            (crate::text::lowercase(key), value),
        ] + attributes(rest),
{
    if !value.contains('"') {
        lemma_quoted('"', value, rest);
        lemma_pair(key, seq!['"'] + value + seq!['"'] + rest);
    }
    if !value.contains('\'') {
        lemma_quoted('\'', value, rest);
        lemma_pair(key, seq!['\''] + value + seq!['\''] + rest);
    }
    if value.len() > 0 && value[0] != '"' && value[0] != '\'' && (forall|i: int|
        0 <= i < value.len() ==> !crate::text::is_space(#[trigger] value[i])) && (rest.len() == 0
        || crate::text::is_space(rest[0])) {
        let v = value + rest;
        assert(v[0] == value[0]);
        lemma_bare(value, rest, 0);
        assert(v.subrange(0, value.len() as int) == value);
        assert(v.subrange(value.len() as int, v.len() as int) == rest);
        assert(!crate::text::is_space(value[0]));
        lemma_pair(key, v);
    }
}

proof fn lemma_quoted(q: char, value: Seq<char>, rest: Seq<char>)
    requires
        q == '"' || q == '\'',
        !value.contains(q),
    ensures
        attr_value(seq![q] + value + seq![q] + rest) == (value, rest),
        !crate::text::is_space(q),
{
    let v = seq![q] + value + seq![q] + rest;
    let n = value.len() as int + 1;
    assert(v[0] == q && v[n] == q);
    crate::text::lemma_find_char(v, q, 1);
    let f = crate::text::find_char(v, q, 1);
    assert(f == n) by {
        if f < n {
            assert(v[f] == value[f - 1]);
            assert(value.contains(value[f - 1]));
        } else if f > n {
            assert(v[n] != q);
        }
    }
    assert(v.subrange(1, n) == value);
    assert(v.subrange(n + 1, v.len() as int) == rest);
}

proof fn lemma_bare(value: Seq<char>, rest: Seq<char>, i: int)
    requires
        0 <= i <= value.len(),
        forall|j: int| 0 <= j < value.len() ==> !crate::text::is_space(#[trigger] value[j]),
        rest.len() == 0 || crate::text::is_space(rest[0]),
    ensures
        crate::text::find_space(value + rest, i) == value.len(),
    decreases value.len() - i,
{
    let v = value + rest;
    if i < value.len() {
        assert(v[i] == value[i]);
        lemma_bare(value, rest, i + 1);
    } else if rest.len() > 0 {
        assert(v[i] == rest[0]);
    }
}

/// Of several attributes with one name the first counts.
pub proof fn law_first_attribute_counts(
    attrs: Seq<(Seq<char>, Seq<char>)>,
    key: Seq<char>,
    other: Seq<char>,
    value: Seq<char>,
)
    ensures
        attr(seq![(key, value)] + attrs, key) == Some(value),
        other != key ==> attr(seq![(other, value)] + attrs, key) == attr(attrs, key),
        attr(Seq::empty(), key) is None,
{
    let all = seq![(key, value)] + attrs;
    assert(all[0] == (key, value));
    let more = seq![(other, value)] + attrs;
    assert(more[0] == (other, value));
    assert(more.drop_first() == attrs);
}

} // verus!
