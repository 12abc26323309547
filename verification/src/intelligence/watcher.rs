//! The keyword part of the room interest watcher.

use vstd::prelude::*;
use crate::text::{chars_of, match_at};

verus! {

/// Whether `c` can be part of a word.
pub open spec fn word_char(c: char) -> bool {
    crate::text::alphanumeric(c) || c == '_'
}

/// Whether `term` stands in `text` at `i`, with no word character right before
/// or right after it.
pub open spec fn word_at(text: Seq<char>, term: Seq<char>, i: int) -> bool {
    &&& crate::text::matches_at(text, term, i)
    &&& i == 0 || !word_char(text[i - 1])
    &&& i + term.len() >= text.len() || !word_char(text[i + term.len()])
}

/// Whether `term` occurs in `text` as a whole word.
pub open spec fn has_word(text: Seq<char>, term: Seq<char>) -> bool {
    exists|i: int| 0 <= i <= text.len() && #[trigger] word_at(text, term, i)
}

fn is_word_char(c: char) -> (r: bool)
    ensures
        r == word_char(c),
{
    c.is_alphanumeric() || c == '_'
}

/// Whether `term` appears in `text` as a whole word. Both are expected in
/// lower case.
pub fn whole_word_match(text: &str, term: &str) -> (r: bool)
    ensures
        r == has_word(text@, term@),
{
    let s = chars_of(text);
    let t = chars_of(term);
    let mut i: usize = 0;
    loop
        invariant
            i <= s.len(),
            s@ == text@,
            t@ == term@,
            forall|j: int| 0 <= j < i ==> !word_at(text@, term@, j),
        decreases s.len() - i,
    {
        if match_at(&s, &t, i) {
            let before_ok = i == 0 || !is_word_char(s[i - 1]);
            let after: usize = i + t.len();
            let after_ok = after >= s.len() || !is_word_char(s[after]);
            if before_ok && after_ok {
                assert(word_at(text@, term@, i as int));
                return true;
            }
        }
        if i >= s.len() {
            return false;
        }
        i = i + 1;
    }
}

/// The first term that occurs in `body` as a whole word, in whatever case.
pub open spec fn keyword(body: Seq<char>, terms: Seq<Seq<char>>) -> Option<Seq<char>>
    decreases terms.len(),
{
    if body.len() == 0 || terms.len() == 0 {
        None
    } else if has_word(crate::text::lowercase(body), crate::text::lowercase(terms[0])) {
        Some(terms[0])
    } else {
        keyword(body, terms.drop_first())
    }
}

/// The first watch term that the body of a message mentions as a whole word,
/// in whatever case. None for an empty body.
pub fn keyword_match(body: &str, terms: &Vec<String>) -> (r: Option<String>)
    ensures
        crate::json::text_of(r) == keyword(body@, crate::text::views(terms@)),
{
    if body.is_empty() {
        return None;
    }
    let lower = body.to_lowercase();
    let ghost all = crate::text::views(terms@);
    let mut i: usize = 0;
    assert(all.subrange(0, all.len() as int) == all);
    while i < terms.len()
        invariant
            i <= terms.len(),
            body@.len() > 0,
            lower@ == crate::text::lowercase(body@),
            all == crate::text::views(terms@),
            keyword(body@, all.subrange(i as int, all.len() as int)) == keyword(body@, all),
        decreases terms.len() - i,
    {
        let ghost rest = all.subrange(i as int, all.len() as int);
        assert(rest.drop_first() == all.subrange(i + 1, all.len() as int));
        let term_lower = terms[i].as_str().to_lowercase();
        if whole_word_match(lower.as_str(), term_lower.as_str()) {
            return Some(terms[i].clone());
        }
        i = i + 1;
    }
    None
}

/// A term that stands by itself in a text is found, and one that is only a part of a
/// longer word is not.
pub proof fn law_terms_are_whole_words(a: Seq<char>, term: Seq<char>, b: Seq<char>, c: char)
    requires
        term.len() > 0,
        a.len() == 0 || !(crate::text::alphanumeric(a.last()) || a.last() == '_'),
        b.len() == 0 || !(crate::text::alphanumeric(b[0]) || b[0] == '_'),
        crate::text::alphanumeric(c) || c == '_',
    ensures
        has_word(a + term + b, term),
        crate::text::alphanumeric(term[0]) ==> !has_word(term + seq![c], term),
        crate::text::alphanumeric(term.last()) ==> !has_word(seq![c] + term, term),
{
    let text = a + term + b;
    let n = a.len() as int;
    assert(text.subrange(n, n + term.len()) == term);
    if n > 0 {
        assert(text[n - 1] == a.last());
    }
    if b.len() > 0 {
        assert(text[n + term.len()] == b[0]);
    }
    assert(word_at(text, term, n));
    let behind = term + seq![c];
    let before = seq![c] + term;
    let m = term.len() as int;
    assert(behind[m] == c && behind[0] == term[0]);
    assert(before[0] == c && before[m] == term.last());
    assert forall|i: int| 0 <= i <= behind.len() && crate::text::alphanumeric(term[0]) implies !(
    #[trigger] word_at(behind, term, i)) by {
        if i == 1 {
            assert(behind[i - 1] == term[0]);
        }
    }
    assert forall|i: int| 0 <= i <= before.len() && crate::text::alphanumeric(term.last()) implies !(
    #[trigger] word_at(before, term, i)) by {
        if i == 1 {
            assert(before[i - 1] == c);
        }
    }
}

/// Of several terms that a text mentions the first of the list is reported, and none
/// is when it mentions none.
pub proof fn law_first_term_is_reported(body: Seq<char>, terms: Seq<Seq<char>>, k: int)
    requires
        body.len() > 0,
        0 <= k <= terms.len(),
        forall|i: int|
            0 <= i < k ==> !has_word(
                crate::text::lowercase(body),
                crate::text::lowercase(#[trigger] terms[i]),
            ),
        k < terms.len() ==> has_word(
            crate::text::lowercase(body),
            crate::text::lowercase(terms[k]),
        ),
    ensures
        k < terms.len() ==> keyword(body, terms) == Some(terms[k]),
        k == terms.len() ==> keyword(body, terms) is None,
    decreases terms.len(),
{
    if terms.len() > 0 && k > 0 {
        let rest = terms.drop_first();
        assert(!has_word(crate::text::lowercase(body), crate::text::lowercase(terms[0])));
        assert forall|i: int| 0 <= i < k - 1 implies !has_word(
            crate::text::lowercase(body),
            crate::text::lowercase(#[trigger] rest[i]),
        ) by {
            assert(rest[i] == terms[i + 1]);
        }
        law_first_term_is_reported(body, rest, k - 1);
    }
}

} // verus!
