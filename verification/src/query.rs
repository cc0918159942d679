//! Full-text queries.

use crate::text;
use vstd::prelude::*;
use vstd::string::StringExecFns;

verus! {

/// The ten digits and the 52 letters of ASCII.
pub open spec fn ascii_alphanumeric(c: char) -> bool {
    ('0' <= c && c <= '9') || ('a' <= c && c <= 'z') || ('A' <= c && c <= 'Z')
}

/// Whether `char::is_alphanumeric` holds of the character.
pub uninterp spec fn alphanumeric(c: char) -> bool;

/// `char::is_alphanumeric` tells letters and numbers of every script. Of the ASCII
/// characters they are the ten digits and the 52 letters.
#[verifier::external_body]
fn is_alphanumeric(c: char) -> (b: bool)
    ensures
        b == alphanumeric(c),
        c as u32 <= 0x7f ==> b == ascii_alphanumeric(c),
{
    c.is_alphanumeric()
}

/// The characters that a search term keeps.
pub open spec fn term_char() -> spec_fn(char) -> bool {
    |c: char| alphanumeric(c) || c == '_' || c == '-'
}

/// The search terms of a query: its words without the characters that a term does not
/// keep, as far as anything is left of them.
pub open spec fn terms_of(words: Seq<Seq<char>>) -> Seq<Seq<char>>
    decreases words.len(),
{
    if words.len() == 0 {
        Seq::empty()
    } else {
        let before = terms_of(words.drop_last());
        let term = words.last().filter(term_char());
        if term.len() == 0 {
            before
        } else {
            before.push(term)
        }
    }
}

/// A term in quotation marks, which matches every word that begins with it.
pub open spec fn prefix_term(term: Seq<char>) -> Seq<char> {
    seq!['"'] + term + "\"*"@
}

/// The terms, one space apart.
pub open spec fn prefix_terms(terms: Seq<Seq<char>>) -> Seq<char>
    decreases terms.len(),
{
    if terms.len() == 0 {
        Seq::empty()
    } else if terms.len() == 1 {
        prefix_term(terms[0])
    } else {
        prefix_terms(terms.drop_last()).push(' ') + prefix_term(terms.last())
    }
}

/// The expression that finds what matches all of `terms`; one empty term where there is none.
pub open spec fn expression(terms: Seq<Seq<char>>) -> Seq<char> {
    if terms.len() == 0 {
        "\"\"*"@
    } else {
        prefix_terms(terms)
    }
}

/// Of an ASCII character it is known whether it is alphanumeric.
pub open spec fn ascii_is_told(c: char) -> bool {
    c as u32 <= 0x7f ==> alphanumeric(c) == ascii_alphanumeric(c)
}

/// What a query keeps: the characters of its terms, and the whitespace between them.
pub open spec fn query_char() -> spec_fn(char) -> bool {
    |c: char| text::whitespace(c) || term_char()(c)
}

/// The characters that expressions are made of.
pub open spec fn expression_char(c: char) -> bool {
    alphanumeric(c) || c == '_' || c == '-' || c == ' ' || c == '"' || c == '*'
}

/// The characters of a query that it keeps.
fn cleaned(chars: &[char]) -> (kept: Vec<char>)
    ensures
        kept@ == chars@.filter(query_char()),
        forall|i: int| 0 <= i < chars@.len() ==> ascii_is_told(#[trigger] chars@[i]),
{
    let ghost keep = query_char();
    let mut kept: Vec<char> = Vec::new();
    assert(chars@.take(0).filter(keep) =~= kept@) by {
        chars@.take(0).lemma_filter_len(keep);
    }
    for i in 0..chars.len()
        invariant
            keep == query_char(),
            kept@ == chars@.take(i as int).filter(keep),
            forall|j: int| 0 <= j < i ==> ascii_is_told(#[trigger] chars@[j]),
    {
        let c = chars[i];
        proof {
            assert(chars@.take(i + 1) =~= chars@.take(i as int).push(c));
            chars@.take(i as int).lemma_filter_push(c, keep);
        }
        if is_alphanumeric(c) || c == '_' || c == '-' || text::is_whitespace(c) {
            kept.push(c);
        }
    }
    assert(chars@.take(chars@.len() as int) =~= chars@);
    kept
}

/// The marks around terms cannot be part of a term.
fn marks_are_no_term_characters() -> (b: bool)
    ensures
        b,
        !alphanumeric('"'),
        !alphanumeric('*'),
{
    !is_alphanumeric('"') && !is_alphanumeric('*')
}

/// Makes a full-text expression of what a user typed.
///
/// Characters with a meaning in such expressions are left out, so that any text can be
/// searched for: no term holds a quotation mark, and the expression holds no characters but
/// those of its terms, quotation marks, stars and spaces. An expression made of an
/// expression is the same expression.
pub fn fts_query(input: &str) -> (q: String)
    ensures
        q@ == expression(terms_of(text::words(input@))),
        ({
            let keep = |c: char| alphanumeric(c) || c == '_' || c == '-';
            let terms = text::words(input@).map_values(|w: Seq<char>| w.filter(keep)).filter(
                |t: Seq<char>| t.len() > 0,
            );
            &&& terms.len() > 0 ==> text::words(q@) == terms.map_values(
                |t: Seq<char>| seq!['"'] + t + seq!['"', '*'],
            )
            &&& terms.len() == 0 ==> q@ == seq!['"', '"', '*']
        }),
        terms_of(text::words(q@)) == terms_of(text::words(input@)),
        expression(terms_of(text::words(q@))) == q@,
        forall|i: int| 0 <= i < q@.len() ==> expression_char(#[trigger] q@[i]),
        forall|i: int|
            0 <= i < terms_of(text::words(input@)).len() ==> !(#[trigger] terms_of(
                text::words(input@),
            )[i]).contains('"'),
        forall|i: int| 0 <= i < input@.len() ==> ascii_is_told(#[trigger] input@[i]),
        !alphanumeric('"'),
        !alphanumeric('*'),
{
    let chars = text::chars_of(input);
    let terms = text::split_words(cleaned(chars.as_slice()).as_slice());
    let _ = marks_are_no_term_characters();
    proof {
        let words = text::words(input@);
        terms_are_the_words_of_what_is_kept(input@);
        expressions_are_read_back(input@);
        no_word_is_lost(input@);
        assert forall|i: int| 0 <= i < terms_of(words).len() implies !(#[trigger] terms_of(
            words,
        )[i]).contains('"') by {
            let term = terms_of(words)[i];
            if term.contains('"') {
                let j = choose|j: int| 0 <= j < term.len() && term[j] == '"';
                terms_keep_only_their_characters(words, i, j);
            }
        }
        assert forall|i: int| 0 <= i < input@.len() implies ascii_is_told(
            #[trigger] input@[i],
        ) by {
            assert(ascii_is_told(chars@[i]));
        }
    }
    match_expression(&terms)
}

/// The terms of a text are the words that are left when the characters are dropped that
/// neither stand in a term nor between words.
proof fn terms_are_the_words_of_what_is_kept(s: Seq<char>)
    ensures
        text::words(s.filter(query_char())) == terms_of(text::words(s)),
        s.len() > 0 && !text::whitespace(s.last()) ==> text::words(s).len() > 0 && ({
            let f = s.filter(query_char());
            (f.len() > 0 && !text::whitespace(f.last())) <==> text::words(s).last().filter(
                term_char(),
            ).len() > 0
        }),
        s.len() > 0 && text::whitespace(s.last()) ==> s.filter(query_char()).len() > 0
            && text::whitespace(s.filter(query_char()).last()),
        s.len() == 0 ==> s.filter(query_char()).len() == 0,
    decreases s.len(),
{
    let (keep, tc) = (query_char(), term_char());
    let f = s.filter(keep);
    if s.len() == 0 {
        s.lemma_filter_len(keep);
        assert(f =~= Seq::<char>::empty());
    } else {
        let front = s.drop_last();
        let c = s.last();
        let g = front.filter(keep);
        terms_are_the_words_of_what_is_kept(front);
        assert(s =~= front.push(c));
        front.lemma_filter_push(c, keep);
        let before = text::words(front);
        let now = text::words(s);
        if text::whitespace(c) {
            assert(f == g.push(c));
            assert(f.drop_last() =~= g);
        } else if s.len() > 1 && !text::whitespace(s[s.len() - 2]) {
            assert(front.last() == s[s.len() - 2]);
            let word = before.last();
            word.lemma_filter_push(c, tc);
            assert(now.drop_last() =~= before.drop_last());
            assert(now.last() == word.push(c));
            let done = terms_of(before.drop_last());
            if tc(c) {
                assert(f.drop_last() =~= g);
                if word.filter(tc).len() > 0 {
                    assert(f[f.len() - 2] == g.last());
                    assert(terms_of(before).drop_last() =~= done);
                } else {
                    if g.len() > 0 {
                        assert(f[f.len() - 2] == g.last());
                    }
                    assert(word.filter(tc).push(c) =~= seq![c]);
                }
            }
        } else {
            if front.len() > 0 {
                assert(front.last() == s[s.len() - 2]);
            }
            let none = Seq::<char>::empty();
            none.lemma_filter_len(tc);
            none.lemma_filter_push(c, tc);
            assert(none.push(c) =~= seq![c]);
            assert(none.filter(tc) =~= none);
            assert(now.drop_last() =~= before);
            assert(now.last() == seq![c]);
            if tc(c) {
                assert(f.drop_last() =~= g);
                if g.len() > 0 {
                    assert(f[f.len() - 2] == g.last());
                }
                assert(none.filter(tc).push(c) =~= seq![c]);
            }
        }
    }
}

/// Text without whitespace behind a space, or alone, is one word.
proof fn one_more_word(a: Seq<char>, w: Seq<char>)
    requires
        w.len() > 0,
        forall|i: int| 0 <= i < w.len() ==> !text::whitespace(#[trigger] w[i]),
        a.len() == 0 || text::whitespace(a.last()),
    ensures
        text::words(a + w) == text::words(a).push(w),
    decreases w.len(),
{
    let s = a + w;
    let c = w.last();
    let v = w.drop_last();
    assert(s.drop_last() =~= a + v);
    assert(s.last() == c);
    assert(!text::whitespace(w[w.len() - 1]));
    if v.len() == 0 {
        assert(a + v =~= a);
        assert(w =~= seq![c]);
        if s.len() > 1 {
            assert(s[s.len() - 2] == a.last());
        }
    } else {
        assert forall|i: int| 0 <= i < v.len() implies !text::whitespace(#[trigger] v[i]) by {
            assert(v[i] == w[i]);
        }
        one_more_word(a, v);
        assert(s[s.len() - 2] == w[w.len() - 2]);
        assert(text::words(a).push(v).drop_last() =~= text::words(a));
        assert(v.push(c) =~= w);
    }
}

/// Around a term no other characters are kept.
proof fn a_term_is_read_back(term: Seq<char>)
    requires
        forall|i: int| 0 <= i < term.len() ==> term_char()(#[trigger] term[i]),
        !alphanumeric('"'),
        !alphanumeric('*'),
    ensures
        prefix_term(term).filter(term_char()) == term,
        prefix_term(term) == seq!['"'] + term + seq!['"', '*'],
{
    let tc = term_char();
    reveal_strlit("\"*");
    assert("\"*"@ =~= seq!['"', '*']);
    let none = Seq::<char>::empty();
    let open = seq!['"'];
    let close = seq!['"', '*'];
    none.lemma_filter_len(tc);
    assert(none.filter(tc) =~= none);
    none.lemma_filter_push('"', tc);
    assert(none.push('"') =~= open);
    open.lemma_filter_push('*', tc);
    assert(open.push('*') =~= close);
    everything_is_kept(term, tc);
    Seq::filter_distributes_over_add(open, term, tc);
    Seq::filter_distributes_over_add(open + term, close, tc);
    assert(none + term + none =~= term);
}

/// The expression that finds what matches all of `terms`.
pub fn match_expression(terms: &Vec<Vec<char>>) -> (q: String)
    ensures
        q@ == expression(text::views(terms@)),
{
    let ghost all = text::views(terms@);
    let mut out = String::new();
    for i in 0..terms.len()
        invariant
            all == text::views(terms@),
            out@ == prefix_terms(all.take(i as int)),
    {
        proof {
            let upto = all.take(i + 1);
            assert(upto.drop_last() =~= all.take(i as int));
            assert(upto.last() == terms@[i as int]@);
        }
        let term = text::string_of(terms[i].as_slice());
        if i > 0 {
            out.push(' ');
        }
        out.push('"');
        out.append(term.as_str());
        out.append("\"*");
        assert(out@ =~= prefix_terms(all.take(i + 1)));
    }
    assert(all.take(all.len() as int) =~= all);
    if terms.len() == 0 {
        "\"\"*".to_owned()
    } else {
        out
    }
}

/// The expression is never empty.
pub proof fn expressions_are_never_empty(terms: Seq<Seq<char>>)
    ensures
        expression(terms).len() > 0,
{
    reveal_strlit("\"\"*");
    reveal_strlit("\"*");
}

/// Terms are never empty, and hold none but the characters that a term keeps.
pub proof fn terms_keep_only_their_characters(words: Seq<Seq<char>>, i: int, j: int)
    requires
        0 <= i < terms_of(words).len(),
    ensures
        terms_of(words)[i].len() > 0,
        0 <= j < terms_of(words)[i].len() ==> term_char()(terms_of(words)[i][j]),
    decreases words.len(),
{
    let front = words.drop_last();
    let before = terms_of(front);
    if i < before.len() {
        assert(terms_of(words)[i] == before[i]);
        terms_keep_only_their_characters(front, i, j);
    } else {
        let term = words.last().filter(term_char());
        if 0 <= j < term.len() {
            words.last().lemma_filter_pred(term_char(), j);
        }
    }
}

proof fn everything_is_kept(s: Seq<char>, p: spec_fn(char) -> bool)
    requires
        forall|i: int| 0 <= i < s.len() ==> p(#[trigger] s[i]),
    ensures
        s.filter(p) == s,
    decreases s.len(),
{
    if s.len() == 0 {
        s.lemma_filter_len(p);
        assert(s.filter(p) =~= s);
    } else {
        let front = s.drop_last();
        assert forall|i: int| 0 <= i < front.len() implies p(#[trigger] front[i]) by {
            assert(front[i] == s[i]);
        }
        everything_is_kept(front, p);
        assert(s =~= front.push(s.last()));
        assert(p(s[s.len() - 1]));
        front.lemma_filter_push(s.last(), p);
    }
}

/// The terms are what a text holds: none is empty, and none holds whitespace or a character
/// that terms do not keep.
spec fn proper_terms(terms: Seq<Seq<char>>) -> bool {
    forall|i: int| 0 <= i < terms.len() ==> proper_term(#[trigger] terms[i])
}

spec fn proper_term(term: Seq<char>) -> bool {
    &&& term.len() > 0
    &&& forall|j: int|
        0 <= j < term.len() ==> term_char()(#[trigger] term[j]) && !text::whitespace(term[j])
}

proof fn terms_are_proper(words: Seq<Seq<char>>)
    requires
        forall|i: int, j: int|
            0 <= i < words.len() && 0 <= j < words[i].len() ==> !text::whitespace(
                #[trigger] words[i][j],
            ),
    ensures
        proper_terms(terms_of(words)),
    decreases words.len(),
{
    if words.len() > 0 {
        let front = words.drop_last();
        assert forall|i: int, j: int| 0 <= i < front.len() && 0 <= j < front[i].len() implies
            !text::whitespace(#[trigger] front[i][j]) by {
            assert(front[i] == words[i]);
            assert(!text::whitespace(words[i][j]));
        }
        terms_are_proper(front);
        let word = words.last();
        let term = word.filter(term_char());
        assert forall|j: int| 0 <= j < term.len() implies term_char()(#[trigger] term[j])
            && !text::whitespace(term[j]) by {
            word.lemma_filter_pred(term_char(), j);
            assert(term.contains(term[j]));
            word.lemma_filter_contains_rev(term_char(), term[j]);
            let k = choose|k: int| 0 <= k < word.len() && word[k] == term[j];
            assert(!text::whitespace(words[words.len() - 1][k]));
        }
        let all = terms_of(words);
        assert forall|i: int| 0 <= i < all.len() implies proper_term(#[trigger] all[i]) by {
            if i < terms_of(front).len() {
                assert(all[i] == terms_of(front)[i]);
            }
        }
    }
}

/// The characters of a term with its marks.
proof fn marked_term_characters(term: Seq<char>, i: int)
    requires
        0 <= i < prefix_term(term).len(),
    ensures
        prefix_term(term).len() == term.len() + 3,
        prefix_term(term)[i] == if i == 0 || i == term.len() + 1 {
            '"'
        } else if i == term.len() + 2 {
            '*'
        } else {
            term[i - 1]
        },
{
    reveal_strlit("\"*");
}

/// A term with its marks holds no whitespace, and no characters but those of expressions.
proof fn marked_terms_hold_no_whitespace(term: Seq<char>)
    requires
        proper_term(term),
    ensures
        forall|i: int|
            0 <= i < prefix_term(term).len() ==> !text::whitespace(
                #[trigger] prefix_term(term)[i],
            ) && expression_char(prefix_term(term)[i]),
        prefix_term(term).len() > 0,
{
    let w = prefix_term(term);
    assert(w.len() >= 1);
    assert forall|i: int| 0 <= i < w.len() implies !text::whitespace(#[trigger] w[i])
        && expression_char(w[i]) by {
        marked_term_characters(term, i);
        if 0 < i < 1 + term.len() {
            assert(term_char()(term[i - 1]));
        }
    }
}

proof fn fewer_terms_are_proper(terms: Seq<Seq<char>>)
    requires
        terms.len() > 0,
        proper_terms(terms),
    ensures
        proper_terms(terms.drop_last()),
        proper_term(terms.last()),
{
    let front = terms.drop_last();
    assert forall|i: int| 0 <= i < front.len() implies proper_term(#[trigger] front[i]) by {
        assert(front[i] == terms[i]);
    }
    assert(proper_term(terms[terms.len() - 1]));
}

/// What stands in front of the last term.
spec fn before_last(terms: Seq<Seq<char>>) -> Seq<char> {
    if terms.len() <= 1 {
        Seq::empty()
    } else {
        prefix_terms(terms.drop_last()).push(' ')
    }
}

proof fn last_term_is_split_off(terms: Seq<Seq<char>>)
    requires
        terms.len() > 0,
    ensures
        prefix_terms(terms) == before_last(terms) + prefix_term(terms.last()),
{
    if terms.len() == 1 {
        assert(terms[0] == terms.last());
        assert(before_last(terms) + prefix_term(terms.last()) =~= prefix_term(terms[0]));
    }
}

/// Terms with their marks hold no characters but those of expressions.
proof fn prefix_terms_hold_expression_characters(terms: Seq<Seq<char>>)
    requires
        proper_terms(terms),
        !alphanumeric('"'),
        !alphanumeric('*'),
    ensures
        forall|i: int|
            0 <= i < prefix_terms(terms).len() ==> expression_char(
                #[trigger] prefix_terms(terms)[i],
            ),
    decreases terms.len(),
{
    if terms.len() > 0 {
        let a = before_last(terms);
        let w = prefix_term(terms.last());
        let all = prefix_terms(terms);
        fewer_terms_are_proper(terms);
        prefix_terms_hold_expression_characters(terms.drop_last());
        marked_terms_hold_no_whitespace(terms.last());
        last_term_is_split_off(terms);
        assert forall|i: int| 0 <= i < all.len() implies expression_char(#[trigger] all[i]) by {
            if i >= a.len() {
                assert(all[i] == w[i - a.len()]);
            } else if i < a.len() - 1 {
                assert(all[i] == prefix_terms(terms.drop_last())[i]);
            }
        }
    }
}

/// One more word whose kept characters are `term` gives one more term.
proof fn one_more_term(words: Seq<Seq<char>>, w: Seq<char>, term: Seq<char>)
    requires
        w.filter(term_char()) == term,
        term.len() > 0,
    ensures
        terms_of(words.push(w)) == terms_of(words).push(term),
{
    assert(words.push(w).drop_last() =~= words);
}

/// The last term with its marks is the last word.
proof fn last_term_is_the_last_word(terms: Seq<Seq<char>>)
    requires
        terms.len() > 0,
        proper_term(terms.last()),
    ensures
        text::words(prefix_terms(terms)) == text::words(prefix_terms(terms.drop_last())).push(
            prefix_term(terms.last()),
        ),
{
    let front = terms.drop_last();
    let a = before_last(terms);
    marked_terms_hold_no_whitespace(terms.last());
    last_term_is_split_off(terms);
    one_more_word(a, prefix_term(terms.last()));
    assert(text::words(a) == text::words(prefix_terms(front))) by {
        if terms.len() == 1 {
            assert(prefix_terms(front) =~= a);
        } else {
            assert(a.drop_last() =~= prefix_terms(front));
        }
    }
}

/// What is kept of terms with their marks are the terms.
proof fn prefix_terms_are_read_back(terms: Seq<Seq<char>>)
    requires
        proper_terms(terms),
        !alphanumeric('"'),
        !alphanumeric('*'),
    ensures
        terms_of(text::words(prefix_terms(terms))) == terms,
    decreases terms.len(),
{
    if terms.len() == 0 {
        assert(text::words(prefix_terms(terms)) =~= Seq::<Seq<char>>::empty());
        assert(terms_of(text::words(prefix_terms(terms))) =~= terms);
    } else {
        let (front, term) = (terms.drop_last(), terms.last());
        fewer_terms_are_proper(terms);
        prefix_terms_are_read_back(front);
        last_term_is_the_last_word(terms);
        assert(prefix_term(term).filter(term_char()) == term) by {
            a_term_is_read_back(term);
        }
        one_more_term(text::words(prefix_terms(front)), prefix_term(term), term);
        assert(front.push(term) =~= terms);
    }
}

/// An expression made of an expression is the same expression, and it holds no characters
/// but those of expressions.
proof fn expressions_are_read_back(s: Seq<char>)
    requires
        !alphanumeric('"'),
        !alphanumeric('*'),
    ensures
        ({
            let e = expression(terms_of(text::words(s)));
            &&& terms_of(text::words(e)) == terms_of(text::words(s))
            &&& expression(terms_of(text::words(e))) == e
            &&& forall|i: int| 0 <= i < e.len() ==> expression_char(#[trigger] e[i])
        }),
{
    let words = text::words(s);
    text::words_are_the_text_without_whitespace(s);
    assert forall|i: int, j: int| 0 <= i < words.len() && 0 <= j < words[i].len() implies
        !text::whitespace(#[trigger] words[i][j]) by {
        assert(words[i].len() > 0);
    }
    terms_are_proper(words);
    let terms = terms_of(words);
    if terms.len() > 0 {
        prefix_terms_are_read_back(terms);
        prefix_terms_hold_expression_characters(terms);
    } else {
        let none = Seq::<char>::empty();
        let e = expression(terms);
        a_term_is_read_back(none);
        reveal_strlit("\"\"*");
        assert(e =~= prefix_term(none));
        one_more_word(none, e);
        assert(none + e =~= e);
        assert(text::words(none) =~= Seq::<Seq<char>>::empty());
        assert(text::words(e) =~= seq![e]);
        assert(text::words(e).drop_last() =~= Seq::<Seq<char>>::empty());
        assert(text::words(e).last() == e);
        assert(e.filter(term_char()) == none);
        assert(terms_of(Seq::<Seq<char>>::empty()) =~= Seq::<Seq<char>>::empty());
        assert(terms_of(text::words(e)) =~= Seq::<Seq<char>>::empty());
    }
}

proof fn terms_are_what_is_kept(words: Seq<Seq<char>>, clean: spec_fn(Seq<char>) -> Seq<char>, some:
    spec_fn(Seq<char>) -> bool)
    requires
        forall|w: Seq<char>| #[trigger] clean(w) == w.filter(term_char()),
        forall|t: Seq<char>| #[trigger] some(t) == (t.len() > 0),
    ensures
        words.map_values(clean).filter(some) == terms_of(words),
    decreases words.len(),
{
    let cleaned = words.map_values(clean);
    if words.len() == 0 {
        cleaned.lemma_filter_len(some);
        assert(cleaned.filter(some) =~= terms_of(words));
    } else {
        let front = words.drop_last();
        terms_are_what_is_kept(front, clean, some);
        let before = front.map_values(clean);
        let last = clean(words.last());
        assert(cleaned =~= before.push(last));
        before.lemma_filter_push(last, some);
    }
}

proof fn marked_terms_are_the_words(terms: Seq<Seq<char>>, mark: spec_fn(Seq<char>) -> Seq<char>)
    requires
        proper_terms(terms),
        forall|t: Seq<char>| #[trigger] mark(t) == prefix_term(t),
    ensures
        text::words(prefix_terms(terms)) == terms.map_values(mark),
    decreases terms.len(),
{
    if terms.len() == 0 {
        assert(text::words(prefix_terms(terms)) =~= terms.map_values(mark));
    } else {
        fewer_terms_are_proper(terms);
        marked_terms_are_the_words(terms.drop_last(), mark);
        last_term_is_the_last_word(terms);
        assert(terms.map_values(mark) =~= terms.drop_last().map_values(mark).push(
            mark(terms.last()),
        ));
    }
}

/// No word of a query is lost: each of its words of which anything can be kept becomes one word
/// of the expression, in the same order, in quotation marks and with a star behind it. Without
/// such words the expression is one empty term.
pub proof fn no_word_is_lost(s: Seq<char>)
    ensures
        ({
            let keep = |c: char| alphanumeric(c) || c == '_' || c == '-';
            let terms = text::words(s).map_values(|w: Seq<char>| w.filter(keep)).filter(
                |t: Seq<char>| t.len() > 0,
            );
            &&& terms.len() > 0 ==> text::words(expression(terms_of(text::words(s)))) == terms.map_values(
                |t: Seq<char>| seq!['"'] + t + seq!['"', '*'],
            )
            &&& terms.len() == 0 ==> expression(terms_of(text::words(s))) == seq!['"', '"', '*']
        }),
{
    let keep = |c: char| alphanumeric(c) || c == '_' || c == '-';
    let clean = |w: Seq<char>| w.filter(keep);
    let some = |t: Seq<char>| t.len() > 0;
    let mark = |t: Seq<char>| seq!['"'] + t + seq!['"', '*'];
    let words = text::words(s);
    reveal_strlit("\"*");
    reveal_strlit("\"\"*");
    assert(keep =~= term_char());
    terms_are_what_is_kept(words, clean, some);
    text::words_are_the_text_without_whitespace(s);
    assert forall|i: int, j: int| 0 <= i < words.len() && 0 <= j < words[i].len() implies
        !text::whitespace(#[trigger] words[i][j]) by {
        assert(words[i].len() > 0);
    }
    terms_are_proper(words);
    assert forall|t: Seq<char>| #[trigger] mark(t) == prefix_term(t) by {
        assert("\"*"@ =~= seq!['"', '*']);
    }
    marked_terms_are_the_words(terms_of(words), mark);
    assert("\"\"*"@ =~= seq!['"', '"', '*']);
}

} // verus!
