//! From a regular expression and a semantic query to the text that is searched
//! for by meaning.

use vstd::prelude::*;

use crate::lists::lemma_filter_members;
use crate::text::{
    chars_of, holds_text, is_word, join_texts, joined, lemma_words_are_words, lemma_words_of_joined,
    lemma_words_of_parts, lowercase, split_chars, split_words, texts, words,
};

verus! {

// ---------------------------------------------------------------------------
// The text inside a regular expression
// ---------------------------------------------------------------------------

/// The letters that, behind a backslash, stand for a class of characters, a
/// word boundary or a control character.
pub open spec fn class_letter(c: char) -> bool {
    c == 's' || c == 'S' || c == 'w' || c == 'W' || c == 'd' || c == 'D' || c == 'b' || c == 'B'
        || c == 'n' || c == 'r' || c == 't'
}

/// The metacharacters that leave nothing behind: quantifiers, anchors,
/// parentheses and the dot.
pub open spec fn silent_meta(c: char) -> bool {
    c == '*' || c == '+' || c == '?' || c == '^' || c == '$' || c == '(' || c == ')' || c == '.'
}

/// What is left of a pattern behind the bracket that closes a character class,
/// given what follows the opening bracket and how many brackets are open. A
/// backslash hides the character behind it. A class that is never closed
/// reaches to the end.
pub open spec fn after_class(p: Seq<char>, open_brackets: nat) -> Seq<char>
    decreases p.len(),
{
    if p.len() == 0 {
        p
    } else if p[0] == '\\' {
        if p.len() == 1 {
            Seq::empty()
        } else {
            after_class(p.skip(2), open_brackets)
        }
    } else if p[0] == '[' {
        after_class(p.skip(1), open_brackets + 1)
    } else if p[0] == ']' {
        if open_brackets <= 1 {
            p.skip(1)
        } else {
            after_class(p.skip(1), (open_brackets - 1) as nat)
        }
    } else {
        after_class(p.skip(1), open_brackets)
    }
}

/// What is left behind a character class is no longer than what was there.
pub proof fn lemma_after_class_is_shorter(p: Seq<char>, open_brackets: nat)
    ensures
        after_class(p, open_brackets).len() <= p.len(),
    decreases p.len(),
{
    if p.len() > 0 {
        if p[0] == '\\' {
            if p.len() > 1 {
                lemma_after_class_is_shorter(p.skip(2), open_brackets);
            }
        } else if p[0] == '[' {
            lemma_after_class_is_shorter(p.skip(1), open_brackets + 1);
        } else if p[0] == ']' {
            if open_brackets > 1 {
                lemma_after_class_is_shorter(p.skip(1), (open_brackets - 1) as nat);
            }
        } else {
            lemma_after_class_is_shorter(p.skip(1), open_brackets);
        }
    }
}

/// What is left of a pattern behind the first closing brace.
pub open spec fn after_brace(p: Seq<char>) -> Seq<char>
    decreases p.len(),
{
    if p.len() == 0 {
        p
    } else if p[0] == '}' {
        p.skip(1)
    } else {
        after_brace(p.skip(1))
    }
}

/// What is left behind a closing brace is no longer than what was there.
pub proof fn lemma_after_brace_is_shorter(p: Seq<char>)
    ensures
        after_brace(p).len() <= p.len(),
    decreases p.len(),
{
    if p.len() > 0 && p[0] != '}' {
        lemma_after_brace_is_shorter(p.skip(1));
    }
}

/// The literal text of a pattern. Character classes and repetition counts are
/// dropped whole; quantifiers, anchors, parentheses and dots are dropped; an
/// alternation or an escaped class becomes a space; any other escaped character
/// stands for itself.
pub open spec fn literal_text(p: Seq<char>) -> Seq<char>
    decreases p.len(),
{
    if p.len() == 0 {
        Seq::empty()
    } else if p[0] == '\\' {
        if p.len() == 1 {
            Seq::empty()
        } else if class_letter(p[1]) {
            seq![' '] + literal_text(p.skip(2))
        } else {
            seq![p[1]] + literal_text(p.skip(2))
        }
    } else if silent_meta(p[0]) {
        literal_text(p.skip(1))
    } else if p[0] == '[' {
        proof {
            lemma_after_class_is_shorter(p.skip(1), 1);
        }
        literal_text(after_class(p.skip(1), 1))
    } else if p[0] == '{' {
        proof {
            lemma_after_brace_is_shorter(p.skip(1));
        }
        literal_text(after_brace(p.skip(1)))
    } else if p[0] == '|' {
        seq![' '] + literal_text(p.skip(1))
    } else {
        seq![p[0]] + literal_text(p.skip(1))
    }
}

/// A pattern as a semantic query: the words of its literal text, with single
/// spaces between them.
pub open spec fn semantic_text(p: Seq<char>) -> Seq<char> {
    joined(words(literal_text(p)), seq![' '])
}

/// The position behind the bracket that closes a character class.
fn skip_class(p: &Vec<char>, start: usize) -> (end: usize)
    requires
        1 <= start <= p.len(),
    ensures
        start <= end <= p.len(),
        p@.skip(end as int) == after_class(p@.skip(start as int), 1),
{
    let mut i: usize = start;
    let mut open_brackets: usize = 1;
    while i < p.len()
        invariant
            1 <= start <= i <= p.len(),
            1 <= open_brackets <= i - start + 1,
            after_class(p@.skip(i as int), open_brackets as nat) == after_class(
                p@.skip(start as int),
                1,
            ),
        decreases p.len() - i,
    {
        let c: char = p[i];
        assert(p@.skip(i as int)[0] == c);
        assert(p@.skip(i as int).skip(1) =~= p@.skip(i + 1));
        if c == '\\' {
            if i + 1 >= p.len() {
                assert(p@.skip(p@.len() as int) =~= Seq::<char>::empty());
                return p.len();
            }
            assert(p@.skip(i as int).skip(2) =~= p@.skip(i + 2));
            i = i + 2;
        } else if c == '[' {
            open_brackets = open_brackets + 1;
            i = i + 1;
        } else if c == ']' {
            if open_brackets == 1 {
                return i + 1;
            }
            open_brackets = open_brackets - 1;
            i = i + 1;
        } else {
            i = i + 1;
        }
    }
    i
}

/// The position behind the first closing brace.
fn skip_brace(p: &Vec<char>, start: usize) -> (end: usize)
    requires
        start <= p.len(),
    ensures
        start <= end <= p.len(),
        p@.skip(end as int) == after_brace(p@.skip(start as int)),
{
    let mut i: usize = start;
    while i < p.len()
        invariant
            start <= i <= p.len(),
            after_brace(p@.skip(i as int)) == after_brace(p@.skip(start as int)),
        decreases p.len() - i,
    {
        assert(p@.skip(i as int)[0] == p@[i as int]);
        assert(p@.skip(i as int).skip(1) =~= p@.skip(i + 1));
        if p[i] == '}' {
            return i + 1;
        }
        i = i + 1;
    }
    i
}

/// A space in front of a text adds no word.
proof fn lemma_words_behind_space(s: Seq<char>)
    ensures
        words(seq![' '] + s) == words(s),
{
    let space = seq![' '];
    lemma_words_of_parts(space, s);
    assert(space.drop_last() =~= Seq::<char>::empty());
    assert(words(space.drop_last()) =~= Seq::<Seq<char>>::empty());
    assert(words(space) =~= Seq::<Seq<char>>::empty());
    assert(words(space) + words(s) =~= words(s));
}

/// Separates what follows from what was read, unless there is nothing to
/// separate.
fn push_separator(read: &mut Vec<char>)
    ensures
        forall|rest: Seq<char>|
            words(#[trigger] (final(read)@ + rest)) == words(old(read)@ + (seq![' '] + rest)),
{
    let ghost before = read@;
    let n: usize = read.len();
    if n > 0 && read[n - 1] != ' ' {
        read.push(' ');
        assert forall|rest: Seq<char>|
            words(#[trigger] (read@ + rest)) == words(before + (seq![' '] + rest)) by {
            assert(read@ + rest =~= before + (seq![' '] + rest));
        }
    } else {
        assert forall|rest: Seq<char>|
            words(#[trigger] (read@ + rest)) == words(before + (seq![' '] + rest)) by {
            lemma_words_behind_space(rest);
            lemma_words_of_parts(before, rest);
            lemma_words_of_parts(before, seq![' '] + rest);
        }
    }
}

/// Reads one element of a pattern and returns the position behind it.
fn read_element(p: &Vec<char>, i: usize, read: &mut Vec<char>) -> (next: usize)
    requires
        i < p.len(),
    ensures
        i < next <= p.len(),
        words(final(read)@ + literal_text(p@.skip(next as int))) == words(
            old(read)@ + literal_text(p@.skip(i as int)),
        ),
{
    let c: char = p[i];
    let ghost todo = p@.skip(i as int);
    let ghost before = read@;
    assert(todo[0] == c);
    assert(todo.skip(1) =~= p@.skip(i + 1));
    if c == '\\' {
        if i + 1 >= p.len() {
            assert(p@.skip(i + 1) =~= Seq::<char>::empty());
            return i + 1;
        }
        let e: char = p[i + 1];
        let ghost rest = literal_text(p@.skip(i + 2));
        assert(todo[1] == e);
        assert(todo.skip(2) =~= p@.skip(i + 2));
        if e == 's' || e == 'S' || e == 'w' || e == 'W' || e == 'd' || e == 'D' || e == 'b' || e
            == 'B' || e == 'n' || e == 'r' || e == 't' {
            push_separator(read);
            assert(words(read@ + rest) == words(before + (seq![' '] + rest)));
        } else {
            read.push(e);
            assert(read@ + rest =~= before + (seq![e] + rest));
        }
        i + 2
    } else if c == '*' || c == '+' || c == '?' || c == '^' || c == '$' || c == '(' || c == ')' || c
        == '.' {
        i + 1
    } else if c == '[' {
        skip_class(p, i + 1)
    } else if c == '{' {
        skip_brace(p, i + 1)
    } else if c == '|' {
        let ghost rest = literal_text(p@.skip(i + 1));
        push_separator(read);
        assert(words(read@ + rest) == words(before + (seq![' '] + rest)));
        i + 1
    } else {
        let ghost rest = literal_text(p@.skip(i + 1));
        read.push(c);
        assert(read@ + rest =~= before + (seq![c] + rest));
        i + 1
    }
}

/// Strips a regular expression down to the words that mean something in a
/// semantic query.
pub fn strip_regex_for_semantic(pattern: &str) -> (r: String)
    ensures
        r@ == semantic_text(pattern@),
{
    let p: Vec<char> = chars_of(pattern);
    let mut read: Vec<char> = Vec::new();
    let mut i: usize = 0;
    assert(p@.skip(0) =~= p@);
    assert(read@ + literal_text(p@.skip(0)) =~= literal_text(p@));
    while i < p.len()
        invariant
            i <= p.len(),
            words(read@ + literal_text(p@.skip(i as int))) == words(literal_text(p@)),
        decreases p.len() - i,
    {
        i = read_element(&p, i, &mut read);
    }
    proof {
        assert(p@.skip(i as int) =~= Seq::<char>::empty());
        assert(read@ + literal_text(p@.skip(i as int)) =~= read@);
        reveal_strlit(" ");
        assert(" "@ =~= seq![' ']);
    }
    join_texts(&split_chars(&read), " ")
}

/// A character that stands for itself in a pattern.
pub open spec fn plain_char(c: char) -> bool {
    c != '\\' && c != '[' && c != '{' && c != '|' && !silent_meta(c)
}

/// Plain text at the front of a pattern is kept as it is, whatever follows.
pub proof fn law_plain_front_is_kept(front: Seq<char>, rest: Seq<char>)
    requires
        forall|i: int| 0 <= i < front.len() ==> plain_char(#[trigger] front[i]),
    ensures
        literal_text(front + rest) == front + literal_text(rest),
    decreases front.len(),
{
    if front.len() == 0 {
        assert(front + rest =~= rest);
        assert(front + literal_text(rest) =~= literal_text(rest));
    } else {
        let tail = front.skip(1);
        assert forall|i: int| 0 <= i < tail.len() implies plain_char(#[trigger] tail[i]) by {
            assert(tail[i] == front[i + 1]);
        }
        law_plain_front_is_kept(tail, rest);
        assert((front + rest)[0] == front[0]);
        assert(plain_char(front[0]));
        assert((front + rest).skip(1) =~= tail + rest);
        assert(seq![front[0]] + (tail + literal_text(rest)) =~= front + literal_text(rest));
    }
}

/// Plain text with single spaces between its words passes through unchanged.
pub proof fn law_plain_text_is_unchanged(s: Seq<char>)
    requires
        forall|i: int| 0 <= i < s.len() ==> plain_char(#[trigger] s[i]),
        s == joined(words(s), seq![' ']),
    ensures
        semantic_text(s) == s,
{
    law_plain_front_is_kept(s, Seq::empty());
    assert(s + Seq::<char>::empty() =~= s);
}

/// Behind plain text, an alternation separates words as a space does.
pub proof fn law_alternation_separates(left: Seq<char>, right: Seq<char>)
    requires
        forall|i: int| 0 <= i < left.len() ==> plain_char(#[trigger] left[i]),
    ensures
        words(literal_text(left + seq!['|'] + right)) == words(left) + words(literal_text(right)),
{
    let tail = seq!['|'] + right;
    assert(left + seq!['|'] + right =~= left + tail);
    law_plain_front_is_kept(left, tail);
    assert(tail[0] == '|');
    assert(tail.skip(1) =~= right);
    let shown = seq![' '] + literal_text(right);
    assert(literal_text(tail) == shown);
    lemma_words_of_parts(left, shown);
    lemma_words_behind_space(literal_text(right));
}

/// Behind plain text, quantifiers, anchors, parentheses and dots leave nothing.
pub proof fn law_metacharacter_leaves_nothing(front: Seq<char>, c: char, rest: Seq<char>)
    requires
        forall|i: int| 0 <= i < front.len() ==> plain_char(#[trigger] front[i]),
        silent_meta(c),
    ensures
        literal_text(front + seq![c] + rest) == front + literal_text(rest),
{
    let tail = seq![c] + rest;
    assert(front + seq![c] + rest =~= front + tail);
    law_plain_front_is_kept(front, tail);
    assert(tail[0] == c);
    assert(tail.skip(1) =~= rest);
}

/// Behind plain text, a character behind a backslash stands for itself, unless
/// it is the letter of a class.
pub proof fn law_escaped_character_is_kept(front: Seq<char>, c: char, rest: Seq<char>)
    requires
        forall|i: int| 0 <= i < front.len() ==> plain_char(#[trigger] front[i]),
        !class_letter(c),
    ensures
        literal_text(front + seq!['\\', c] + rest) == front + seq![c] + literal_text(rest),
{
    let tail = seq!['\\', c] + rest;
    assert(front + seq!['\\', c] + rest =~= front + tail);
    law_plain_front_is_kept(front, tail);
    assert(tail[0] == '\\' && tail[1] == c);
    assert(tail.skip(2) =~= rest);
    assert(front + (seq![c] + literal_text(rest)) =~= front + seq![c] + literal_text(rest));
}

/// What is left behind a class without brackets and backslashes inside.
proof fn lemma_after_simple_class(body: Seq<char>, rest: Seq<char>)
    requires
        forall|i: int|
            0 <= i < body.len() ==> #[trigger] body[i] != '[' && body[i] != ']' && body[i] != '\\',
    ensures
        after_class(body + seq![']'] + rest, 1) == rest,
    decreases body.len(),
{
    let p = body + seq![']'] + rest;
    if body.len() == 0 {
        assert(p[0] == ']');
        assert(p.skip(1) =~= rest);
    } else {
        let tail = body.skip(1);
        assert forall|i: int| 0 <= i < tail.len() implies #[trigger] tail[i] != '[' && tail[i]
            != ']' && tail[i] != '\\' by {
            assert(tail[i] == body[i + 1]);
        }
        lemma_after_simple_class(tail, rest);
        assert(p[0] == body[0]);
        assert(p.skip(1) =~= tail + seq![']'] + rest);
    }
}

/// Behind plain text, a character class leaves nothing.
pub proof fn law_class_leaves_nothing(front: Seq<char>, body: Seq<char>, rest: Seq<char>)
    requires
        forall|i: int| 0 <= i < front.len() ==> plain_char(#[trigger] front[i]),
        forall|i: int|
            0 <= i < body.len() ==> #[trigger] body[i] != '[' && body[i] != ']' && body[i] != '\\',
    ensures
        literal_text(front + seq!['['] + body + seq![']'] + rest) == front + literal_text(rest),
{
    let tail = seq!['['] + body + seq![']'] + rest;
    assert(front + seq!['['] + body + seq![']'] + rest =~= front + tail);
    law_plain_front_is_kept(front, tail);
    assert(tail[0] == '[');
    assert(tail.skip(1) =~= body + seq![']'] + rest);
    lemma_after_simple_class(body, rest);
}

/// What is left behind the first closing brace.
proof fn lemma_after_simple_brace(body: Seq<char>, rest: Seq<char>)
    requires
        forall|i: int| 0 <= i < body.len() ==> #[trigger] body[i] != '}',
    ensures
        after_brace(body + seq!['}'] + rest) == rest,
    decreases body.len(),
{
    let p = body + seq!['}'] + rest;
    if body.len() == 0 {
        assert(p[0] == '}');
        assert(p.skip(1) =~= rest);
    } else {
        let tail = body.skip(1);
        assert forall|i: int| 0 <= i < tail.len() implies #[trigger] tail[i] != '}' by {
            assert(tail[i] == body[i + 1]);
        }
        lemma_after_simple_brace(tail, rest);
        assert(p[0] == body[0]);
        assert(p.skip(1) =~= tail + seq!['}'] + rest);
    }
}

/// Behind plain text, a repetition count leaves nothing.
pub proof fn law_repetition_leaves_nothing(front: Seq<char>, body: Seq<char>, rest: Seq<char>)
    requires
        forall|i: int| 0 <= i < front.len() ==> plain_char(#[trigger] front[i]),
        forall|i: int| 0 <= i < body.len() ==> #[trigger] body[i] != '}',
    ensures
        literal_text(front + seq!['{'] + body + seq!['}'] + rest) == front + literal_text(rest),
{
    let tail = seq!['{'] + body + seq!['}'] + rest;
    assert(front + seq!['{'] + body + seq!['}'] + rest =~= front + tail);
    law_plain_front_is_kept(front, tail);
    assert(tail[0] == '{');
    assert(tail.skip(1) =~= body + seq!['}'] + rest);
    lemma_after_simple_brace(body, rest);
}

/// The stripped text holds the words of the literal text, each separated from
/// the next by one space, and nothing else: stripping its spacing again
/// changes nothing.
pub proof fn law_stripped_text_is_spaced(p: Seq<char>)
    ensures
        words(semantic_text(p)) == words(literal_text(p)),
        joined(words(semantic_text(p)), seq![' ']) == semantic_text(p),
{
    lemma_words_are_words(literal_text(p));
    lemma_words_of_joined(words(literal_text(p)));
}

// ---------------------------------------------------------------------------
// Query and pattern together
// ---------------------------------------------------------------------------

/// The words of a text in lower case.
pub open spec fn lower_words(s: Seq<char>) -> Seq<Seq<char>> {
    words(s).map_values(|w: Seq<char>| lowercase(w))
}

/// The words of a pattern that a query does not have, letter case aside.
pub open spec fn new_words(query: Seq<char>, pattern: Seq<char>) -> Seq<Seq<char>> {
    words(pattern).filter(|w: Seq<char>| !lower_words(query).contains(lowercase(w)))
}

/// A query followed by the words that a pattern adds to it.
pub open spec fn merged(query: Seq<char>, pattern: Seq<char>) -> Seq<char> {
    if new_words(query, pattern).len() == 0 {
        query
    } else {
        query + seq![' '] + joined(new_words(query, pattern), seq![' '])
    }
}

/// Adds to a query the words of a stripped pattern that it does not hold yet.
pub fn merge_query_with_pattern(query: &str, sanitized_pattern: &str) -> (r: String)
    ensures
        r@ == merged(query@, sanitized_pattern@),
{
    let query_words: Vec<String> = split_words(query);
    let mut known: Vec<String> = Vec::new();
    let mut i: usize = 0;
    while i < query_words.len()
        invariant
            i <= query_words.len(),
            texts(query_words@) == words(query@),
            known.len() == i,
            forall|j: int|
                0 <= j < i ==> (#[trigger] known@[j])@ == lowercase(words(query@)[j]),
        decreases query_words.len() - i,
    {
        assert(texts(query_words@)[i as int] == query_words@[i as int]@);
        known.push(query_words[i].as_str().to_lowercase());
        i = i + 1;
    }
    assert(texts(query_words@).len() == query_words@.len());
    assert(texts(known@) =~= lower_words(query@));

    let pattern_words: Vec<String> = split_words(sanitized_pattern);
    let mut added: Vec<String> = Vec::new();
    let mut k: usize = 0;
    let ghost fresh = |w: Seq<char>| !lower_words(query@).contains(lowercase(w));
    let ghost all = words(sanitized_pattern@);
    assert(texts(pattern_words@).len() == pattern_words@.len());
    proof {
        reveal(Seq::filter);
        assert(all.take(0) =~= Seq::<Seq<char>>::empty());
        assert(all.take(0).filter(fresh) =~= Seq::<Seq<char>>::empty());
        assert(texts(added@) =~= Seq::<Seq<char>>::empty());
    }
    while k < pattern_words.len()
        invariant
            k <= pattern_words.len(),
            all == words(sanitized_pattern@),
            texts(pattern_words@) == all,
            texts(known@) == lower_words(query@),
            fresh == (|w: Seq<char>| !lower_words(query@).contains(lowercase(w))),
            texts(added@) == all.take(k as int).filter(fresh),
        decreases pattern_words.len() - k,
    {
        assert(texts(pattern_words@)[k as int] == pattern_words@[k as int]@);
        proof {
            reveal(Seq::filter);
            assert(all.take(k + 1).drop_last() =~= all.take(k as int));
            assert(all.take(k + 1).last() == all[k as int]);
        }
        let lower: String = pattern_words[k].as_str().to_lowercase();
        if !holds_text(&known, lower.as_str()) {
            let ghost before = added@;
            let word: String = pattern_words[k].as_str().to_owned();
            added.push(word);
            assert(texts(added@) =~= texts(before).push(word@));
        }
        k = k + 1;
    }
    assert(all.take(all.len() as int) =~= all);
    assert(texts(added@).len() == added@.len());
    if added.len() == 0 {
        query.to_owned()
    } else {
        proof {
            reveal_strlit(" ");
            assert(" "@ =~= seq![' ']);
        }
        let mut r: String = query.to_owned();
        r.append(" ");
        let tail: String = join_texts(&added, " ");
        r.append(tail.as_str());
        r
    }
}

/// The words of a merged query are those of the query, then the added ones.
pub proof fn law_merged_words(query: Seq<char>, pattern: Seq<char>)
    ensures
        words(merged(query, pattern)) == words(query) + new_words(query, pattern),
{
    let added = new_words(query, pattern);
    let fresh = |w: Seq<char>| !lower_words(query).contains(lowercase(w));
    if added.len() == 0 {
        assert(words(query) + added =~= words(query));
    } else {
        lemma_words_are_words(pattern);
        lemma_filter_members(words(pattern), fresh);
        assert forall|i: int| 0 <= i < added.len() implies is_word(#[trigger] added[i]) by {
            assert(words(pattern).contains(added[i]));
            let j = choose|j: int| 0 <= j < words(pattern).len() && words(pattern)[j] == added[i];
            assert(is_word(words(pattern)[j]));
        }
        lemma_words_of_joined(added);
        let tail = joined(added, seq![' ']);
        assert(query + seq![' '] + tail =~= query + (seq![' '] + tail));
        lemma_words_of_parts(query, seq![' '] + tail);
        lemma_words_behind_space(tail);
    }
}

/// No word that a pattern adds was in the query before, letter case aside.
pub proof fn law_merge_adds_no_duplicate(query: Seq<char>, pattern: Seq<char>)
    ensures
        forall|i: int|
            0 <= i < new_words(query, pattern).len() ==> !lower_words(query).contains(
                lowercase(#[trigger] new_words(query, pattern)[i]),
            ),
{
    lemma_filter_members(
        words(pattern),
        |w: Seq<char>| !lower_words(query).contains(lowercase(w)),
    );
}

/// A merged query holds every word of the pattern, letter case aside.
pub proof fn law_merge_covers_pattern(query: Seq<char>, pattern: Seq<char>)
    ensures
        forall|i: int|
            0 <= i < words(pattern).len() ==> lower_words(merged(query, pattern)).contains(
                lowercase(#[trigger] words(pattern)[i]),
            ),
{
    law_merged_words(query, pattern);
    let fresh = |w: Seq<char>| !lower_words(query).contains(lowercase(w));
    lemma_filter_members(words(pattern), fresh);
    let added = new_words(query, pattern);
    let lower = lower_words(merged(query, pattern));
    assert forall|i: int| 0 <= i < words(pattern).len() implies lower.contains(
        lowercase(#[trigger] words(pattern)[i]),
    ) by {
        let w = words(pattern)[i];
        if fresh(w) {
            assert(added.contains(w));
            let j = choose|j: int| 0 <= j < added.len() && added[j] == w;
            assert(lower[words(query).len() + j] == lowercase(w));
        } else {
            let j = choose|j: int|
                0 <= j < lower_words(query).len() && lower_words(query)[j] == lowercase(w);
            assert(lower[j] == lower_words(query)[j]);
        }
    }
}

/// Merging the same pattern a second time changes nothing.
pub proof fn law_merge_is_idempotent(query: Seq<char>, pattern: Seq<char>)
    ensures
        merged(merged(query, pattern), pattern) == merged(query, pattern),
{
    let once = merged(query, pattern);
    law_merge_covers_pattern(query, pattern);
    let fresh = |w: Seq<char>| !lower_words(once).contains(lowercase(w));
    lemma_filter_members(words(pattern), fresh);
    if new_words(once, pattern).len() > 0 {
        let w = new_words(once, pattern)[0];
        assert(words(pattern).contains(w));
        let j = choose|j: int| 0 <= j < words(pattern).len() && words(pattern)[j] == w;
        assert(lower_words(once).contains(lowercase(words(pattern)[j])));
        assert(false);
    }
}

/// The text that is searched for by meaning: the query, with what a text
/// pattern adds to it.
pub fn semantic_query(query: &str, text_pattern: Option<&str>) -> (r: String)
    ensures
        r@ == match text_pattern {
            Some(pattern) => merged(query@, semantic_text(pattern@)),
            None => query@,
        },
{
    match text_pattern {
        Some(pattern) => {
            let sanitized: String = strip_regex_for_semantic(pattern);
            merge_query_with_pattern(query, sanitized.as_str())
        },
        None => query.to_owned(),
    }
}

// ---------------------------------------------------------------------------
// Laws of single characters
// ---------------------------------------------------------------------------

/// Text in front in which no character means anything in a regular expression is
/// kept character by character.
pub proof fn law_text_in_front_is_kept(front: Seq<char>, rest: Seq<char>)
    requires
        forall|i: int|
            0 <= i < front.len() ==> {
                let x = #[trigger] front[i];
                x != '\\' && x != '[' && x != '{' && x != '|' && x != '*' && x != '+' && x != '?'
                    && x != '^' && x != '$' && x != '(' && x != ')' && x != '.'
            },
    ensures
        literal_text(front + rest) == front + literal_text(rest),
{
    assert forall|i: int| 0 <= i < front.len() implies plain_char(#[trigger] front[i]) by {}
    law_plain_front_is_kept(front, rest);
}

/// Behind text, a class of characters, a word boundary or a control character
/// separates words and leaves nothing of itself.
pub proof fn law_escaped_class_separates(front: Seq<char>, c: char, rest: Seq<char>)
    requires
        forall|i: int|
            0 <= i < front.len() ==> {
                let x = #[trigger] front[i];
                x != '\\' && x != '[' && x != '{' && x != '|' && x != '*' && x != '+' && x != '?'
                    && x != '^' && x != '$' && x != '(' && x != ')' && x != '.'
            },
        c == 's' || c == 'S' || c == 'w' || c == 'W' || c == 'd' || c == 'D' || c == 'b' || c == 'B'
            || c == 'n' || c == 'r' || c == 't',
    ensures
        words(literal_text(front + seq!['\\', c] + rest)) == words(front) + words(
            literal_text(rest),
        ),
{
    let tail = seq!['\\', c] + rest;
    assert(front + seq!['\\', c] + rest =~= front + tail);
    law_text_in_front_is_kept(front, tail);
    assert(tail[0] == '\\' && tail[1] == c);
    assert(tail.skip(2) =~= rest);
    let shown = seq![' '] + literal_text(rest);
    assert(literal_text(tail) == shown);
    lemma_words_of_parts(front, shown);
    lemma_words_behind_space(literal_text(rest));
}

/// Behind text, any other character behind a backslash stands for itself.
pub proof fn law_escaped_literal_is_kept(front: Seq<char>, c: char, rest: Seq<char>)
    requires
        forall|i: int|
            0 <= i < front.len() ==> {
                let x = #[trigger] front[i];
                x != '\\' && x != '[' && x != '{' && x != '|' && x != '*' && x != '+' && x != '?'
                    && x != '^' && x != '$' && x != '(' && x != ')' && x != '.'
            },
        c != 's' && c != 'S' && c != 'w' && c != 'W' && c != 'd' && c != 'D' && c != 'b' && c != 'B'
            && c != 'n' && c != 'r' && c != 't',
    ensures
        literal_text(front + seq!['\\', c] + rest) == front + seq![c] + literal_text(rest),
        literal_text(front + seq!['\\']) == front,
{
    let tail = seq!['\\', c] + rest;
    assert(front + seq!['\\', c] + rest =~= front + tail);
    law_text_in_front_is_kept(front, tail);
    assert(tail[0] == '\\' && tail[1] == c);
    assert(tail.skip(2) =~= rest);
    assert(front + (seq![c] + literal_text(rest)) =~= front + seq![c] + literal_text(rest));
    law_text_in_front_is_kept(front, seq!['\\']);
    assert(literal_text(seq!['\\']) =~= Seq::<char>::empty());
    assert(front + Seq::<char>::empty() =~= front);
}

/// Behind text, quantifiers, anchors, parentheses and the dot leave nothing and
/// separate nothing.
pub proof fn law_quantifier_anchor_group_and_dot_vanish(
    front: Seq<char>,
    c: char,
    rest: Seq<char>,
)
    requires
        forall|i: int|
            0 <= i < front.len() ==> {
                let x = #[trigger] front[i];
                x != '\\' && x != '[' && x != '{' && x != '|' && x != '*' && x != '+' && x != '?'
                    && x != '^' && x != '$' && x != '(' && x != ')' && x != '.'
            },
        c == '*' || c == '+' || c == '?' || c == '^' || c == '$' || c == '(' || c == ')' || c
            == '.',
    ensures
        literal_text(front + seq![c] + rest) == front + literal_text(rest),
{
    let tail = seq![c] + rest;
    assert(front + seq![c] + rest =~= front + tail);
    law_text_in_front_is_kept(front, tail);
    assert(tail[0] == c);
    assert(tail.skip(1) =~= rest);
}

/// Behind text, an alternation separates words and leaves nothing of itself.
pub proof fn law_alternatives_are_words(front: Seq<char>, rest: Seq<char>)
    requires
        forall|i: int|
            0 <= i < front.len() ==> {
                let x = #[trigger] front[i];
                x != '\\' && x != '[' && x != '{' && x != '|' && x != '*' && x != '+' && x != '?'
                    && x != '^' && x != '$' && x != '(' && x != ')' && x != '.'
            },
    ensures
        words(literal_text(front + seq!['|'] + rest)) == words(front) + words(literal_text(rest)),
{
    assert forall|i: int| 0 <= i < front.len() implies plain_char(#[trigger] front[i]) by {}
    law_alternation_separates(front, rest);
}

/// A character class vanishes element by element: a plain character and an
/// escaped one change nothing of what it leaves, and the bracket that closes it
/// ends it. One that is never closed reaches to the end.
pub proof fn law_class_vanishes_by_elements(front: Seq<char>, c: char, rest: Seq<char>)
    requires
        forall|i: int|
            0 <= i < front.len() ==> {
                let x = #[trigger] front[i];
                x != '\\' && x != '[' && x != '{' && x != '|' && x != '*' && x != '+' && x != '?'
                    && x != '^' && x != '$' && x != '(' && x != ')' && x != '.'
            },
    ensures
        c != '[' && c != ']' && c != '\\' ==> literal_text(front + seq!['[', c] + rest)
            == literal_text(front + seq!['['] + rest),
        literal_text(front + seq!['[', '\\', c] + rest) == literal_text(
            front + seq!['['] + rest,
        ),
        literal_text(front + seq!['[', ']'] + rest) == front + literal_text(rest),
        literal_text(front + seq!['[']) == front,
        literal_text(front + seq!['[', '\\']) == front,
{
    let open = seq!['['] + rest;
    let one = seq!['[', c] + rest;
    let two = seq!['[', '\\', c] + rest;
    let shut = seq!['[', ']'] + rest;
    assert(front + seq!['['] + rest =~= front + open);
    assert(front + seq!['[', c] + rest =~= front + one);
    assert(front + seq!['[', '\\', c] + rest =~= front + two);
    assert(front + seq!['[', ']'] + rest =~= front + shut);
    law_text_in_front_is_kept(front, open);
    law_text_in_front_is_kept(front, one);
    law_text_in_front_is_kept(front, two);
    law_text_in_front_is_kept(front, shut);
    law_text_in_front_is_kept(front, seq!['[']);
    law_text_in_front_is_kept(front, seq!['[', '\\']);
    assert(open.skip(1) =~= rest);
    let tail = seq![c] + rest;
    assert(one.skip(1) =~= tail && tail[0] == c);
    assert(tail.skip(1) =~= rest);
    let hidden = seq!['\\', c] + rest;
    assert(two.skip(1) =~= hidden && hidden[0] == '\\');
    assert(hidden.skip(2) =~= rest);
    let closing = seq![']'] + rest;
    assert(shut.skip(1) =~= closing && closing[0] == ']');
    assert(closing.skip(1) =~= rest);
    let none = Seq::<char>::empty();
    assert(seq!['['].skip(1) =~= none);
    assert(after_class(none, 1) =~= none);
    assert(literal_text(none) =~= none);
    assert(seq!['[', '\\'].skip(1) =~= seq!['\\']);
    assert(after_class(seq!['\\'], 1) =~= none);
    assert(front + none =~= front);
}

/// Brackets inside a class are closed one after the other: what stands behind
/// several open ones stands behind the last of them, then behind the others.
pub proof fn law_nested_brackets_close_in_turn(p: Seq<char>, open_brackets: nat)
    requires
        open_brackets >= 1,
    ensures
        after_class(p, open_brackets + 1) == after_class(after_class(p, 1), open_brackets),
    decreases p.len(),
{
    if p.len() > 0 {
        if p[0] == '\\' {
            if p.len() > 1 {
                law_nested_brackets_close_in_turn(p.skip(2), open_brackets);
            }
        } else if p[0] == '[' {
            let rest = p.skip(1);
            law_nested_brackets_close_in_turn(rest, open_brackets + 1);
            law_nested_brackets_close_in_turn(rest, 1);
            lemma_after_class_is_shorter(rest, 1);
            if after_class(rest, 1).len() < p.len() {
                law_nested_brackets_close_in_turn(after_class(rest, 1), open_brackets);
            }
        } else if p[0] != ']' {
            law_nested_brackets_close_in_turn(p.skip(1), open_brackets);
        }
    }
}

/// A bracket inside a class opens a class inside it, which vanishes first.
pub proof fn law_class_inside_a_class_vanishes(front: Seq<char>, rest: Seq<char>)
    requires
        forall|i: int|
            0 <= i < front.len() ==> {
                let x = #[trigger] front[i];
                x != '\\' && x != '[' && x != '{' && x != '|' && x != '*' && x != '+' && x != '?'
                    && x != '^' && x != '$' && x != '(' && x != ')' && x != '.'
            },
    ensures
        literal_text(front + seq!['[', '['] + rest) == front + literal_text(
            after_class(after_class(rest, 1), 1),
        ),
        literal_text(front + seq!['['] + rest) == front + literal_text(after_class(rest, 1)),
{
    let open = seq!['[', '['] + rest;
    let single = seq!['['] + rest;
    assert(front + seq!['[', '['] + rest =~= front + open);
    assert(front + seq!['['] + rest =~= front + single);
    law_text_in_front_is_kept(front, open);
    law_text_in_front_is_kept(front, single);
    assert(single.skip(1) =~= rest);
    assert(open.skip(1) =~= single && single[0] == '[');
    law_nested_brackets_close_in_turn(rest, 1);
}

/// A repetition count vanishes up to the brace that closes it, and to the end
/// where none does.
pub proof fn law_count_vanishes(front: Seq<char>, body: Seq<char>, rest: Seq<char>)
    requires
        forall|i: int|
            0 <= i < front.len() ==> {
                let x = #[trigger] front[i];
                x != '\\' && x != '[' && x != '{' && x != '|' && x != '*' && x != '+' && x != '?'
                    && x != '^' && x != '$' && x != '(' && x != ')' && x != '.'
            },
        forall|i: int| 0 <= i < body.len() ==> #[trigger] body[i] != '}',
    ensures
        literal_text(front + seq!['{'] + body + seq!['}'] + rest) == front + literal_text(rest),
        literal_text(front + seq!['{'] + body) == front,
{
    assert forall|i: int| 0 <= i < front.len() implies plain_char(#[trigger] front[i]) by {}
    law_repetition_leaves_nothing(front, body, rest);
    let open = seq!['{'] + body;
    assert(front + seq!['{'] + body =~= front + open);
    law_text_in_front_is_kept(front, open);
    assert(open.skip(1) =~= body);
    lemma_unclosed_brace(body);
    assert(literal_text(Seq::<char>::empty()) =~= Seq::<char>::empty());
    assert(front + Seq::<char>::empty() =~= front);
}

/// Without a closing brace nothing is left.
proof fn lemma_unclosed_brace(body: Seq<char>)
    requires
        forall|i: int| 0 <= i < body.len() ==> #[trigger] body[i] != '}',
    ensures
        after_brace(body) == Seq::<char>::empty(),
    decreases body.len(),
{
    if body.len() > 0 {
        let tail = body.skip(1);
        assert forall|i: int| 0 <= i < tail.len() implies #[trigger] tail[i] != '}' by {
            assert(tail[i] == body[i + 1]);
        }
        assert(body[0] != '}');
        lemma_unclosed_brace(tail);
    } else {
        assert(body =~= Seq::<char>::empty());
    }
}

/// Nothing is left of nothing, and what is left of a pattern is its words with
/// single spaces between them.
pub proof fn law_semantic_text(p: Seq<char>)
    ensures
        literal_text(Seq::<char>::empty()) == Seq::<char>::empty(),
        semantic_text(p) == joined(words(literal_text(p)), seq![' ']),
{
}

/// A merged query is the query, followed, if the pattern has any, by those of its
/// words that are no word of the query in lower case, in their order, with
/// single spaces in front of each.
pub proof fn law_merge(query: Seq<char>, pattern: Seq<char>)
    ensures
        ({
            let added = words(pattern).filter(
                |w: Seq<char>|
                    forall|k: int|
                        0 <= k < words(query).len() ==> lowercase(#[trigger] words(query)[k])
                            != lowercase(w),
            );
            &&& words(merged(query, pattern)) == words(query) + added
            &&& added.len() == 0 ==> merged(query, pattern) == query
            &&& added.len() > 0 ==> merged(query, pattern) == query + seq![' '] + joined(
                added,
                seq![' '],
            )
        }),
{
    let known = |w: Seq<char>| !lower_words(query).contains(lowercase(w));
    let fresh = |w: Seq<char>|
        forall|k: int|
            0 <= k < words(query).len() ==> lowercase(#[trigger] words(query)[k]) != lowercase(w);
    assert forall|w: Seq<char>| #[trigger] known(w) == fresh(w) by {
        if !known(w) {
            let k = choose|k: int|
                0 <= k < lower_words(query).len() && lower_words(query)[k] == lowercase(w);
            assert(lowercase(words(query)[k]) == lowercase(w));
        }
        if !fresh(w) {
            let k = choose|k: int|
                0 <= k < words(query).len() && lowercase(#[trigger] words(query)[k]) == lowercase(w);
            assert(lower_words(query)[k] == lowercase(w));
        }
    }
    assert(known =~= fresh);
    law_merged_words(query, pattern);
}

} // verus!
