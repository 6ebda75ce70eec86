//! Texts as sequences of characters: words, lines, substrings, joining and
//! lower case.

use vstd::prelude::*;

verus! {

/// `String::push`: appends the character to the end of the text.
pub assume_specification[ String::push ](s: &mut String, c: char)
    ensures
        final(s)@ == old(s)@.push(c),
;

/// What `char::is_whitespace` answers outside ASCII: the Unicode property
/// `White_Space`.
pub uninterp spec fn unicode_whitespace(c: char) -> bool;

/// Whether a character is whitespace. In ASCII these are the space and the
/// characters from the tab to the carriage return.
pub open spec fn whitespace(c: char) -> bool {
    if (c as u32) < 128 {
        c == ' ' || ('\t' <= c && c <= '\r')
    } else {
        unicode_whitespace(c)
    }
}

/// `char::is_whitespace`: spelled out for ASCII, named for the rest of Unicode.
pub assume_specification[ char::is_whitespace ](c: char) -> (b: bool)
    ensures
        (c as u32) < 128 ==> b == (c == ' ' || ('\t' <= c && c <= '\r')),
        (c as u32) >= 128 ==> b == unicode_whitespace(c),
;

/// What `char::is_alphanumeric` answers outside ASCII: the Unicode properties
/// `Alphabetic` and `Numeric`.
pub uninterp spec fn unicode_alphanumeric(c: char) -> bool;

/// Whether a character is a letter or a digit.
pub open spec fn alphanumeric(c: char) -> bool {
    if (c as u32) < 128 {
        ('a' <= c && c <= 'z') || ('A' <= c && c <= 'Z') || ('0' <= c && c <= '9')
    } else {
        unicode_alphanumeric(c)
    }
}

/// `char::is_alphanumeric`: spelled out for ASCII, named for the rest of
/// Unicode.
pub assume_specification[ char::is_alphanumeric ](c: char) -> (b: bool)
    ensures
        (c as u32) < 128 ==> b == (('a' <= c && c <= 'z') || ('A' <= c && c <= 'Z') || ('0' <= c
            && c <= '9')),
        (c as u32) >= 128 ==> b == unicode_alphanumeric(c),
;

/// Whether every character of a text is ASCII.
pub open spec fn all_ascii(s: Seq<char>) -> bool {
    forall|i: int| 0 <= i < s.len() ==> (#[trigger] s[i] as u32) < 128
}

/// The lower case of an ASCII character; other characters stay.
pub open spec fn ascii_lower(c: char) -> char {
    if 'A' <= c && c <= 'Z' {
        (c as u32 + 32) as char
    } else {
        c
    }
}

/// What `str::to_lowercase` returns for a text that is not all ASCII.
pub uninterp spec fn unicode_lowercase(s: Seq<char>) -> Seq<char>;

/// The lower case of a text.
pub open spec fn lowercase(s: Seq<char>) -> Seq<char> {
    if all_ascii(s) {
        s.map_values(|c: char| ascii_lower(c))
    } else {
        unicode_lowercase(s)
    }
}

/// `str::to_lowercase`: letter by letter on an ASCII text, named for other
/// texts.
pub assume_specification[ str::to_lowercase ](s: &str) -> (r: String)
    ensures
        all_ascii(s@) ==> r@ == s@.map_values(|c: char| ascii_lower(c)),
        !all_ascii(s@) ==> r@ == unicode_lowercase(s@),
;

/// The contents of a list of texts.
pub open spec fn texts(v: Seq<String>) -> Seq<Seq<char>> {
    v.map_values(|s: String| s@)
}

/// The characters of a text, in order.
pub fn chars_of(s: &str) -> (r: Vec<char>)
    ensures
        r@ == s@,
{
    let mut r: Vec<char> = Vec::new();
    for c in it: s.chars()
        invariant
            it.seq() == s@,
            r@ == s@.take(it.index()),
    {
        assert(s@.take(it.index()).push(c) =~= s@.take(it.index() + 1));
        r.push(c);
    }
    assert(s@.take(s@.len() as int) =~= s@);
    r
}

/// Whether two texts hold the same characters.
pub fn same_text(a: &str, b: &str) -> (r: bool)
    ensures
        r == (a@ == b@),
{
    a.to_owned() == b.to_owned()
}

/// Whether a list of texts holds a text.
pub fn holds_text(v: &Vec<String>, t: &str) -> (r: bool)
    ensures
        r == texts(v@).contains(t@),
{
    let mut i: usize = 0;
    while i < v.len()
        invariant
            i <= v.len(),
            forall|j: int| 0 <= j < i ==> texts(v@)[j] != t@,
        decreases v.len() - i,
    {
        if same_text(v[i].as_str(), t) {
            assert(texts(v@)[i as int] == t@);
            return true;
        }
        i = i + 1;
    }
    false
}

// ---------------------------------------------------------------------------
// Words
// ---------------------------------------------------------------------------

/// The words of a text: its longest runs of characters that are not
/// whitespace, in order.
pub open spec fn words(s: Seq<char>) -> Seq<Seq<char>>
    decreases s.len(),
{
    if s.len() == 0 {
        Seq::empty()
    } else {
        let before = words(s.drop_last());
        let c = s.last();
        if whitespace(c) {
            before
        } else if s.len() == 1 || whitespace(s[s.len() - 2]) {
            before.push(seq![c])
        } else {
            before.drop_last().push(before.last().push(c))
        }
    }
}

/// Whether a text is one word: not empty, and free of whitespace.
pub open spec fn is_word(w: Seq<char>) -> bool {
    &&& w.len() > 0
    &&& forall|i: int| 0 <= i < w.len() ==> !whitespace(#[trigger] w[i])
}

/// A text that ends in a character of a word has a word.
proof fn lemma_words_not_empty(s: Seq<char>)
    requires
        s.len() > 0,
        !whitespace(s.last()),
    ensures
        words(s).len() > 0,
{
}

/// The words of two texts side by side are the words of each, where one of the
/// two ends that touch is whitespace or missing.
pub proof fn lemma_words_of_parts(a: Seq<char>, b: Seq<char>)
    requires
        a.len() == 0 || b.len() == 0 || whitespace(a.last()) || whitespace(b[0]),
    ensures
        words(a + b) == words(a) + words(b),
    decreases b.len(),
{
    if b.len() == 0 {
        assert(a + b =~= a);
        assert(words(a) + words(b) =~= words(a));
    } else {
        let front = b.drop_last();
        assert((a + b).drop_last() =~= a + front);
        lemma_words_of_parts(a, front);
        assert((a + b).last() == b.last());
        if b.len() == 1 {
            assert(words(front) =~= Seq::<Seq<char>>::empty());
            if a.len() > 0 {
                assert((a + b)[(a + b).len() - 2] == a.last());
            }
            assert(words(a + b) =~= words(a) + words(b));
        } else {
            assert((a + b)[(a + b).len() - 2] == b[b.len() - 2]);
            if !whitespace(b.last()) && !whitespace(b[b.len() - 2]) {
                lemma_words_not_empty(front);
                let w = words(a) + words(front);
                assert(w.last() == words(front).last());
                assert(w.drop_last() =~= words(a) + words(front).drop_last());
            }
            assert(words(a + b) =~= words(a) + words(b));
        }
    }
}

/// Every word of a text is a word.
pub proof fn lemma_words_are_words(s: Seq<char>)
    ensures
        forall|i: int| 0 <= i < words(s).len() ==> is_word(#[trigger] words(s)[i]),
    decreases s.len(),
{
    if s.len() > 0 {
        let before = words(s.drop_last());
        lemma_words_are_words(s.drop_last());
        if !whitespace(s.last()) && s.len() > 1 && !whitespace(s[s.len() - 2]) {
            lemma_words_not_empty(s.drop_last());
            assert(is_word(before[before.len() - 1]));
            assert(is_word(before.last().push(s.last())));
        }
    }
}

/// A text that is one word has itself as its only word.
pub proof fn lemma_word_of_word(w: Seq<char>)
    requires
        is_word(w),
    ensures
        words(w) == seq![w],
    decreases w.len(),
{
    let front = w.drop_last();
    assert(!whitespace(w[w.len() - 1]));
    if w.len() == 1 {
        assert(words(front) =~= Seq::<Seq<char>>::empty());
        assert(w =~= seq![w.last()]);
        assert(words(w) =~= seq![w]);
    } else {
        lemma_word_of_word(front);
        assert(!whitespace(w[w.len() - 2]));
        assert(front.push(w.last()) =~= w);
        assert(words(w) =~= seq![w]);
    }
}

/// The words of a text, in order.
pub fn split_words(s: &str) -> (r: Vec<String>)
    ensures
        texts(r@) == words(s@),
{
    split_chars(&chars_of(s))
}

/// The words of a text that is given by its characters, in order.
pub fn split_chars(chars: &Vec<char>) -> (r: Vec<String>)
    ensures
        texts(r@) == words(chars@),
{
    let mut r: Vec<String> = Vec::new();
    let mut word: String = String::new();
    let mut i: usize = 0;
    assert(chars@.take(0) =~= Seq::<char>::empty());
    assert(texts(r@) =~= Seq::<Seq<char>>::empty());
    while i < chars.len()
        invariant
            i <= chars.len(),
            word@.len() > 0 <==> i > 0 && !whitespace(chars@[i - 1]),
            word@.len() == 0 ==> texts(r@) == words(chars@.take(i as int)),
            word@.len() > 0 ==> texts(r@).push(word@) == words(chars@.take(i as int)),
        decreases chars.len() - i,
    {
        let c: char = chars[i];
        let ghost seen = chars@.take(i as int);
        proof {
            assert(chars@.take(i + 1).drop_last() =~= seen);
            assert(chars@.take(i + 1).last() == c);
            if i > 0 {
                assert(chars@.take(i + 1)[i - 1] == chars@[i - 1]);
            }
        }
        if c.is_whitespace() {
            if !word.as_str().is_empty() {
                let ghost old_r = r@;
                r.push(word);
                assert(texts(r@) =~= texts(old_r).push(word@));
                word = String::new();
            }
        } else {
            let ghost old_word = word@;
            word.push(c);
            proof {
                if old_word.len() > 0 {
                    let all = texts(r@).push(old_word);
                    assert(all.drop_last() =~= texts(r@));
                    assert(all.last() == old_word);
                } else {
                    assert(word@ =~= seq![c]);
                }
            }
        }
        i = i + 1;
    }
    assert(chars@.take(chars@.len() as int) =~= chars@);
    if !word.as_str().is_empty() {
        let ghost old_r = r@;
        r.push(word);
        assert(texts(r@) =~= texts(old_r).push(word@));
    }
    r
}

// ---------------------------------------------------------------------------
// Lines
// ---------------------------------------------------------------------------

/// How many characters stand in front of the first line feed, or in the whole
/// text if there is none.
pub open spec fn line_length(s: Seq<char>) -> nat
    decreases s.len(),
{
    if s.len() == 0 || s[0] == '\n' {
        0
    } else {
        1 + line_length(s.skip(1))
    }
}

pub proof fn lemma_line_length_bound(s: Seq<char>)
    ensures
        line_length(s) <= s.len(),
    decreases s.len(),
{
    if s.len() > 0 && s[0] != '\n' {
        lemma_line_length_bound(s.skip(1));
    }
}

/// A line without the carriage return at its end.
pub open spec fn without_return(line: Seq<char>) -> Seq<char> {
    if line.len() > 0 && line.last() == '\r' {
        line.drop_last()
    } else {
        line
    }
}

/// The lines of a text. A line ends at a line feed, or at a carriage return and
/// a line feed; the last line may do without.
pub open spec fn lines(s: Seq<char>) -> Seq<Seq<char>>
    decreases s.len(),
{
    if s.len() == 0 {
        Seq::empty()
    } else if line_length(s) >= s.len() {
        seq![s]
    } else {
        seq![without_return(s.take(line_length(s) as int))] + lines(
            s.skip(line_length(s) as int + 1),
        )
    }
}

/// The characters from one position up to another, as a text.
pub fn text_between(chars: &Vec<char>, from: usize, to: usize) -> (r: String)
    requires
        from <= to <= chars.len(),
    ensures
        r@ == chars@.subrange(from as int, to as int),
{
    let mut r: String = String::new();
    let mut i: usize = from;
    assert(chars@.subrange(from as int, from as int) =~= Seq::<char>::empty());
    while i < to
        invariant
            from <= i <= to <= chars.len(),
            r@ == chars@.subrange(from as int, i as int),
        decreases to - i,
    {
        r.push(chars[i]);
        i = i + 1;
        assert(chars@.subrange(from as int, i as int) =~= chars@.subrange(
            from as int,
            i - 1,
        ).push(chars@[i - 1]));
    }
    r
}

/// The position of the first line feed at or behind a position, or the end.
fn find_line_feed(chars: &Vec<char>, from: usize) -> (r: usize)
    requires
        from <= chars.len(),
    ensures
        from <= r <= chars.len(),
        r - from == line_length(chars@.skip(from as int)),
{
    let mut i: usize = from;
    while i < chars.len()
        invariant
            from <= i <= chars.len(),
            (i - from) + line_length(chars@.skip(i as int)) == line_length(
                chars@.skip(from as int),
            ),
        decreases chars.len() - i,
    {
        assert(chars@.skip(i as int)[0] == chars@[i as int]);
        assert(chars@.skip(i as int).skip(1) =~= chars@.skip(i + 1));
        if chars[i] == '\n' {
            return i;
        }
        i = i + 1;
    }
    i
}

/// The lines of a text, in order.
pub fn split_lines(s: &str) -> (r: Vec<String>)
    ensures
        texts(r@) == lines(s@),
{
    let chars: Vec<char> = chars_of(s);
    let mut r: Vec<String> = Vec::new();
    let mut i: usize = 0;
    assert(chars@.skip(0) =~= chars@);
    assert(texts(r@) + lines(chars@.skip(0)) =~= lines(chars@));
    while i < chars.len()
        invariant
            i <= chars.len(),
            texts(r@) + lines(chars@.skip(i as int)) == lines(chars@),
        decreases chars.len() - i,
    {
        let end: usize = find_line_feed(&chars, i);
        let ghost todo = chars@.skip(i as int);
        let ghost before = r@;
        if end >= chars.len() {
            let line: String = text_between(&chars, i, end);
            r.push(line);
            proof {
                assert(line@ =~= todo);
                assert(texts(r@) =~= texts(before) + seq![todo]);
                assert(chars@.skip(end as int) =~= Seq::<char>::empty());
                assert(texts(r@) + lines(chars@.skip(end as int)) =~= texts(r@));
            }
            i = end;
        } else {
            assert(todo.take(end - i) =~= chars@.subrange(i as int, end as int));
            let mut stop: usize = end;
            if end > i && chars[end - 1] == '\r' {
                stop = end - 1;
            }
            let line: String = text_between(&chars, i, stop);
            r.push(line);
            proof {
                assert(line@ =~= without_return(todo.take(end - i)));
                assert(todo.skip(end - i + 1) =~= chars@.skip(end + 1));
                assert(texts(r@) =~= texts(before) + seq![line@]);
                assert(texts(r@) + lines(chars@.skip(end + 1)) =~= texts(before) + (seq![line@]
                    + lines(chars@.skip(end + 1))));
            }
            i = end + 1;
        }
    }
    assert(chars@.skip(i as int) =~= Seq::<char>::empty());
    assert(texts(r@) + lines(chars@.skip(i as int)) =~= texts(r@));
    r
}

// ---------------------------------------------------------------------------
// Substrings
// ---------------------------------------------------------------------------

/// Whether a text stands in another at a given position.
pub open spec fn occurs_at(part: Seq<char>, s: Seq<char>, i: int) -> bool {
    &&& 0 <= i
    &&& i + part.len() <= s.len()
    &&& s.subrange(i, i + part.len()) == part
}

/// Whether a text stands somewhere in another.
pub open spec fn occurs_in(part: Seq<char>, s: Seq<char>) -> bool {
    exists|i: int| occurs_at(part, s, i)
}

/// Whether a text stands somewhere in another.
pub fn contains_text(s: &str, part: &str) -> (r: bool)
    ensures
        r == occurs_in(part@, s@),
{
    let chars: Vec<char> = chars_of(s);
    let wanted: Vec<char> = chars_of(part);
    if wanted.len() > chars.len() {
        return false;
    }
    let limit: usize = chars.len() - wanted.len();
    let mut i: usize = 0;
    loop
        invariant
            chars@ == s@,
            wanted@ == part@,
            wanted.len() <= chars.len(),
            limit == chars.len() - wanted.len(),
            i <= limit,
            forall|j: int| 0 <= j < i ==> !occurs_at(part@, s@, j),
        decreases limit - i,
    {
        let mut k: usize = 0;
        while k < wanted.len() && chars[i + k] == wanted[k]
            invariant
                wanted.len() <= chars.len(),
                limit == chars.len() - wanted.len(),
                i <= limit,
                k <= wanted.len(),
                forall|j: int| 0 <= j < k ==> chars@[i + j] == wanted@[j],
            decreases wanted.len() - k,
        {
            k = k + 1;
        }
        if k == wanted.len() {
            assert(s@.subrange(i as int, i + part@.len()) =~= part@);
            assert(occurs_at(part@, s@, i as int));
            return true;
        }
        proof {
            if occurs_at(part@, s@, i as int) {
                assert(s@.subrange(i as int, i + part@.len())[k as int] == part@[k as int]);
                assert(false);
            }
        }
        if i == limit {
            assert forall|j: int| !occurs_at(part@, s@, j) by {
                if j > limit {
                    assert(j + part@.len() > s@.len());
                }
            }
            return false;
        }
        i = i + 1;
    }
}

// ---------------------------------------------------------------------------
// Joining
// ---------------------------------------------------------------------------

/// Texts one after the other, with a separator between neighbours.
pub open spec fn joined(parts: Seq<Seq<char>>, sep: Seq<char>) -> Seq<char>
    decreases parts.len(),
{
    if parts.len() == 0 {
        Seq::empty()
    } else if parts.len() == 1 {
        parts[0]
    } else {
        joined(parts.drop_last(), sep) + sep + parts.last()
    }
}

/// Joins texts with a separator.
pub fn join_texts(parts: &Vec<String>, sep: &str) -> (r: String)
    ensures
        r@ == joined(texts(parts@), sep@),
{
    let mut r: String = String::new();
    let mut i: usize = 0;
    let ghost all = texts(parts@);
    assert(all.take(0) =~= Seq::<Seq<char>>::empty());
    while i < parts.len()
        invariant
            i <= parts.len(),
            all == texts(parts@),
            r@ == joined(all.take(i as int), sep@),
        decreases parts.len() - i,
    {
        let ghost before = r@;
        assert(all.take(i + 1).drop_last() =~= all.take(i as int));
        assert(all.take(i + 1).last() == parts@[i as int]@);
        if i > 0 {
            r.append(sep);
            r.append(parts[i].as_str());
        } else {
            r.append(parts[i].as_str());
            assert(r@ =~= parts@[0]@);
        }
        i = i + 1;
    }
    assert(all.take(all.len() as int) =~= all);
    r
}

/// Words joined with single spaces split into the same words again.
pub proof fn lemma_words_of_joined(ws: Seq<Seq<char>>)
    requires
        forall|i: int| 0 <= i < ws.len() ==> is_word(#[trigger] ws[i]),
    ensures
        words(joined(ws, seq![' '])) == ws,
    decreases ws.len(),
{
    let sep = seq![' '];
    if ws.len() == 0 {
        assert(words(joined(ws, sep)) =~= ws);
    } else if ws.len() == 1 {
        lemma_word_of_word(ws[0]);
        assert(ws =~= seq![ws[0]]);
    } else {
        let front = ws.drop_last();
        assert forall|i: int| 0 <= i < front.len() implies is_word(#[trigger] front[i]) by {
            assert(front[i] == ws[i]);
        }
        lemma_words_of_joined(front);
        let start = joined(front, sep);
        assert((start + sep).last() == ' ');
        lemma_words_of_parts(start + sep, ws.last());
        lemma_words_of_parts(start, sep);
        assert(words(sep) =~= Seq::<Seq<char>>::empty()) by {
            assert(sep.drop_last() =~= Seq::<char>::empty());
            assert(words(sep.drop_last()) =~= Seq::<Seq<char>>::empty());
        }
        assert(is_word(ws[ws.len() - 1]));
        lemma_word_of_word(ws.last());
        assert(words(start + sep) =~= front);
        assert(front + seq![ws.last()] =~= ws);
    }
}

// ---------------------------------------------------------------------------
// Laws
// ---------------------------------------------------------------------------

/// In ASCII, whitespace is the space, the tab, the line feed, the vertical tab,
/// the form feed and the carriage return; elsewhere Unicode decides.
pub proof fn law_whitespace(c: char)
    ensures
        (c as u32) < 128 ==> (whitespace(c) <==> c == ' ' || c == '\t' || c == '\n' || c == '\u{b}'
            || c == '\u{c}' || c == '\r'),
        (c as u32) >= 128 ==> whitespace(c) == unicode_whitespace(c),
{
}

/// In ASCII, a character is alphanumeric if it is a letter or a digit; elsewhere
/// Unicode decides.
pub proof fn law_alphanumeric(c: char)
    ensures
        (c as u32) < 128 ==> (alphanumeric(c) <==> 'a' <= c <= 'z' || 'A' <= c <= 'Z' || '0' <= c
            <= '9'),
        (c as u32) >= 128 ==> alphanumeric(c) == unicode_alphanumeric(c),
{
}

/// In a text of ASCII characters, lower case changes the capital letters, each
/// to the letter that is thirty-two code points behind it, and nothing else.
pub proof fn law_lowercase(s: Seq<char>)
    ensures
        (forall|i: int| 0 <= i < s.len() ==> (#[trigger] s[i] as u32) < 128) ==> lowercase(s).len()
            == s.len() && forall|i: int|
            0 <= i < s.len() ==> #[trigger] lowercase(s)[i] as int == if 'A' <= s[i] <= 'Z' {
                s[i] as int + 32
            } else {
                s[i] as int
            },
        (exists|i: int| 0 <= i < s.len() && (#[trigger] s[i] as u32) >= 128) ==> lowercase(s)
            == unicode_lowercase(s),
{
}

/// Nothing has no words; a text free of whitespace is one word; and whitespace
/// parts the words in front of it from those behind it.
pub proof fn law_words(a: Seq<char>, c: char, b: Seq<char>)
    requires
        whitespace(c),
    ensures
        words(Seq::<char>::empty()) == Seq::<Seq<char>>::empty(),
        a.len() > 0 && (forall|i: int| 0 <= i < a.len() ==> !whitespace(#[trigger] a[i])) ==> words(
            a,
        ) == seq![a],
        words(a + seq![c] + b) == words(a) + words(b),
{
    let space = seq![c];
    assert(space.drop_last() =~= Seq::<char>::empty());
    assert(words(space.drop_last()) =~= Seq::<Seq<char>>::empty());
    assert(words(space) =~= Seq::<Seq<char>>::empty());
    lemma_words_of_parts(a, space);
    lemma_words_of_parts(a + space, b);
    assert((a + space).last() == c);
    assert(words(a) + words(space) =~= words(a));
    if a.len() > 0 && (forall|i: int| 0 <= i < a.len() ==> !whitespace(#[trigger] a[i])) {
        lemma_word_of_word(a);
    }
}

/// The length of a line in front of a line feed.
proof fn lemma_line_length(line: Seq<char>, rest: Seq<char>)
    requires
        forall|i: int| 0 <= i < line.len() ==> #[trigger] line[i] != '\n',
    ensures
        line_length(line) == line.len(),
        line_length(line + seq!['\n'] + rest) == line.len(),
    decreases line.len(),
{
    let s = line + seq!['\n'] + rest;
    if line.len() == 0 {
        assert(s[0] == '\n');
    } else {
        assert(s[0] == line[0]);
        let tail = line.skip(1);
        assert forall|i: int| 0 <= i < tail.len() implies #[trigger] tail[i] != '\n' by {
            assert(tail[i] == line[i + 1]);
        }
        lemma_line_length(tail, rest);
        assert(s.skip(1) =~= tail + seq!['\n'] + rest);
    }
}

/// Nothing has no lines; a text without a line feed is one line, whatever it
/// ends with; and a line feed ends a line, of which a carriage return in front
/// of the line feed is no part.
pub proof fn law_lines(line: Seq<char>, rest: Seq<char>)
    requires
        forall|i: int| 0 <= i < line.len() ==> #[trigger] line[i] != '\n',
    ensures
        lines(Seq::<char>::empty()) == Seq::<Seq<char>>::empty(),
        line.len() > 0 ==> lines(line) == seq![line],
        line.len() > 0 && line.last() == '\r' ==> lines(line + seq!['\n'] + rest) == seq![
            line.drop_last(),
        ] + lines(rest),
        line.len() == 0 || line.last() != '\r' ==> lines(line + seq!['\n'] + rest) == seq![line]
            + lines(rest),
{
    let s = line + seq!['\n'] + rest;
    lemma_line_length(line, rest);
    assert(s.take(line.len() as int) =~= line);
    assert(s.skip(line.len() as int + 1) =~= rest);
}

/// A text occurs in every text that has it somewhere.
pub proof fn law_part_occurs(front: Seq<char>, part: Seq<char>, back: Seq<char>)
    ensures
        occurs_in(part, front + part + back),
{
    let s = front + part + back;
    assert(s.subrange(front.len() as int, front.len() as int + part.len()) =~= part);
    assert(occurs_at(part, s, front.len() as int));
}

/// Where a text occurs, it stands, character by character, from some position on.
pub proof fn law_occurrence_is_there(part: Seq<char>, s: Seq<char>) -> (at: int)
    requires
        occurs_in(part, s),
    ensures
        0 <= at,
        at + part.len() <= s.len(),
        forall|i: int| 0 <= i < part.len() ==> #[trigger] part[i] == s[at + i],
{
    let at = choose|i: int| occurs_at(part, s, i);
    assert forall|i: int| 0 <= i < part.len() implies #[trigger] part[i] == s[at + i] by {
        assert(s.subrange(at, at + part.len())[i] == s[at + i]);
    }
    at
}

/// Nothing is joined to nothing; one text alone stays as it is; and a text behind
/// others is separated from them once.
pub proof fn law_joined(parts: Seq<Seq<char>>, next: Seq<char>, sep: Seq<char>)
    ensures
        joined(Seq::<Seq<char>>::empty(), sep) == Seq::<char>::empty(),
        joined(seq![next], sep) == next,
        parts.len() > 0 ==> joined(parts.push(next), sep) == joined(parts, sep) + sep + next,
{
    assert(parts.push(next).drop_last() =~= parts);
}

/// The contents of a list of texts are the texts, one for one.
pub proof fn law_texts(v: Seq<String>)
    ensures
        texts(v).len() == v.len(),
        forall|i: int| 0 <= i < v.len() ==> #[trigger] texts(v)[i] == v[i]@,
{
}

} // verus!
