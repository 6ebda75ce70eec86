//! Matching the lines of a code unit against a pattern.

use vstd::prelude::*;

use crate::parts::FilePath;
use crate::text::{contains_text, lines, lowercase, occurs_in, split_lines, texts};

verus! {

// ---------------------------------------------------------------------------
// Regular expressions
// ---------------------------------------------------------------------------

/// A compiled regular expression of the `regex` crate.
#[verifier::external_type_specification]
#[verifier::external_body]
pub struct ExRegex(regex::Regex);

/// An error of the `regex` crate.
#[verifier::external_type_specification]
#[verifier::external_body]
pub struct ExRegexError(regex::Error);

/// The pattern that a regular expression was compiled from.
pub uninterp spec fn regex_source(re: regex::Regex) -> Seq<char>;

/// Whether a regular expression matches somewhere in a text.
pub uninterp spec fn regex_is_match(re: regex::Regex, text: Seq<char>) -> bool;

/// Whether a pattern compiles, with or without regard to letter case, within a
/// size limit in bytes. How many bytes a pattern takes depends on the number of
/// bits in a `usize`.
pub uninterp spec fn regex_compiles(
    pattern: Seq<char>,
    case_insensitive: bool,
    size_limit: nat,
    word_bits: nat,
) -> bool;

/// Whether a pattern, compiled with or without regard to letter case, matches
/// somewhere in a text.
pub uninterp spec fn regex_matches(
    pattern: Seq<char>,
    case_insensitive: bool,
    text: Seq<char>,
) -> bool;

/// `regex::RegexBuilder` with the letter case and the size limit set, and all
/// else as it is by default. What is compiled keeps its pattern and matches as
/// that pattern does.
#[verifier::external_body]
fn build_regex(pattern: &str, case_insensitive: bool, size_limit: usize) -> (r: Result<
    regex::Regex,
    regex::Error,
>)
    ensures
        r is Ok == regex_compiles(
            pattern@,
            case_insensitive,
            size_limit as nat,
            usize::BITS as nat,
        ),
        r matches Ok(re) ==> regex_source(re) == pattern@,
        r matches Ok(re) ==> forall|text: Seq<char>| #[trigger]
            regex_is_match(re, text) == regex_matches(pattern@, case_insensitive, text),
{
    regex::RegexBuilder::new(pattern).case_insensitive(case_insensitive).size_limit(size_limit).build()
}

/// `regex::Regex::is_match`: whether there is a match anywhere in the text.
pub assume_specification[ regex::Regex::is_match ](re: &regex::Regex, haystack: &str) -> (b: bool)
    ensures
        b == regex_is_match(*re, haystack@),
;

/// `regex::Regex::as_str`: the pattern that the expression was compiled from.
pub assume_specification[ regex::Regex::as_str ](re: &regex::Regex) -> (s: &str)
    ensures
        s@ == regex_source(*re),
;

/// The characters that mean something in a regular expression.
pub open spec fn regex_meta(c: char) -> bool {
    c == '\\' || c == '.' || c == '+' || c == '*' || c == '?' || c == '(' || c == ')' || c == '|'
        || c == '[' || c == ']' || c == '{' || c == '}' || c == '^' || c == '$' || c == '#' || c
        == '&' || c == '-' || c == '~'
}

/// A text with a backslash in front of every character that means something in
/// a regular expression.
pub open spec fn escaped(s: Seq<char>) -> Seq<char>
    decreases s.len(),
{
    if s.len() == 0 {
        Seq::empty()
    } else if regex_meta(s.last()) {
        escaped(s.drop_last()).push('\\').push(s.last())
    } else {
        escaped(s.drop_last()).push(s.last())
    }
}

/// `regex::escape`: puts a backslash in front of every metacharacter.
pub assume_specification[ regex::escape ](pattern: &str) -> (r: String)
    ensures
        r@ == escaped(pattern@),
;

// ---------------------------------------------------------------------------
// Code units
// ---------------------------------------------------------------------------

/// A unit of code, such as a function, or a document.
pub struct CodeUnit {
    /// The file that the unit stands in.
    pub file: FilePath,
    /// Its first line, counted from one.
    pub line: usize,
    /// Its last line.
    pub end_line: usize,
    /// Its text.
    pub code: String,
    /// Whether it is text or configuration, not code.
    pub text_format: bool,
}

impl CodeUnit {
    /// Whether the unit's lines can be counted.
    pub open spec fn lines_fit(self) -> bool {
        self.line + lines(self.code@).len() <= usize::MAX + 1
    }
}

/// The numbers of the lines that satisfy a condition, in order, where the first
/// line has a given number.
pub open spec fn matching_lines(
    ls: Seq<Seq<char>>,
    first: int,
    hit: spec_fn(Seq<char>) -> bool,
) -> Seq<int>
    decreases ls.len(),
{
    if ls.len() == 0 {
        Seq::empty()
    } else if hit(ls.last()) {
        matching_lines(ls.drop_last(), first, hit).push(first + ls.len() - 1)
    } else {
        matching_lines(ls.drop_last(), first, hit)
    }
}

/// A list of line numbers.
pub open spec fn numbers(v: Seq<usize>) -> Seq<int> {
    v.map_values(|n: usize| n as int)
}

/// The matching lines are exactly the lines that satisfy the condition, each
/// once and in order.
pub proof fn law_matching_lines(
    ls: Seq<Seq<char>>,
    first: int,
    hit: spec_fn(Seq<char>) -> bool,
)
    ensures
        forall|n: int| #[trigger]
            matching_lines(ls, first, hit).contains(n) <==> first <= n < first + ls.len() && hit(
                ls[n - first],
            ),
        forall|i: int, j: int|
            0 <= i < j < matching_lines(ls, first, hit).len() ==> #[trigger] matching_lines(
                ls,
                first,
                hit,
            )[i] < #[trigger] matching_lines(ls, first, hit)[j],
    decreases ls.len(),
{
    if ls.len() > 0 {
        let front = ls.drop_last();
        law_matching_lines(front, first, hit);
        let m = matching_lines(front, first, hit);
        let all = matching_lines(ls, first, hit);
        let last = first + ls.len() - 1;
        assert forall|i: int| 0 <= i < m.len() implies #[trigger] m[i] < last by {
            assert(m.contains(m[i]));
        }
        assert forall|n: int| #[trigger] all.contains(n) <==> first <= n < first + ls.len() && hit(
            ls[n - first],
        ) by {
            if all.contains(n) {
                let i = choose|i: int| 0 <= i < all.len() && all[i] == n;
                if i < m.len() {
                    assert(m[i] == n);
                    assert(m.contains(n));
                    assert(front[n - first] == ls[n - first]);
                }
            }
            if first <= n < first + ls.len() && hit(ls[n - first]) {
                if n == last {
                    assert(all[all.len() - 1] == n);
                } else {
                    assert(front[n - first] == ls[n - first]);
                    assert(m.contains(n));
                    let i = choose|i: int| 0 <= i < m.len() && m[i] == n;
                    assert(all[i] == n);
                }
            }
        }
    }
}

// ---------------------------------------------------------------------------
// Pattern matchers
// ---------------------------------------------------------------------------

/// The size limit of a compiled pattern, in bytes.
pub const REGEX_SIZE_LIMIT: usize = 10_485_760;

/// A pattern that is ready to be matched many times.
pub enum PatternMatcher {
    /// A regular expression.
    Regex(regex::Regex),
    /// A text in lower case that is looked for without regard to letter case.
    Literal(String),
}

/// Whether a line holds a text, given in lower case, without regard to letter
/// case.
pub open spec fn holds_ignoring_case(line: Seq<char>, lower: Seq<char>) -> bool {
    occurs_in(lower, lowercase(line))
}

/// A pattern between word boundaries.
pub open spec fn bounded(pattern: Seq<char>) -> Seq<char> {
    seq!['\\', 'b'] + pattern + seq!['\\', 'b']
}

/// The regular expression that a matcher is compiled from, if any. Fixed
/// strings need one only where whole words are wanted.
pub open spec fn matcher_regex(
    pattern: Seq<char>,
    ere_pattern: Seq<char>,
    extended_regexp: bool,
    fixed_strings: bool,
    word_regexp: bool,
) -> Option<Seq<char>> {
    if extended_regexp && !fixed_strings {
        if word_regexp {
            Some(bounded(ere_pattern))
        } else {
            Some(ere_pattern)
        }
    } else if word_regexp {
        Some(bounded(escaped(pattern)))
    } else {
        None
    }
}

/// A pattern between word boundaries.
fn word_pattern(pattern: &str) -> (r: String)
    ensures
        r@ == bounded(pattern@),
{
    let mut r: String = String::new();
    r.push('\\');
    r.push('b');
    assert(r@ =~= seq!['\\', 'b']);
    r.append(pattern);
    r.push('\\');
    r.push('b');
    assert(r@ =~= bounded(pattern@));
    r
}

/// Fixed strings win over regular expressions: which regular expression is
/// compiled for them does not depend on whether regular expressions are asked
/// for.
pub proof fn law_fixed_strings_override(
    pattern: Seq<char>,
    ere_pattern: Seq<char>,
    word_regexp: bool,
)
    ensures
        matcher_regex(pattern, ere_pattern, true, true, word_regexp) == matcher_regex(
            pattern,
            ere_pattern,
            false,
            true,
            word_regexp,
        ),
{
}

/// Whether a matcher finds its pattern in a line.
pub open spec fn hits(m: PatternMatcher, line: Seq<char>) -> bool {
    match m {
        PatternMatcher::Regex(re) => regex_is_match(re, line),
        PatternMatcher::Literal(lower) => holds_ignoring_case(line, lower@),
    }
}

/// The lines of a unit in which a matcher finds its pattern.
pub open spec fn hit_lines(m: PatternMatcher, unit: CodeUnit) -> Seq<int> {
    matching_lines(lines(unit.code@), unit.line as int, |l: Seq<char>| hits(m, l))
}

/// The lines of a unit that hold a text, given in lower case, without regard to
/// letter case.
pub open spec fn literal_lines(lower: Seq<char>, unit: CodeUnit) -> Seq<int> {
    matching_lines(
        lines(unit.code@),
        unit.line as int,
        |l: Seq<char>| holds_ignoring_case(l, lower),
    )
}

/// The text, in lower case, that a matcher looks for when it takes its pattern
/// literally.
pub open spec fn literal_pattern(m: PatternMatcher) -> Seq<char> {
    match m {
        PatternMatcher::Regex(re) => lowercase(regex_source(re)),
        PatternMatcher::Literal(lower) => lower@,
    }
}

/// The lines of a unit that a matcher reports. A regular expression that
/// matches no line is looked for once more, as the text that it is written as.
pub open spec fn found_lines(m: PatternMatcher, unit: CodeUnit) -> Seq<int> {
    if m is Regex && hit_lines(m, unit).len() == 0 {
        literal_lines(literal_pattern(m), unit)
    } else {
        hit_lines(m, unit)
    }
}

/// A matcher reports lines of the unit only, each once and in order.
pub proof fn law_found_lines_are_in_unit(m: PatternMatcher, unit: CodeUnit)
    ensures
        forall|i: int|
            0 <= i < found_lines(m, unit).len() ==> unit.line <= #[trigger] found_lines(m, unit)[i]
                < unit.line + lines(unit.code@).len(),
        forall|i: int, j: int|
            0 <= i < j < found_lines(m, unit).len() ==> #[trigger] found_lines(m, unit)[i]
                < #[trigger] found_lines(m, unit)[j],
{
    let ls = lines(unit.code@);
    let hit = if m is Regex && hit_lines(m, unit).len() == 0 {
        |l: Seq<char>| holds_ignoring_case(l, literal_pattern(m))
    } else {
        |l: Seq<char>| hits(m, l)
    };
    law_matching_lines(ls, unit.line as int, hit);
    let found = found_lines(m, unit);
    assert(found == matching_lines(ls, unit.line as int, hit));
    assert forall|i: int| 0 <= i < found.len() implies unit.line <= #[trigger] found[i] < unit.line
        + ls.len() by {
        assert(found.contains(found[i]));
    }
}

/// Where no regular expression is involved, letter case plays no role: lines
/// that are the same in lower case are alike to a matcher.
pub proof fn law_literal_ignores_case(m: PatternMatcher, line: Seq<char>, other: Seq<char>)
    requires
        m is Literal,
        lowercase(line) == lowercase(other),
    ensures
        hits(m, line) == hits(m, other),
{
}

impl PatternMatcher {
    /// The matcher that comes of an attempt to compile a pattern. A pattern
    /// that does not compile is taken literally.
    pub fn from_compiled(compiled: Result<regex::Regex, regex::Error>, pattern: &str) -> (r: Self)
        ensures
            compiled matches Ok(re) ==> r == PatternMatcher::Regex(re),
            compiled is Err ==> (r matches PatternMatcher::Literal(p) && p@ == lowercase(
                pattern@,
            )),
    {
        match compiled {
            Ok(re) => PatternMatcher::Regex(re),
            Err(_) => PatternMatcher::Literal(pattern.to_lowercase()),
        }
    }

    /// The matcher for a pattern. `ere_pattern` is the pattern rewritten as an
    /// extended regular expression.
    pub fn new(
        pattern: &str,
        ere_pattern: &str,
        extended_regexp: bool,
        fixed_strings: bool,
        word_regexp: bool,
    ) -> (r: Self)
        ensures
            match matcher_regex(
                pattern@,
                ere_pattern@,
                extended_regexp,
                fixed_strings,
                word_regexp,
            ) {
                Some(text) => if regex_compiles(
                    text,
                    true,
                    REGEX_SIZE_LIMIT as nat,
                    usize::BITS as nat,
                ) {
                    &&& r matches PatternMatcher::Regex(re)
                    &&& regex_source(re) == text
                    &&& forall|line: Seq<char>| #[trigger]
                        hits(r, line) == regex_matches(text, true, line)
                } else {
                    r matches PatternMatcher::Literal(p) && p@ == lowercase(pattern@)
                },
                None => r matches PatternMatcher::Literal(p) && p@ == lowercase(pattern@),
            },
    {
        if extended_regexp && !fixed_strings {
            if word_regexp {
                let text: String = word_pattern(ere_pattern);
                PatternMatcher::from_compiled(
                    build_regex(text.as_str(), true, REGEX_SIZE_LIMIT),
                    pattern,
                )
            } else {
                PatternMatcher::from_compiled(
                    build_regex(ere_pattern, true, REGEX_SIZE_LIMIT),
                    pattern,
                )
            }
        } else if word_regexp {
            let text: String = word_pattern(regex::escape(pattern).as_str());
            PatternMatcher::from_compiled(
                build_regex(text.as_str(), true, REGEX_SIZE_LIMIT),
                pattern,
            )
        } else {
            PatternMatcher::Literal(pattern.to_lowercase())
        }
    }

    /// Whether the pattern is found in a line.
    pub fn hits_line(&self, line: &str) -> (r: bool)
        ensures
            r == hits(*self, line@),
            *self matches PatternMatcher::Literal(lower) ==> r == occurs_in(
                lower@,
                lowercase(line@),
            ),
            *self matches PatternMatcher::Regex(re) ==> r == regex_is_match(re, line@),
    {
        match self {
            PatternMatcher::Regex(re) => re.is_match(line),
            PatternMatcher::Literal(lower) => {
                let line_lower: String = line.to_lowercase();
                contains_text(line_lower.as_str(), lower.as_str())
            },
        }
    }

    /// The lines of a unit in which the pattern is found at first sight.
    fn hits_in_unit(&self, unit: &CodeUnit) -> (r: Vec<usize>)
        requires
            unit.lines_fit(),
        ensures
            numbers(r@) == hit_lines(*self, *unit),
    {
        let found: Vec<String> = split_lines(unit.code.as_str());
        let mut r: Vec<usize> = Vec::new();
        let mut i: usize = 0;
        let ghost all = lines(unit.code@);
        let ghost hit = |l: Seq<char>| hits(*self, l);
        assert(texts(found@).len() == found@.len());
        assert(all.take(0) =~= Seq::<Seq<char>>::empty());
        assert(numbers(r@) =~= Seq::<int>::empty());
        while i < found.len()
            invariant
                i <= found.len(),
                unit.lines_fit(),
                all == lines(unit.code@),
                texts(found@) == all,
                found@.len() == all.len(),
                hit == (|l: Seq<char>| hits(*self, l)),
                numbers(r@) == matching_lines(all.take(i as int), unit.line as int, hit),
            decreases found.len() - i,
        {
            assert(texts(found@)[i as int] == found@[i as int]@);
            assert(all.take(i + 1).drop_last() =~= all.take(i as int));
            assert(all.take(i + 1).last() == all[i as int]);
            if self.hits_line(found[i].as_str()) {
                let ghost before = r@;
                r.push(unit.line + i);
                assert(numbers(r@) =~= numbers(before).push(unit.line + i));
            }
            i = i + 1;
        }
        assert(all.take(all.len() as int) =~= all);
        r
    }

    /// The lines of a unit, counted from one, in which the pattern is found.
    pub fn find_matches_in_unit(&self, unit: &CodeUnit) -> (r: Vec<usize>)
        requires
            unit.lines_fit(),
        ensures
            numbers(r@) == found_lines(*self, *unit),
            forall|i: int, j: int| 0 <= i < j < r@.len() ==> #[trigger] r@[i] < #[trigger] r@[j],
            *self matches PatternMatcher::Literal(lower) ==> forall|n: usize| #[trigger]
                r@.contains(n) <==> unit.line <= n < unit.line + lines(unit.code@).len()
                    && occurs_in(lower@, lowercase(lines(unit.code@)[n - unit.line])),
            *self matches PatternMatcher::Regex(re) ==> (exists|k: int|
                0 <= k < lines(unit.code@).len() && regex_is_match(
                    re,
                    #[trigger] lines(unit.code@)[k],
                )) ==> forall|n: usize| #[trigger]
                r@.contains(n) <==> unit.line <= n < unit.line + lines(unit.code@).len()
                    && regex_is_match(re, lines(unit.code@)[n - unit.line]),
            *self matches PatternMatcher::Regex(re) ==> (forall|k: int|
                0 <= k < lines(unit.code@).len() ==> !regex_is_match(
                    re,
                    #[trigger] lines(unit.code@)[k],
                )) ==> forall|n: usize| #[trigger]
                r@.contains(n) <==> unit.line <= n < unit.line + lines(unit.code@).len()
                    && occurs_in(
                    lowercase(regex_source(re)),
                    lowercase(lines(unit.code@)[n - unit.line]),
                ),
    {
        proof {
            law_found_lines_are_complete(*self, *unit);
            law_found_lines_are_in_unit(*self, *unit);
            assert forall|v: Seq<usize>| #[trigger] numbers(v) == found_lines(*self, *unit) implies {
                &&& forall|n: usize| #[trigger] v.contains(n) <==> found_lines(*self, *unit).contains(
                    n as int,
                )
                &&& forall|i: int, j: int| 0 <= i < j < v.len() ==> #[trigger] v[i] < #[trigger] v[j]
            } by {
                lemma_numbers(v);
                assert forall|i: int, j: int| 0 <= i < j < v.len() implies #[trigger] v[i]
                    < #[trigger] v[j] by {
                    assert(numbers(v)[i] < numbers(v)[j]);
                }
            }
        }
        let matched: Vec<usize> = self.hits_in_unit(unit);
        assert(numbers(matched@).len() == matched@.len());
        match self {
            PatternMatcher::Regex(_) => {
                if matched.len() == 0 {
                    self.literal_fallback(unit)
                } else {
                    matched
                }
            },
            PatternMatcher::Literal(_) => matched,
        }
    }

    /// The lines of a unit that hold the pattern as it is written, without
    /// regard to letter case.
    pub fn literal_fallback(&self, unit: &CodeUnit) -> (r: Vec<usize>)
        requires
            unit.lines_fit(),
        ensures
            numbers(r@) == literal_lines(literal_pattern(*self), *unit),
    {
        let lower: String = match self {
            PatternMatcher::Regex(re) => re.as_str().to_lowercase(),
            PatternMatcher::Literal(p) => p.clone(),
        };
        let literal: PatternMatcher = PatternMatcher::Literal(lower);
        proof {
            assert((|l: Seq<char>| hits(literal, l)) =~= (|l: Seq<char>|
                holds_ignoring_case(l, lower@)));
        }
        literal.hits_in_unit(unit)
    }
}

// ---------------------------------------------------------------------------
// Laws of matching
// ---------------------------------------------------------------------------

/// A list of line numbers holds the same numbers.
proof fn lemma_numbers(v: Seq<usize>)
    ensures
        numbers(v).len() == v.len(),
        forall|n: usize| #[trigger] v.contains(n) <==> numbers(v).contains(n as int),
{
    assert forall|n: usize| #[trigger] v.contains(n) <==> numbers(v).contains(n as int) by {
        if v.contains(n) {
            let i = choose|i: int| 0 <= i < v.len() && v[i] == n;
            assert(numbers(v)[i] == n as int);
        }
        if numbers(v).contains(n as int) {
            let i = choose|i: int| 0 <= i < numbers(v).len() && numbers(v)[i] == n as int;
            assert(v[i] == n);
        }
    }
}

/// A literal text is reported in every line that holds it in lower case, and in
/// no other. A regular expression that matches some line is reported in every
/// line that it matches, and in no other; one that matches none, in every line
/// that holds it as it is written, letter case aside.
pub proof fn law_found_lines_are_complete(m: PatternMatcher, unit: CodeUnit)
    ensures
        m matches PatternMatcher::Literal(lower) ==> forall|n: int| #[trigger]
            found_lines(m, unit).contains(n) <==> unit.line <= n < unit.line + lines(
                unit.code@,
            ).len() && occurs_in(lower@, lowercase(lines(unit.code@)[n - unit.line])),
        m matches PatternMatcher::Regex(re) ==> (exists|k: int|
            0 <= k < lines(unit.code@).len() && regex_is_match(re, #[trigger] lines(unit.code@)[k]))
            ==> forall|n: int| #[trigger]
            found_lines(m, unit).contains(n) <==> unit.line <= n < unit.line + lines(
                unit.code@,
            ).len() && regex_is_match(re, lines(unit.code@)[n - unit.line]),
        m matches PatternMatcher::Regex(re) ==> (forall|k: int|
            0 <= k < lines(unit.code@).len() ==> !regex_is_match(
                re,
                #[trigger] lines(unit.code@)[k],
            )) ==> forall|n: int| #[trigger]
            found_lines(m, unit).contains(n) <==> unit.line <= n < unit.line + lines(
                unit.code@,
            ).len() && occurs_in(
                lowercase(regex_source(re)),
                lowercase(lines(unit.code@)[n - unit.line]),
            ),
{
    let ls = lines(unit.code@);
    let first = unit.line as int;
    let hit = |l: Seq<char>| hits(m, l);
    law_matching_lines(ls, first, hit);
    let literal = |l: Seq<char>| holds_ignoring_case(l, literal_pattern(m));
    law_matching_lines(ls, first, literal);
    if let PatternMatcher::Regex(re) = m {
        if exists|k: int| 0 <= k < ls.len() && regex_is_match(re, #[trigger] ls[k]) {
            let k = choose|k: int| 0 <= k < ls.len() && regex_is_match(re, #[trigger] ls[k]);
            assert(hit_lines(m, unit).contains(first + k));
        }
        if forall|k: int| 0 <= k < ls.len() ==> !regex_is_match(re, #[trigger] ls[k]) {
            if hit_lines(m, unit).len() > 0 {
                let n = hit_lines(m, unit)[0];
                assert(hit_lines(m, unit).contains(n));
                assert(regex_is_match(re, ls[n - first]));
            }
        }
    }
}

/// Which regular expression is compiled: the rewritten pattern where regular
/// expressions are asked for and fixed strings are not, the escaped pattern
/// where only whole words are wanted, and else none. Whole words have a boundary
/// on either side.
pub proof fn law_compiled_pattern(pattern: Seq<char>, ere_pattern: Seq<char>)
    ensures
        matcher_regex(pattern, ere_pattern, true, false, false) == Some(ere_pattern),
        matcher_regex(pattern, ere_pattern, true, false, true) == Some(
            seq!['\\', 'b'] + ere_pattern + seq!['\\', 'b'],
        ),
        forall|extended: bool, fixed: bool|
            !extended || fixed ==> #[trigger] matcher_regex(
                pattern,
                ere_pattern,
                extended,
                fixed,
                true,
            ) == Some(seq!['\\', 'b'] + escaped(pattern) + seq!['\\', 'b']),
        forall|extended: bool, fixed: bool|
            !extended || fixed ==> #[trigger] matcher_regex(
                pattern,
                ere_pattern,
                extended,
                fixed,
                false,
            ) is None,
{
}

/// A character is escaped if it means something in a regular expression, and
/// left as it is if not.
pub proof fn law_escaped(s: Seq<char>, c: char)
    ensures
        escaped(Seq::<char>::empty()) == Seq::<char>::empty(),
        c == '\\' || c == '.' || c == '+' || c == '*' || c == '?' || c == '(' || c == ')' || c == '|'
            || c == '[' || c == ']' || c == '{' || c == '}' || c == '^' || c == '$' || c == '#' || c
            == '&' || c == '-' || c == '~' ==> escaped(s.push(c)) == escaped(s) + seq!['\\', c],
        !(c == '\\' || c == '.' || c == '+' || c == '*' || c == '?' || c == '(' || c == ')' || c
            == '|' || c == '[' || c == ']' || c == '{' || c == '}' || c == '^' || c == '$' || c
            == '#' || c == '&' || c == '-' || c == '~') ==> escaped(s.push(c)) == escaped(s) + seq![
            c,
        ],
{
    assert(s.push(c).drop_last() =~= s);
    assert(escaped(s).push('\\').push(c) =~= escaped(s) + seq!['\\', c]);
    assert(escaped(s).push(c) =~= escaped(s) + seq![c]);
}

} // verus!
