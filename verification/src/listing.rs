//! Help for a path that does not exist: the closest directory that does, and
//! what it holds.

use vstd::prelude::*;
use vstd::relations::{sorted_by, total_ordering};
use vstd::seq_lib::lemma_sorted_unique;

use crate::text::{chars_of, contains_text, join_texts, joined, occurs_at, occurs_in, texts};

verus! {

// ---------------------------------------------------------------------------
// The order of texts
// ---------------------------------------------------------------------------

/// Whether a text comes no later than another, by the code points of the first
/// characters in which they differ.
pub open spec fn text_le(a: Seq<char>, b: Seq<char>) -> bool
    decreases a.len(),
{
    if a.len() == 0 {
        true
    } else if b.len() == 0 {
        false
    } else if a[0] == b[0] {
        text_le(a.skip(1), b.skip(1))
    } else {
        (a[0] as int) < b[0] as int
    }
}

/// The order of texts.
pub open spec fn text_order() -> spec_fn(Seq<char>, Seq<char>) -> bool {
    |a: Seq<char>, b: Seq<char>| text_le(a, b)
}

/// Texts in their order.
pub open spec fn in_order(s: Seq<Seq<char>>) -> Seq<Seq<char>> {
    s.sort_by(text_order())
}

proof fn lemma_text_le_reflexive(a: Seq<char>)
    ensures
        text_le(a, a),
    decreases a.len(),
{
    if a.len() > 0 {
        lemma_text_le_reflexive(a.skip(1));
    }
}

proof fn lemma_text_le_antisymmetric(a: Seq<char>, b: Seq<char>)
    requires
        text_le(a, b),
        text_le(b, a),
    ensures
        a == b,
    decreases a.len(),
{
    if a.len() > 0 && b.len() > 0 {
        lemma_text_le_antisymmetric(a.skip(1), b.skip(1));
        assert(a =~= seq![a[0]] + a.skip(1));
        assert(b =~= seq![b[0]] + b.skip(1));
    } else {
        assert(a =~= b);
    }
}

proof fn lemma_text_le_transitive(a: Seq<char>, b: Seq<char>, c: Seq<char>)
    requires
        text_le(a, b),
        text_le(b, c),
    ensures
        text_le(a, c),
    decreases a.len(),
{
    if a.len() > 0 && b.len() > 0 && c.len() > 0 && a[0] == b[0] && b[0] == c[0] {
        lemma_text_le_transitive(a.skip(1), b.skip(1), c.skip(1));
    }
}

proof fn lemma_text_le_total(a: Seq<char>, b: Seq<char>)
    ensures
        text_le(a, b) || text_le(b, a),
    decreases a.len(),
{
    if a.len() > 0 && b.len() > 0 && a[0] == b[0] {
        lemma_text_le_total(a.skip(1), b.skip(1));
    }
}

/// Any two texts have an order, and only equal ones come no later than each
/// other.
pub proof fn law_text_order_is_total()
    ensures
        total_ordering(text_order()),
{
    let le = text_order();
    assert forall|a: Seq<char>| #[trigger] le(a, a) by {
        lemma_text_le_reflexive(a);
    }
    assert forall|a: Seq<char>, b: Seq<char>| #[trigger] le(a, b) && #[trigger] le(b, a) implies a
        == b by {
        lemma_text_le_antisymmetric(a, b);
    }
    assert forall|a: Seq<char>, b: Seq<char>, c: Seq<char>| #[trigger]
        le(a, b) && #[trigger] le(b, c) implies le(a, c) by {
        lemma_text_le_transitive(a, b, c);
    }
    assert forall|a: Seq<char>, b: Seq<char>| #[trigger] le(a, b) || #[trigger] le(b, a) by {
        lemma_text_le_total(a, b);
    }
}

/// Ordering texts loses none and adds none, and there is one way only to do it.
pub proof fn law_in_order(s: Seq<Seq<char>>, other: Seq<Seq<char>>)
    ensures
        sorted_by(in_order(s), text_order()),
        in_order(s).to_multiset() == s.to_multiset(),
        sorted_by(other, text_order()) && other.to_multiset() == s.to_multiset() ==> other
            == in_order(s),
{
    law_text_order_is_total();
    s.lemma_sort_by_ensures(text_order());
    if sorted_by(other, text_order()) && other.to_multiset() == s.to_multiset() {
        lemma_sorted_unique(other, in_order(s), text_order());
    }
}

/// Whether a text comes no later than another.
fn comes_first(a: &str, b: &str) -> (r: bool)
    ensures
        r == text_le(a@, b@),
{
    let x: Vec<char> = chars_of(a);
    let y: Vec<char> = chars_of(b);
    let mut i: usize = 0;
    assert(a@.skip(0) =~= a@);
    assert(b@.skip(0) =~= b@);
    while i < x.len() && i < y.len()
        invariant
            x@ == a@,
            y@ == b@,
            i <= x.len(),
            i <= y.len(),
            text_le(a@, b@) == text_le(a@.skip(i as int), b@.skip(i as int)),
        decreases x.len() - i,
    {
        assert(a@.skip(i as int).skip(1) =~= a@.skip(i + 1));
        assert(b@.skip(i as int).skip(1) =~= b@.skip(i + 1));
        assert(a@.skip(i as int)[0] == x@[i as int]);
        assert(b@.skip(i as int)[0] == y@[i as int]);
        if x[i] != y[i] {
            return x[i] < y[i];
        }
        i = i + 1;
    }
    i == x.len()
}

/// Puts texts in their order.
pub fn sort_texts(v: Vec<String>) -> (r: Vec<String>)
    ensures
        texts(r@) == in_order(texts(v@)),
{
    let ghost all = texts(v@);
    let mut todo: Vec<String> = v;
    let mut r: Vec<String> = Vec::new();
    proof {
        assert(texts(r@) =~= Seq::<Seq<char>>::empty());
        assert(texts(todo@).to_multiset().add(texts(r@).to_multiset()) =~= all.to_multiset()) by {
            broadcast use vstd::seq_lib::group_to_multiset_ensures;

            assert(texts(r@).to_multiset().len() == 0);
            assert(texts(r@).to_multiset() =~= vstd::multiset::Multiset::empty());
        }
    }
    while todo.len() > 0
        invariant
            sorted_by(texts(r@), text_order()),
            texts(todo@).to_multiset().add(texts(r@).to_multiset()) == all.to_multiset(),
        decreases todo.len(),
    {
        let ghost before = texts(todo@);
        let ghost sorted = texts(r@);
        if let Some(t) = todo.pop() {
            let mut at: usize = 0;
            while at < r.len() && !comes_first(t.as_str(), r[at].as_str())
                invariant
                    at <= r.len(),
                    texts(r@) == sorted,
                    forall|i: int| 0 <= i < at ==> !text_le(t@, #[trigger] sorted[i]),
                decreases r.len() - at,
            {
                assert(sorted[at as int] == r@[at as int]@);
                at = at + 1;
            }
            proof {
                if at < r.len() {
                    assert(sorted[at as int] == r@[at as int]@);
                }
            }
            let ghost text = t@;
            r.insert(at, t);
            proof {
                assert(texts(r@) =~= sorted.insert(at as int, text));
                assert(texts(todo@) =~= before.drop_last());
                assert(before =~= texts(todo@).push(text));
                lemma_insert_keeps_order(sorted, at as int, text);
                broadcast use vstd::seq_lib::group_to_multiset_ensures;

                assert(texts(todo@).to_multiset().add(texts(r@).to_multiset())
                    =~= before.to_multiset().add(sorted.to_multiset()));
            }
        }
    }
    proof {
        assert(texts(todo@) =~= Seq::<Seq<char>>::empty());
        broadcast use vstd::seq_lib::group_to_multiset_ensures;

        assert(texts(todo@).to_multiset().len() == 0);
        assert(texts(todo@).to_multiset() =~= vstd::multiset::Multiset::empty());
        assert(texts(r@).to_multiset() =~= all.to_multiset());
        law_in_order(all, texts(r@));
    }
    r
}

/// Inserting a text in front of the first that it does not come behind.
proof fn lemma_insert_keeps_order(sorted: Seq<Seq<char>>, at: int, text: Seq<char>)
    requires
        sorted_by(sorted, text_order()),
        0 <= at <= sorted.len(),
        forall|i: int| 0 <= i < at ==> !text_le(text, #[trigger] sorted[i]),
        at < sorted.len() ==> text_le(text, sorted[at]),
    ensures
        sorted_by(sorted.insert(at, text), text_order()),
{
    let le = text_order();
    let next = sorted.insert(at, text);
    assert forall|i: int, j: int| 0 <= i < j < next.len() implies #[trigger] le(next[i], next[j]) by {
        if i == at {
            assert(next[j] == sorted[j - 1]);
            if j - 1 > at {
                assert(le(sorted[at], sorted[j - 1]));
                lemma_text_le_transitive(text, sorted[at], sorted[j - 1]);
            }
        } else if j == at {
            assert(next[i] == sorted[i]);
            lemma_text_le_total(text, sorted[i]);
        } else {
            let x = if i < at {
                i
            } else {
                i - 1
            };
            let y = if j < at {
                j
            } else {
                j - 1
            };
            assert(next[i] == sorted[x] && next[j] == sorted[y]);
            assert(le(sorted[x], sorted[y]));
        }
    }
}

// ---------------------------------------------------------------------------
// The closest directory
// ---------------------------------------------------------------------------

/// What stands at a path.
#[derive(Clone, Copy, Debug, PartialEq, Eq, Structural)]
pub enum Place {
    Missing,
    Directory,
    /// Something that is not a directory.
    Other,
}

/// Whether the first place of a list that is not missing is the one at a
/// position.
pub open spec fn is_closest(places: Seq<Place>, i: int) -> bool {
    &&& 0 <= i < places.len()
    &&& places[i] != Place::Missing
    &&& forall|j: int| 0 <= j < i ==> #[trigger] places[j] == Place::Missing
}

/// The closest directory above a path, given what stands at the path, at its
/// parent, and so on upwards. Where the closest place that exists is no
/// directory, there is none.
pub fn closest_directory(places: &Vec<Place>) -> (r: Option<usize>)
    ensures
        r matches Some(i) ==> is_closest(places@, i as int) && places@[i as int]
            == Place::Directory,
        r is None ==> forall|i: int|
            is_closest(places@, i) ==> #[trigger] places@[i] == Place::Other,
{
    let mut i: usize = 0;
    while i < places.len()
        invariant
            i <= places.len(),
            forall|j: int| 0 <= j < i ==> #[trigger] places@[j] == Place::Missing,
        decreases places.len() - i,
    {
        match places[i] {
            Place::Missing => {},
            Place::Directory => {
                return Some(i);
            },
            Place::Other => {
                assert(places@[i as int] == Place::Other);
                return None;
            },
        }
        i = i + 1;
    }
    None
}

// ---------------------------------------------------------------------------
// The contents of a directory
// ---------------------------------------------------------------------------

/// How many entries of a directory are looked at.
pub const LISTED_ENTRIES: usize = 30;

/// An entry of a directory.
pub struct DirItem {
    pub name: String,
    pub is_dir: bool,
}

/// The line for an entry. A directory has a slash behind its name.
pub open spec fn item_line(item: DirItem) -> Seq<char> {
    if item.is_dir {
        "  "@ + item.name@ + "/"@
    } else {
        "  "@ + item.name@
    }
}

/// The lines for entries. An entry that could not be read has none.
pub open spec fn item_lines(entries: Seq<Option<DirItem>>) -> Seq<Seq<char>>
    decreases entries.len(),
{
    if entries.len() == 0 {
        Seq::empty()
    } else {
        match entries.last() {
            Some(item) => item_lines(entries.drop_last()).push(item_line(item)),
            None => item_lines(entries.drop_last()),
        }
    }
}

/// The entries that are looked at: the first ones.
pub open spec fn listed(entries: Seq<Option<DirItem>>) -> Seq<Option<DirItem>> {
    if entries.len() > LISTED_ENTRIES {
        entries.take(LISTED_ENTRIES as int)
    } else {
        entries
    }
}

/// What is said of a directory and its entries.
pub open spec fn directory_help(dir: Seq<char>, entries: Seq<Option<DirItem>>) -> Seq<char> {
    let shown = item_lines(listed(entries));
    "Closest existing directory: "@ + dir + "\nContents:\n"@ + joined(in_order(shown), "\n"@) + if shown.len()
        >= LISTED_ENTRIES {
        "\n  ... (truncated)"@
    } else {
        Seq::empty()
    }
}

/// What is said in help of a path that does not exist.
pub open spec fn path_help(dir: Option<Seq<char>>, entries: Seq<Option<DirItem>>) -> Seq<char> {
    match dir {
        Some(d) => directory_help(d, entries),
        None => "Could not find any existing parent directory."@,
    }
}

/// The line for an entry.
fn line_for(item: &DirItem) -> (r: String)
    ensures
        r@ == item_line(*item),
{
    let mut r: String = "  ".to_owned();
    r.append(item.name.as_str());
    if item.is_dir {
        r.append("/");
    }
    r
}

/// The lines for the first entries.
fn lines_for(entries: &Vec<Option<DirItem>>) -> (r: Vec<String>)
    ensures
        texts(r@) == item_lines(listed(entries@)),
{
    let mut r: Vec<String> = Vec::new();
    let mut i: usize = 0;
    assert(entries@.take(0) =~= Seq::<Option<DirItem>>::empty());
    assert(texts(r@) =~= item_lines(entries@.take(0)));
    while i < entries.len() && i < LISTED_ENTRIES
        invariant
            i <= entries.len(),
            i <= LISTED_ENTRIES,
            texts(r@) == item_lines(entries@.take(i as int)),
        decreases entries.len() - i,
    {
        let ghost before = r@;
        assert(entries@.take(i + 1).drop_last() =~= entries@.take(i as int));
        assert(entries@.take(i + 1).last() == entries@[i as int]);
        if let Some(item) = &entries[i] {
            r.push(line_for(item));
            assert(texts(r@) =~= texts(before).push(item_line(*item)));
        }
        i = i + 1;
    }
    assert(entries@.take(i as int) =~= listed(entries@));
    r
}

/// What is said in help of a path that does not exist: the closest directory
/// and its first entries, as they were read.
pub fn describe_directory(dir: Option<&str>, entries: &Vec<Option<DirItem>>) -> (r: String)
    ensures
        r@ == path_help(
            match dir {
                Some(d) => Some(d@),
                None => None,
            },
            entries@,
        ),
{
    match dir {
        Some(d) => {
            let shown: Vec<String> = lines_for(entries);
            assert(texts(shown@).len() == shown@.len());
            let truncated: bool = shown.len() >= LISTED_ENTRIES;
            let ordered: Vec<String> = sort_texts(shown);
            let contents: String = join_texts(&ordered, "\n");
            let mut r: String = "Closest existing directory: ".to_owned();
            r.append(d);
            r.append("\nContents:\n");
            r.append(contents.as_str());
            if truncated {
                r.append("\n  ... (truncated)");
            } else {
                assert(r@ + Seq::<char>::empty() =~= r@);
            }
            r
        },
        None => "Could not find any existing parent directory.".to_owned(),
    }
}

// ---------------------------------------------------------------------------
// The message
// ---------------------------------------------------------------------------

/// The message for a path that does not exist.
pub open spec fn missing_path_text(path: Seq<char>, help: Seq<char>) -> Seq<char> {
    "Path does not exist:"@ + " "@ + path + "\n\n"@ + help
}

/// Whether a message says that a path does not exist.
pub open spec fn says_missing(message: Seq<char>) -> bool {
    occurs_in("Path does not exist:"@, message)
}

/// The message for a path that does not exist.
pub fn missing_path_message(path: &str, help: &str) -> (r: String)
    ensures
        r@ == missing_path_text(path@, help@),
{
    let mut r: String = "Path does not exist:".to_owned();
    r.append(" ");
    r.append(path);
    r.append("\n\n");
    r.append(help);
    r
}

/// Whether a message says that a path does not exist.
pub fn is_missing_path_message(message: &str) -> (r: bool)
    ensures
        r == says_missing(message@),
{
    contains_text(message, "Path does not exist:")
}

/// The message for a path that does not exist is always recognised.
pub proof fn law_missing_path_is_recognised(path: Seq<char>, help: Seq<char>)
    ensures
        says_missing(missing_path_text(path, help)),
{
    let mark = "Path does not exist:"@;
    let message = missing_path_text(path, help);
    assert(message.subrange(0, mark.len() as int) =~= mark);
    assert(occurs_at(mark, message, 0));
}

// ---------------------------------------------------------------------------
// Laws of listings
// ---------------------------------------------------------------------------

/// A text comes in front of every longer one that starts with it, and not behind.
pub proof fn law_shorter_text_comes_first(a: Seq<char>, rest: Seq<char>)
    ensures
        text_le(a, a + rest),
        rest.len() > 0 ==> !text_le(a + rest, a),
    decreases a.len(),
{
    let b = a + rest;
    if a.len() > 0 {
        assert(b[0] == a[0]);
        assert(b.skip(1) =~= a.skip(1) + rest);
        law_shorter_text_comes_first(a.skip(1), rest);
    }
}

/// The first character in which two texts differ decides, by its code point.
pub proof fn law_first_difference_decides(
    common: Seq<char>,
    x: char,
    y: char,
    a: Seq<char>,
    b: Seq<char>,
)
    requires
        x != y,
    ensures
        text_le(common + seq![x] + a, common + seq![y] + b) <==> (x as int) < (y as int),
    decreases common.len(),
{
    let s = common + seq![x] + a;
    let t = common + seq![y] + b;
    if common.len() == 0 {
        assert(s[0] == x && t[0] == y);
    } else {
        assert(s[0] == common[0] && t[0] == common[0]);
        assert(s.skip(1) =~= common.skip(1) + seq![x] + a);
        assert(t.skip(1) =~= common.skip(1) + seq![y] + b);
        law_first_difference_decides(common.skip(1), x, y, a, b);
    }
}

/// An entry that could be read has a line of its own, indented, with a slash
/// behind the name of a directory; one that could not has none.
pub proof fn law_lines_of_entries(entries: Seq<Option<DirItem>>, item: DirItem)
    ensures
        item_lines(Seq::empty()) == Seq::<Seq<char>>::empty(),
        item_lines(entries.push(None)) == item_lines(entries),
        item.is_dir ==> item_lines(entries.push(Some(item))) == item_lines(entries).push(
            "  "@ + item.name@ + "/"@,
        ),
        !item.is_dir ==> item_lines(entries.push(Some(item))) == item_lines(entries).push(
            "  "@ + item.name@,
        ),
{
    assert(entries.push(None).drop_last() =~= entries);
    assert(entries.push(Some(item)).drop_last() =~= entries);
}

/// Thirty entries at most are looked at, the first ones; and the help lists their
/// lines in order, with a note behind them where there are as many.
pub proof fn law_help_lists_the_first_entries(dir: Seq<char>, entries: Seq<Option<DirItem>>)
    ensures
        listed(entries).is_prefix_of(entries),
        listed(entries).len() == if entries.len() < 30 {
            entries.len()
        } else {
            30
        },
        path_help(None, entries) == "Could not find any existing parent directory."@,
        item_lines(listed(entries)).len() < 30 ==> path_help(Some(dir), entries)
            == "Closest existing directory: "@ + dir + "\nContents:\n"@ + joined(
            in_order(item_lines(listed(entries))),
            "\n"@,
        ),
        item_lines(listed(entries)).len() >= 30 ==> path_help(Some(dir), entries)
            == "Closest existing directory: "@ + dir + "\nContents:\n"@ + joined(
            in_order(item_lines(listed(entries))),
            "\n"@,
        ) + "\n  ... (truncated)"@,
{
    let text = "Closest existing directory: "@ + dir + "\nContents:\n"@ + joined(
        in_order(item_lines(listed(entries))),
        "\n"@,
    );
    assert(text + Seq::<char>::empty() =~= text);
}

/// Texts in order hold the same texts, each in front of all that come later.
pub proof fn law_ordered_texts(s: Seq<Seq<char>>, i: int, j: int)
    requires
        0 <= i < j < s.len(),
    ensures
        in_order(s).to_multiset() == s.to_multiset(),
        in_order(s).len() == s.len(),
        text_le(in_order(s)[i], in_order(s)[j]),
{
    law_in_order(s, s);
    s.to_multiset_ensures();
    in_order(s).to_multiset_ensures();
    assert(text_order()(in_order(s)[i], in_order(s)[j]));
}

/// A message says that a path is missing if and only if it has those words.
pub proof fn law_missing_path_message(path: Seq<char>, help: Seq<char>, message: Seq<char>)
    ensures
        says_missing(message) <==> occurs_in("Path does not exist:"@, message),
        missing_path_text(path, help) == "Path does not exist:"@ + " "@ + path + "\n\n"@ + help,
{
}

/// The closest place is the first that is not missing, and there is no other.
pub proof fn law_closest_place(places: Seq<Place>, i: int, other: int)
    requires
        0 <= i < places.len(),
    ensures
        is_closest(places, i) <==> !(places[i] is Missing) && forall|j: int|
            0 <= j < i ==> #[trigger] places[j] is Missing,
        is_closest(places, i) && is_closest(places, other) ==> i == other,
{
}

} // verus!
