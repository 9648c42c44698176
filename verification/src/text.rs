//! Character-level operations on strings: prefixes, whitespace-separated words and padding.
//!
//! A string is modelled by the sequence of its characters (`s@`).

use vstd::prelude::*;

verus! {

/// The characters of each string of a sequence.
pub open spec fn views(strings: Seq<String>) -> Seq<Seq<char>> {
    strings.map_values(|s: String| s@)
}

/// Whether `c` has the Unicode property `White_Space`.
pub open spec fn whitespace(c: char) -> bool {
    ||| '\u{9}' <= c <= '\u{d}'
    ||| c == ' '
    ||| c == '\u{85}'
    ||| c == '\u{a0}'
    ||| c == '\u{1680}'
    ||| '\u{2000}' <= c <= '\u{200a}'
    ||| c == '\u{2028}'
    ||| c == '\u{2029}'
    ||| c == '\u{202f}'
    ||| c == '\u{205f}'
    ||| c == '\u{3000}'
}

/// How many characters of `s` come before its first whitespace character, or before its end.
pub open spec fn word_len(s: Seq<char>) -> nat
    decreases s.len(),
{
    if s.len() == 0 || whitespace(s[0]) {
        0
    } else {
        1 + word_len(s.skip(1))
    }
}

/// The maximal runs of non-whitespace characters of `s`, from left to right.
pub open spec fn words(s: Seq<char>) -> Seq<Seq<char>>
    decreases s.len(),
{
    if s.len() == 0 {
        Seq::empty()
    } else if whitespace(s[0]) {
        words(s.skip(1))
    } else {
        proof {
            lemma_word_len(s);
        }
        seq![s.take(word_len(s) as int)] + words(s.skip(word_len(s) as int))
    }
}

/// What follows `prefix` in `s`, where `s` begins with `prefix`.
pub open spec fn stripped(s: Seq<char>, prefix: Seq<char>) -> Option<Seq<char>> {
    if prefix.is_prefix_of(s) {
        Some(s.skip(prefix.len() as int))
    } else {
        None
    }
}

/// `s`, with spaces in front of it as far as it is shorter than `width`.
pub open spec fn padded(s: Seq<char>, width: nat) -> Seq<char> {
    if s.len() >= width {
        s
    } else {
        Seq::new((width - s.len()) as nat, |i: int| ' ') + s
    }
}

/// The first word of `s` is as long as `word_len` says.
pub proof fn lemma_word_len(s: Seq<char>)
    ensures
        word_len(s) <= s.len(),
        s.len() > 0 && !whitespace(s[0]) ==> word_len(s) >= 1,
        forall|i: int| 0 <= i < word_len(s) ==> !whitespace(#[trigger] s[i]),
        word_len(s) < s.len() ==> whitespace(s[word_len(s) as int]),
    decreases s.len(),
{
    if s.len() != 0 && !whitespace(s[0]) {
        let rest = s.skip(1);
        lemma_word_len(rest);
        assert forall|i: int| 0 <= i < word_len(s) implies !whitespace(#[trigger] s[i]) by {
            if i > 0 {
                assert(s[i] == rest[i - 1]);
            }
        }
    }
}

/// Whether `c` has the Unicode property `White_Space`.
pub fn is_whitespace(c: char) -> (r: bool)
    ensures
        r == whitespace(c),
{
    ('\u{9}' <= c && c <= '\u{d}') || c == ' ' || c == '\u{85}' || c == '\u{a0}' || c == '\u{1680}'
        || ('\u{2000}' <= c && c <= '\u{200a}') || c == '\u{2028}' || c == '\u{2029}'
        || c == '\u{202f}' || c == '\u{205f}' || c == '\u{3000}'
}

/// Where whitespace stands between two texts, their words do not run together.
pub proof fn lemma_words_concat(a: Seq<char>, b: Seq<char>)
    requires
        b.len() > 0 ==> whitespace(b[0]),
    ensures
        words(a + b) == words(a) + words(b),
    decreases a.len(),
{
    if a.len() == 0 {
        assert(a + b == b);
        assert(words(a) + words(b) == words(b));
    } else if whitespace(a[0]) {
        assert((a + b).skip(1) == a.skip(1) + b);
        lemma_words_concat(a.skip(1), b);
    } else {
        let w = word_len(a) as int;
        lemma_word_len(a);
        assert forall|k: int| 0 <= k < w implies !whitespace(#[trigger] (a + b)[k]) by {
            assert((a + b)[k] == a[k]);
        }
        lemma_words_split(a + b, 0, w);
        assert((a + b).skip(0) == a + b);
        assert((a + b).subrange(0, w) == a.take(w));
        assert((a + b).skip(w) == a.skip(w) + b);
        lemma_words_concat(a.skip(w), b);
        assert(words(a + b) == words(a) + words(b));
    }
}

/// Where a word of `s` spans `from..to`, it is the first word of what begins at `from`.
proof fn lemma_words_split(s: Seq<char>, from: int, to: int)
    requires
        0 <= from < to <= s.len(),
        forall|k: int| from <= k < to ==> !whitespace(#[trigger] s[k]),
        to < s.len() ==> whitespace(s[to]),
    ensures
        words(s.skip(from)) == seq![s.subrange(from, to)] + words(s.skip(to)),
{
    let rest = s.skip(from);
    let w = word_len(rest) as int;
    lemma_word_len(rest);
    assert(rest[0] == s[from]);
    assert(w == to - from) by {
        if w < to - from {
            assert(rest[w] == s[from + w]);
        }
        if w > to - from {
            assert(rest[to - from] == s[to]);
        }
    }
    assert(rest.take(w) == s.subrange(from, to));
    assert(rest.skip(w) == s.skip(to));
}

/// The maximal runs of non-whitespace characters of `s`, from left to right.
pub fn split_words(s: &str) -> (r: Vec<String>)
    ensures
        views(r@) == words(s@),
{
    let mut found: Vec<String> = Vec::new();
    let n: usize = s.unicode_len();
    // A word that is not finished yet spans `start..i`.
    let mut start: usize = 0;
    let mut i: usize = 0;
    assert(s@.skip(0) == s@);
    for c in it: s.chars()
        invariant
            i == it.index(),
            it.seq() == s@,
            n == s@.len(),
            start <= i <= n,
            forall|k: int| start <= k < i ==> !whitespace(#[trigger] s@[k]),
            views(found@) + words(s@.skip(start as int)) == words(s@),
    {
        assert(c == s@[i as int]);
        if is_whitespace(c) {
            let ghost before = found@;
            if start < i {
                found.push(s.substring_char(start, i).to_owned());
                proof {
                    lemma_words_split(s@, start as int, i as int);
                    assert(views(found@) == views(before).push(
                        s@.subrange(start as int, i as int),
                    ));
                }
            }
            proof {
                let rest = s@.skip(i as int);
                assert(rest[0] == s@[i as int]);
                assert(rest.skip(1) == s@.skip(i + 1));
                assert(views(found@) + words(s@.skip(i + 1)) == views(before) + words(
                    s@.skip(start as int),
                ));
            }
            start = i + 1;
        }
        i = i + 1;
    }
    if start < n {
        let ghost before = found@;
        found.push(s.substring_char(start, n).to_owned());
        proof {
            lemma_words_split(s@, start as int, n as int);
            assert(views(found@) == views(before).push(s@.subrange(start as int, n as int)));
        }
    }
    assert(s@.skip(n as int).len() == 0);
    assert(views(found@) == words(s@));
    found
}

/// Whether `a` and `b` hold the same characters.
pub fn same(a: &str, b: &str) -> (r: bool)
    ensures
        r == (a@ == b@),
{
    a.to_owned() == b.to_owned()
}

/// What follows `prefix` in `s`, where `s` begins with `prefix`.
pub fn strip_prefix<'a>(s: &'a str, prefix: &str) -> (r: Option<&'a str>)
    ensures
        match r {
            Some(rest) => stripped(s@, prefix@) == Some(rest@),
            None => stripped(s@, prefix@) is None,
        },
{
    let mut i: usize = 0;
    let mut rest = s.chars();
    let m: usize = prefix.unicode_len();
    for p in it: prefix.chars()
        invariant
            i == it.index(),
            it.seq() == prefix@,
            m == prefix@.len(),
            i <= m,
            i <= s@.len(),
            vstd::std_specs::iter::IteratorSpec::remaining(&rest) == s@.skip(i as int),
            forall|k: int| 0 <= k < i ==> #[trigger] s@[k] == prefix@[k],
    {
        match rest.next() {
            Some(c) => {
                if c != p {
                    assert(s@[i as int] != prefix@[i as int]);
                    return None;
                }
            },
            None => {
                return None;
            },
        }
        i = i + 1;
    }
    assert(prefix@.is_prefix_of(s@));
    let n: usize = s.unicode_len();
    Some(s.substring_char(m, n))
}

/// `s`, with spaces in front of it as far as it is shorter than `width`.
pub fn pad_left(s: &str, width: usize) -> (r: String)
    ensures
        r@ == padded(s@, width as nat),
{
    let mut r: String = String::new();
    let n: usize = s.unicode_len();
    let mut i: usize = n;
    while i < width
        invariant
            n <= i,
            i <= width || i == n,
            r@ == Seq::new((i - n) as nat, |k: int| ' '),
        decreases width - i,
    {
        proof {
            reveal_strlit(" ");
        }
        r.append(" ");
        i = i + 1;
    }
    r.append(s);
    assert(r@ == padded(s@, width as nat));
    r
}

/// Whitespace separates words and belongs to none: in front of a text it changes nothing, and what
/// comes before it gives its words in front of those that come after it.
pub proof fn law_whitespace_separates_words(a: Seq<char>, c: char, b: Seq<char>)
    requires
        whitespace(c),
    ensures
        words(Seq::empty()) == Seq::<Seq<char>>::empty(),
        words(seq![c] + b) == words(b),
        words(a + seq![c] + b) == words(a) + words(b),
{
    assert((seq![c] + b).skip(1) == b);
    lemma_words_concat(a, seq![c] + b);
    assert(a + seq![c] + b == a + (seq![c] + b));
}

/// A text without whitespace is one word.
pub proof fn law_text_without_whitespace_is_one_word(word: Seq<char>)
    requires
        word.len() > 0,
        forall|i: int| 0 <= i < word.len() ==> !whitespace(#[trigger] word[i]),
    ensures
        words(word) == seq![word],
{
    lemma_words_split(word, 0, word.len() as int);
    assert(word.skip(0) == word);
    assert(word.subrange(0, word.len() as int) == word);
    assert(word.skip(word.len() as int).len() == 0);
    assert(words(word) == seq![word]);
}

/// The whitespace between the values of an output file is the space and the tab, and letters,
/// digits and signs are none.
pub proof fn law_printed_characters_are_no_whitespace(c: char)
    ensures
        c == ' ' || c == '\t' || c == '\n' || c == '\r' ==> whitespace(c),
        '!' <= c <= '~' ==> !whitespace(c),
{
}

/// A prefix is stripped from the texts that begin with it, and nothing else is.
pub proof fn law_prefix_is_stripped_where_it_stands(s: Seq<char>, prefix: Seq<char>, rest: Seq<char>)
    ensures
        stripped(s, prefix) == Some(rest) <==> s == prefix + rest,
        stripped(s, prefix) is Some <==> prefix.is_prefix_of(s),
{
    if s == prefix + rest {
        assert((prefix + rest).skip(prefix.len() as int) == rest);
        assert(prefix.is_prefix_of(s));
    }
    if stripped(s, prefix) == Some(rest) {
        assert(s == prefix + s.skip(prefix.len() as int));
    }
}

/// A padded text is as long as it has to be, ends in the text, and has nothing but spaces in front.
pub proof fn law_padding_is_spaces_in_front(s: Seq<char>, width: nat)
    ensures
        padded(s, width).len() == if s.len() < width {
            width
        } else {
            s.len()
        },
        padded(s, width).skip(padded(s, width).len() - s.len()) == s,
        forall|i: int|
            0 <= i < padded(s, width).len() - s.len() ==> #[trigger] padded(s, width)[i] == ' ',
{
    assert(padded(s, width).skip(padded(s, width).len() - s.len()) == s);
}

/// A list of strings is modelled string by string.
pub proof fn law_each_string_is_modelled(strings: Seq<String>, i: int)
    requires
        0 <= i < strings.len(),
    ensures
        views(strings).len() == strings.len(),
        views(strings)[i] == strings[i]@,
{
}

} // verus!
