//! Characters and words on a protocol line.
//!
//! Lines are handled as sequences of characters. A line is cut into words at
//! white space; a word is referred to by its span in the line.

use vstd::prelude::*;

verus! {

/// The characters that separate words: those with the Unicode `White_Space`
/// property.
pub open spec fn is_space(c: char) -> bool {
    let u = c as u32;
    ||| 0x09 <= u <= 0x0D
    ||| u == 0x20
    ||| u == 0x85
    ||| u == 0xA0
    ||| u == 0x1680
    ||| 0x2000 <= u <= 0x200A
    ||| u == 0x2028
    ||| u == 0x2029
    ||| u == 0x202F
    ||| u == 0x205F
    ||| u == 0x3000
}

pub fn char_is_space(c: char) -> (b: bool)
    ensures
        b == is_space(c),
{
    let u: u32 = c as u32;
    (0x09 <= u && u <= 0x0D) || u == 0x20 || u == 0x85 || u == 0xA0 || u == 0x1680 || (0x2000 <= u
        && u <= 0x200A) || u == 0x2028 || u == 0x2029 || u == 0x202F || u == 0x205F || u == 0x3000
}

/// The characters of a string, in a vector that can be indexed in constant
/// time.
pub fn chars_of(s: &str) -> (v: Vec<char>)
    ensures
        v@ == s@,
{
    let mut v: Vec<char> = Vec::new();
    for c in it: s.chars()
        invariant
            it.seq() == s@,
            v@ == s@.take(it.index()),
    {
        v.push(c);
    }
    v
}

/// The words of a line: its maximal runs of characters that are not white
/// space, from left to right.
///
/// Defined by the last character: white space adds nothing, a character that
/// follows a word character extends the last word, any other starts a word.
pub open spec fn words(s: Seq<char>) -> Seq<Seq<char>>
    decreases s.len(),
{
    if s.len() == 0 {
        Seq::empty()
    } else {
        let front = s.drop_last();
        let c = s.last();
        if is_space(c) {
            words(front)
        } else if front.len() > 0 && !is_space(front.last()) {
            let w = words(front);
            w.drop_last().push(w.last().push(c))
        } else {
            words(front).push(seq![c])
        }
    }
}

/// A half-open range of positions in a line.
#[derive(Clone, Copy, Debug, PartialEq, Eq)]
pub struct Span {
    pub start: usize,
    pub end: usize,
}

/// The text that each span covers.
pub open spec fn spans_text(s: Seq<char>, spans: Seq<Span>) -> Seq<Seq<char>> {
    Seq::new(spans.len(), |i: int| s.subrange(spans[i].start as int, spans[i].end as int))
}

/// Every span lies within a line of `len` characters and is not empty.
pub open spec fn spans_within(spans: Seq<Span>, len: nat) -> bool {
    forall|i: int|
        0 <= i < spans.len() ==> (#[trigger] spans[i]).start < spans[i].end && spans[i].end <= len
}

/// Cuts a line into its words.
pub fn split_words(chars: &Vec<char>) -> (spans: Vec<Span>)
    ensures
        spans_within(spans@, chars@.len()),
        spans_text(chars@, spans@) == words(chars@),
{
    let n = chars.len();
    let mut spans: Vec<Span> = Vec::new();
    let mut i: usize = 0;
    while i < n
        invariant
            n == chars@.len(),
            i <= n,
            spans_within(spans@, i as nat),
            spans_text(chars@, spans@) == words(chars@.take(i as int)),
            i == 0 || i == n || is_space(chars@[i - 1]) || is_space(chars@[i as int]),
        decreases n - i,
    {
        assert(chars@.take(i + 1).drop_last() == chars@.take(i as int));
        if char_is_space(chars[i]) {
            i += 1;
        } else {
            let start = i;
            let ghost before = spans_text(chars@, spans@);
            i += 1;
            assert(chars@.subrange(start as int, i as int) == seq![chars@[start as int]]);
            while i < n && !char_is_space(chars[i])
                invariant
                    n == chars@.len(),
                    start < i <= n,
                    before == spans_text(chars@, spans@),
                    spans_within(spans@, start as nat),
                    words(chars@.take(i as int)) == before.push(
                        chars@.subrange(start as int, i as int),
                    ),
                    !is_space(chars@[i - 1]),
                decreases n - i,
            {
                assert(chars@.take(i + 1).drop_last() == chars@.take(i as int));
                assert(chars@.subrange(start as int, i as int).push(chars@[i as int])
                    == chars@.subrange(start as int, i + 1));
                assert(before.push(chars@.subrange(start as int, i as int)).drop_last() == before);
                i += 1;
            }
            spans.push(Span { start, end: i });
            assert(spans_text(chars@, spans@) == before.push(
                chars@.subrange(start as int, i as int),
            ));
        }
    }
    assert(chars@.take(n as int) == chars@);
    spans
}

/// Whether the characters of a span are those of `text`.
pub fn span_is(chars: &Vec<char>, span: Span, text: &str) -> (b: bool)
    requires
        span.start <= span.end <= chars@.len(),
    ensures
        b == (chars@.subrange(span.start as int, span.end as int) == text@),
{
    let t = chars_of(text);
    let len = span.end - span.start;
    if t.len() != len {
        return false;
    }
    let ghost sub = chars@.subrange(span.start as int, span.end as int);
    let mut k: usize = 0;
    while k < len
        invariant
            t@ == text@,
            len == t@.len(),
            len == span.end - span.start,
            span.end <= chars@.len(),
            k <= len,
            sub == chars@.subrange(span.start as int, span.end as int),
            forall|j: int| 0 <= j < k ==> sub[j] == t@[j],
        decreases len - k,
    {
        if chars[span.start + k] != t[k] {
            assert(sub[k as int] == chars@[span.start + k]);
            return false;
        }
        k += 1;
    }
    assert(sub =~= t@);
    true
}

/// The text of a span, as a string of its own.
pub fn span_string(line: &str, span: Span) -> (s: String)
    requires
        span.start <= span.end <= line@.len(),
    ensures
        s@ == line@.subrange(span.start as int, span.end as int),
{
    line.substring_char(span.start, span.end).to_owned()
}

/// Whether two texts hold the same characters.
pub fn same_text(a: &str, b: &str) -> (r: bool)
    ensures
        r == (a@ == b@),
{
    let chars = chars_of(a);
    assert(chars@.subrange(0, chars@.len() as int) == a@);
    span_is(&chars, Span { start: 0, end: chars.len() }, b)
}

/// Words written one after the other with a single blank between them.
pub open spec fn join_words(ws: Seq<Seq<char>>) -> Seq<char>
    decreases ws.len(),
{
    if ws.len() == 0 {
        Seq::empty()
    } else if ws.len() == 1 {
        ws[0]
    } else {
        join_words(ws.drop_last()) + seq![' '] + ws.last()
    }
}

/// A word: one character or more, none of them white space.
pub open spec fn is_word(w: Seq<char>) -> bool {
    w.len() > 0 && forall|i: int| 0 <= i < w.len() ==> !is_space(#[trigger] w[i])
}

pub open spec fn all_words(ws: Seq<Seq<char>>) -> bool {
    forall|i: int| 0 <= i < ws.len() ==> is_word(#[trigger] ws[i])
}

/// The words of a line are words, and the last of them ends the line where
/// the line does not end in white space.
pub proof fn lemma_words_are_words(s: Seq<char>)
    ensures
        all_words(words(s)),
        s.len() > 0 && !is_space(s.last()) ==> words(s).len() > 0,
    decreases s.len(),
{
    if s.len() > 0 {
        let front = s.drop_last();
        let c = s.last();
        lemma_words_are_words(front);
        if is_space(c) {
        } else if front.len() > 0 && !is_space(front.last()) {
            let w = words(front);
            let grown = w.last().push(c);
            assert(is_word(w.last()));
            assert(is_word(grown)) by {
                assert forall|i: int| 0 <= i < grown.len() implies !is_space(
                    #[trigger] grown[i],
                ) by {
                    if i < w.last().len() {
                        assert(grown[i] == w.last()[i]);
                    }
                }
            }
            assert forall|i: int| 0 <= i < words(s).len() implies is_word(
                #[trigger] words(s)[i],
            ) by {
                if i < w.len() - 1 {
                    assert(words(s)[i] == w[i]);
                }
            }
        } else {
            assert(is_word(seq![c]));
            assert forall|i: int| 0 <= i < words(s).len() implies is_word(
                #[trigger] words(s)[i],
            ) by {
                if i < words(front).len() {
                    assert(words(s)[i] == words(front)[i]);
                }
            }
        }
    }
}

/// A word behind white space, or at the start of a line, is a word of its
/// own.
pub proof fn lemma_words_with_word(s: Seq<char>, t: Seq<char>)
    requires
        s.len() == 0 || is_space(s.last()),
        is_word(t),
    ensures
        words(s + t) == words(s).push(t),
    decreases t.len(),
{
    let line = s + t;
    let c = t.last();
    assert(line.last() == c);
    if t.len() == 1 {
        assert(line.drop_last() == s);
        assert(t == seq![c]);
    } else {
        let shorter = t.drop_last();
        assert(is_word(shorter)) by {
            assert forall|i: int| 0 <= i < shorter.len() implies !is_space(
                #[trigger] shorter[i],
            ) by {
                assert(shorter[i] == t[i]);
            }
        }
        lemma_words_with_word(s, shorter);
        assert(line.drop_last() == s + shorter);
        assert((s + shorter).last() == shorter.last());
        assert(shorter.last() == t[t.len() - 2]);
        assert(shorter.push(c) == t);
        assert(words(s).push(shorter).drop_last() == words(s));
    }
}

/// Words that are written with single blanks between them are read as the
/// same words.
pub proof fn lemma_words_of_joined(ws: Seq<Seq<char>>)
    requires
        all_words(ws),
    ensures
        words(join_words(ws)) == ws,
    decreases ws.len(),
{
    if ws.len() == 0 {
    } else if ws.len() == 1 {
        lemma_words_with_word(Seq::empty(), ws[0]);
        assert(Seq::<char>::empty() + ws[0] == ws[0]);
        assert(Seq::<Seq<char>>::empty().push(ws[0]) == ws);
    } else {
        let before = ws.drop_last();
        assert(all_words(before)) by {
            assert forall|i: int| 0 <= i < before.len() implies is_word(#[trigger] before[i]) by {
                assert(before[i] == ws[i]);
            }
        }
        lemma_words_of_joined(before);
        let s = join_words(before) + seq![' '];
        assert(s.drop_last() == join_words(before));
        assert(s.last() == ' ');
        assert(words(s) == before);
        lemma_words_with_word(s, ws.last());
        assert(before.push(ws.last()) == ws);
    }
}

/// Every span lies within a line of `len` characters.
pub open spec fn spans_valid(spans: Seq<Span>, len: nat) -> bool {
    forall|i: int|
        0 <= i < spans.len() ==> (#[trigger] spans[i]).start <= spans[i].end && spans[i].end <= len
}

/// The text of the given spans of a line, joined by single blanks.
pub fn join_spans(line: &str, spans: &Vec<Span>) -> (s: String)
    requires
        spans_valid(spans@, line@.len()),
    ensures
        s@ == join_words(spans_text(line@, spans@)),
{
    let mut s = String::new();
    let mut i: usize = 0;
    while i < spans.len()
        invariant
            i <= spans.len(),
            spans_valid(spans@, line@.len()),
            s@ == join_words(spans_text(line@, spans@.take(i as int))),
        decreases spans.len() - i,
    {
        let ghost before = spans_text(line@, spans@.take(i as int));
        let ghost after = spans_text(line@, spans@.take(i + 1));
        proof {
            reveal_strlit(" ");
            assert(" "@ =~= seq![' ']);
            assert(after.drop_last() =~= before);
            assert(after.last() == line@.subrange(spans@[i as int].start as int, spans@[i as int].end as int));
        }
        if i > 0 {
            s.append(" ");
        }
        let sp = spans[i];
        s.append(line.substring_char(sp.start, sp.end));
        i += 1;
    }
    assert(spans@.take(spans.len() as int) == spans@);
    s
}

/// The position of the first `c` in a text, or the length of the text where
/// it holds none.
pub open spec fn index_of(s: Seq<char>, c: char) -> int
    decreases s.len(),
{
    if s.len() == 0 || s[0] == c {
        0
    } else {
        1 + index_of(s.skip(1), c)
    }
}

pub proof fn lemma_index_of(s: Seq<char>, c: char, k: int)
    requires
        0 <= k <= s.len(),
        forall|j: int| 0 <= j < k ==> s[j] != c,
        k == s.len() || s[k] == c,
    ensures
        index_of(s, c) == k,
    decreases k,
{
    if k > 0 {
        lemma_index_of(s.skip(1), c, k - 1);
    }
}

pub proof fn lemma_index_of_bounds(s: Seq<char>, c: char)
    ensures
        0 <= index_of(s, c) <= s.len(),
        forall|j: int| 0 <= j < index_of(s, c) ==> s[j] != c,
        index_of(s, c) < s.len() ==> s[index_of(s, c)] == c,
    decreases s.len(),
{
    if s.len() == 0 || s[0] == c {
    } else {
        lemma_index_of_bounds(s.skip(1), c);
        assert forall|j: int| 0 <= j < index_of(s, c) implies s[j] != c by {
            if j > 0 {
                assert(s[j] == s.skip(1)[j - 1]);
            }
        }
        assert(index_of(s, c) < s.len() ==> s[index_of(s, c)] == s.skip(1)[index_of(s, c) - 1]);
    }
}

/// Finds the first `c` in `chars[start..end]`.
pub fn find_char(chars: &Vec<char>, start: usize, end: usize, c: char) -> (k: usize)
    requires
        start <= end <= chars@.len(),
    ensures
        start <= k <= end,
        k - start == index_of(chars@.subrange(start as int, end as int), c),
{
    let ghost sub = chars@.subrange(start as int, end as int);
    let mut k = start;
    while k < end && chars[k] != c
        invariant
            start <= k <= end <= chars@.len(),
            sub == chars@.subrange(start as int, end as int),
            forall|j: int| 0 <= j < k - start ==> sub[j] != c,
        decreases end - k,
    {
        assert(sub[k - start] == chars@[k as int]);
        k += 1;
    }
    proof {
        if k < end {
            assert(sub[k - start] == chars@[k as int]);
        }
        lemma_index_of(sub, c, k - start);
    }
    k
}

/// Whether a line begins with the characters of `prefix`.
pub open spec fn has_prefix(line: Seq<char>, prefix: Seq<char>) -> bool {
    prefix.len() <= line.len() && line.take(prefix.len() as int) == prefix
}

pub fn starts_with(chars: &Vec<char>, prefix: &str) -> (b: bool)
    ensures
        b == has_prefix(chars@, prefix@),
{
    let p = chars_of(prefix);
    if p.len() > chars.len() {
        return false;
    }
    span_is(chars, Span { start: 0, end: p.len() }, prefix)
}

} // verus!
