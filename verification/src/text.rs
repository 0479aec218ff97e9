//! Character-level text handling: whitespace classes, tokens, trimming and
//! substring search, all over sequences of `char`.

use vstd::prelude::*;

verus! {

/// The five characters that count as ASCII whitespace: space, tab, line
/// feed, form feed and carriage return.
pub open spec fn is_ascii_space(c: char) -> bool {
    c == ' ' || c == '\t' || c == '\n' || c == '\x0C' || c == '\r'
}

/// Executable test for [`is_ascii_space`].
pub fn ascii_space(c: char) -> (b: bool)
    ensures
        b == is_ascii_space(c),
{
    c == ' ' || c == '\t' || c == '\n' || c == '\x0C' || c == '\r'
}

/// The characters of `s`, in order.
pub fn chars_of(s: &str) -> (v: Vec<char>)
    ensures
        v@ == s@,
{
    let mut v: Vec<char> = Vec::new();
    for c in it: s.chars()
        invariant
            v@ == s@.take(it.index() as int),
            it.seq() == s@,
    {
        v.push(c);
    }
    v
}

/// Where the word that starts at `i` ends: the first position at or after `i`
/// that holds ASCII whitespace, or the length of `s`.
pub open spec fn word_end(s: Seq<char>, i: int) -> int
    decreases s.len() - i,
{
    if i < 0 || i >= s.len() || is_ascii_space(s[i]) {
        i
    } else {
        word_end(s, i + 1)
    }
}

/// The words of `s` from position `i` on: the maximal runs of characters
/// that are not ASCII whitespace, in order. A word's end lies after its
/// start ([`lemma_word_end_bounds`]), so the last branch is never taken.
pub open spec fn words_from(s: Seq<char>, i: int) -> Seq<Seq<char>>
    decreases s.len() - i,
{
    if i < 0 || i >= s.len() {
        Seq::empty()
    } else if is_ascii_space(s[i]) {
        words_from(s, i + 1)
    } else {
        let e = word_end(s, i);
        if i < e <= s.len() {
            seq![s.subrange(i, e)] + words_from(s, e)
        } else {
            Seq::empty()
        }
    }
}

/// The words of `s`: what splitting on runs of ASCII whitespace yields.
/// Leading and trailing whitespace gives no empty word.
pub open spec fn words(s: Seq<char>) -> Seq<Seq<char>> {
    words_from(s, 0)
}

/// The contents of a list of character vectors.
pub open spec fn word_views(ws: Seq<Vec<char>>) -> Seq<Seq<char>> {
    Seq::new(ws.len(), |k: int| ws[k]@)
}

/// A word's end lies after its start and within the text.
pub proof fn lemma_word_end_bounds(s: Seq<char>, i: int)
    requires
        0 <= i <= s.len(),
    ensures
        i <= word_end(s, i) <= s.len(),
        i < s.len() && !is_ascii_space(s[i]) ==> i < word_end(s, i),
    decreases s.len() - i,
{
    if i < s.len() && !is_ascii_space(s[i]) {
        lemma_word_end_bounds(s, i + 1);
    }
}

/// A word: at least one character, none of them ASCII whitespace.
pub open spec fn is_word(w: Seq<char>) -> bool {
    w.len() > 0 && forall|i: int| 0 <= i < w.len() ==> !is_ascii_space(w[i])
}

/// Whether the words of `s` stand in it with a single space between
/// neighbours and nothing else around them.
pub open spec fn single_spaced(s: Seq<char>) -> bool {
    joined(words(s)) == s
}

/// What stands before a position does not change where a word ends.
pub proof fn lemma_word_end_shift(p: Seq<char>, r: Seq<char>, j: int)
    requires
        0 <= j <= r.len(),
    ensures
        word_end(p + r, p.len() + j) == p.len() + word_end(r, j),
    decreases r.len() - j,
{
    if j < r.len() {
        assert((p + r)[p.len() + j] == r[j]);
        if !is_ascii_space(r[j]) {
            lemma_word_end_shift(p, r, j + 1);
        }
    }
}

/// What stands before a position does not change the words after it.
pub proof fn lemma_words_shift(p: Seq<char>, r: Seq<char>, j: int)
    requires
        0 <= j <= r.len(),
    ensures
        words_from(p + r, p.len() + j) == words_from(r, j),
    decreases r.len() - j,
{
    if j < r.len() {
        assert((p + r)[p.len() + j] == r[j]);
        if is_ascii_space(r[j]) {
            lemma_words_shift(p, r, j + 1);
        } else {
            lemma_word_end_shift(p, r, j);
            lemma_word_end_bounds(r, j);
            let e = word_end(r, j);
            lemma_words_shift(p, r, e);
            assert((p + r).subrange(p.len() + j, p.len() + e) =~= r.subrange(j, e));
        }
    }
}

/// A word ends where it is written out.
pub proof fn lemma_word_end_of_word(w: Seq<char>, r: Seq<char>, i: int)
    requires
        is_word(w),
        0 <= i <= w.len(),
        r.len() > 0 ==> is_ascii_space(r[0]),
    ensures
        word_end(w + r, i) == w.len(),
    decreases w.len() - i,
{
    if i < w.len() {
        assert((w + r)[i] == w[i]);
        lemma_word_end_of_word(w, r, i + 1);
    } else if r.len() > 0 {
        assert((w + r)[i] == r[0]);
    }
}

/// A word, one ASCII whitespace character and more text: the words are
/// that word and then those of the text.
pub proof fn lemma_words_of_word_then(w: Seq<char>, c: char, r: Seq<char>)
    requires
        is_word(w),
        is_ascii_space(c),
    ensures
        words(w + seq![c] + r) == seq![w] + words(r),
        words(w) == seq![w],
{
    let tail = seq![c] + r;
    let s = w + tail;
    assert(s =~= w + seq![c] + r);
    lemma_word_end_of_word(w, tail, 0);
    assert(s[0] == w[0]);
    assert(s.subrange(0, w.len() as int) =~= w);
    // After the word comes the separator, then the text.
    assert(s[w.len() as int] == c);
    let front = w + seq![c];
    assert(s =~= front + r);
    lemma_words_shift(front, r, 0);
    assert(words_from(s, w.len() as int) == words_from(s, w.len() as int + 1));

    let none = Seq::<char>::empty();
    assert(w + none =~= w);
    lemma_word_end_of_word(w, none, 0);
    assert(w.subrange(0, w.len() as int) =~= w);
    assert(words_from(w, w.len() as int) =~= Seq::<Seq<char>>::empty());
    assert(seq![w] + Seq::<Seq<char>>::empty() =~= seq![w]);
}

/// Splits `line` into its words.
pub fn split_words(line: &Vec<char>) -> (ws: Vec<Vec<char>>)
    ensures
        word_views(ws@) == words(line@),
{
    let mut ws: Vec<Vec<char>> = Vec::new();
    let mut i: usize = 0;
    assert(word_views(ws@) + words_from(line@, 0) =~= words(line@));
    while i < line.len()
        invariant
            i <= line.len(),
            word_views(ws@) + words_from(line@, i as int) == words(line@),
        decreases line.len() - i,
    {
        if ascii_space(line[i]) {
            i += 1;
        } else {
            let start: usize = i;
            let mut word: Vec<char> = Vec::new();
            while i < line.len() && !ascii_space(line[i])
                invariant
                    start <= i <= line.len(),
                    word@ == line@.subrange(start as int, i as int),
                    word_end(line@, i as int) == word_end(line@, start as int),
                decreases line.len() - i,
            {
                word.push(line[i]);
                i += 1;
                assert(word@ =~= line@.subrange(start as int, i as int));
            }
            proof {
                let ghost before = word_views(ws@);
                lemma_word_end_bounds(line@, start as int);
                assert(word_end(line@, start as int) == i);
                assert(word_views(ws@.push(word)) =~= before + seq![word@]);
                assert(before + seq![word@] + words_from(line@, i as int) =~= before + (seq![
                    word@,
                ] + words_from(line@, i as int)));
            }
            ws.push(word);
        }
    }
    assert(word_views(ws@) + words_from(line@, i as int) =~= word_views(ws@));
    ws
}

/// The words `ws` written one after another with a single space between
/// neighbours, and none at either end.
pub open spec fn joined(ws: Seq<Seq<char>>) -> Seq<char>
    decreases ws.len(),
{
    if ws.len() == 0 {
        Seq::empty()
    } else if ws.len() == 1 {
        ws[0]
    } else {
        joined(ws.drop_last()) + seq![' '] + ws.last()
    }
}

/// Joins the words `ws[from..to]` with single spaces.
pub fn join_words(ws: &Vec<Vec<char>>, from: usize, to: usize) -> (out: Vec<char>)
    requires
        from <= to <= ws.len(),
    ensures
        out@ == joined(word_views(ws@).subrange(from as int, to as int)),
{
    let mut out: Vec<char> = Vec::new();
    let mut k: usize = from;
    let ghost all = word_views(ws@);
    assert(all.subrange(from as int, from as int) =~= Seq::<Seq<char>>::empty());
    while k < to
        invariant
            from <= k <= to <= ws.len(),
            all == word_views(ws@),
            out@ == joined(all.subrange(from as int, k as int)),
        decreases to - k,
    {
        if k > from {
            out.push(' ');
        }
        let word = &ws[k];
        let mut j: usize = 0;
        let ghost base = out@;
        while j < word.len()
            invariant
                j <= word.len(),
                out@ == base + word@.take(j as int),
            decreases word.len() - j,
        {
            out.push(word[j]);
            j += 1;
            assert(out@ =~= base + word@.take(j as int));
        }
        proof {
            let next = all.subrange(from as int, k + 1);
            assert(word@.take(word.len() as int) =~= word@);
            assert(next.drop_last() =~= all.subrange(from as int, k as int));
            assert(next.last() == word@);
            if k == from {
                assert(out@ =~= word@);
            }
        }
        k += 1;
    }
    out
}

/// Whether `needle` stands in `hay` at position `i`.
pub open spec fn occurs_at(hay: Seq<char>, needle: Seq<char>, i: int) -> bool {
    0 <= i && i + needle.len() <= hay.len() && hay.subrange(i, i + needle.len()) == needle
}

/// Whether `needle` stands anywhere in `hay`.
pub open spec fn has_substring(hay: Seq<char>, needle: Seq<char>) -> bool {
    exists|i: int| occurs_at(hay, needle, i)
}

/// Whether `i` is the last position at which `needle` stands in `hay`.
pub open spec fn is_last_occurrence(hay: Seq<char>, needle: Seq<char>, i: int) -> bool {
    occurs_at(hay, needle, i) && forall|j: int| i < j ==> !occurs_at(hay, needle, j)
}

/// Tests whether `needle` stands in `hay` at position `i`.
pub fn matches_at(hay: &Vec<char>, needle: &Vec<char>, i: usize) -> (b: bool)
    requires
        i + needle.len() <= hay.len(),
    ensures
        b == occurs_at(hay@, needle@, i as int),
{
    let mut k: usize = 0;
    while k < needle.len()
        invariant
            k <= needle.len(),
            i + needle.len() <= hay.len(),
            forall|m: int| 0 <= m < k ==> hay@[i + m] == needle@[m],
        decreases needle.len() - k,
    {
        if hay[i + k] != needle[k] {
            assert(hay@.subrange(i as int, i + needle.len())[k as int] != needle@[k as int]);
            return false;
        }
        k += 1;
    }
    assert(hay@.subrange(i as int, i + needle.len()) =~= needle@);
    true
}

/// Case-sensitive substring test.
pub fn contains(hay: &Vec<char>, needle: &Vec<char>) -> (b: bool)
    ensures
        b == has_substring(hay@, needle@),
{
    if needle.len() > hay.len() {
        return false;
    }
    let last: usize = hay.len() - needle.len();
    let mut i: usize = 0;
    loop
        invariant
            i <= last,
            last == hay.len() - needle.len(),
            forall|j: int| 0 <= j < i ==> !occurs_at(hay@, needle@, j),
        decreases last - i,
    {
        if matches_at(hay, needle, i) {
            return true;
        }
        if i == last {
            return false;
        }
        i += 1;
    }
}

/// The last position at which `needle` stands in `hay`, if there is one.
pub fn find_last(hay: &Vec<char>, needle: &Vec<char>) -> (r: Option<usize>)
    ensures
        match r {
            Some(i) => is_last_occurrence(hay@, needle@, i as int),
            None => !has_substring(hay@, needle@),
        },
{
    if needle.len() > hay.len() {
        return None;
    }
    let mut i: usize = hay.len() - needle.len();
    loop
        invariant
            i + needle.len() <= hay.len(),
            forall|j: int| i < j ==> !occurs_at(hay@, needle@, j),
        decreases i,
    {
        if matches_at(hay, needle, i) {
            return Some(i);
        }
        if i == 0 {
            return None;
        }
        i -= 1;
    }
}

/// The characters with the Unicode property `White_Space`.
pub open spec fn is_space(c: char) -> bool {
    let u = c as u32;
    ||| 0x09 <= u <= 0x0D
    ||| u == 0x20
    ||| u == 0x85
    ||| u == 0xA0
    ||| u == 0x1680
    ||| 0x2000 <= u <= 0x200A
    ||| u == 0x2028
    ||| u == 0x2029
    ||| u == 0x202F
    ||| u == 0x205F
    ||| u == 0x3000
}

/// Executable test for [`is_space`].
pub fn space(c: char) -> (b: bool)
    ensures
        b == is_space(c),
{
    let u: u32 = c as u32;
    (0x09 <= u && u <= 0x0D) || u == 0x20 || u == 0x85 || u == 0xA0 || u == 0x1680 || (0x2000 <= u
        && u <= 0x200A) || u == 0x2028 || u == 0x2029 || u == 0x202F || u == 0x205F || u == 0x3000
}

/// `s` without the whitespace at its start and at its end.
pub open spec fn trimmed(s: Seq<char>) -> Seq<char>
    decreases s.len(),
{
    if s.len() == 0 {
        s
    } else if is_space(s[0]) {
        trimmed(s.drop_first())
    } else if is_space(s.last()) {
        trimmed(s.drop_last())
    } else {
        s
    }
}

/// The characters of `text[from..]` without surrounding whitespace.
pub fn trim_from(text: &Vec<char>, from: usize) -> (out: Vec<char>)
    requires
        from <= text.len(),
    ensures
        out@ == trimmed(text@.skip(from as int)),
{
    let mut a: usize = from;
    let mut b: usize = text.len();
    assert(text@.skip(from as int) =~= text@.subrange(a as int, b as int));
    while a < b && space(text[a])
        invariant
            from <= a <= b <= text.len(),
            trimmed(text@.skip(from as int)) == trimmed(text@.subrange(a as int, b as int)),
        decreases b - a,
    {
        assert(text@.subrange(a as int, b as int).drop_first() =~= text@.subrange(
            a + 1,
            b as int,
        ));
        a += 1;
    }
    while a < b && space(text[b - 1])
        invariant
            from <= a <= b <= text.len(),
            a < b ==> !is_space(text@[a as int]),
            trimmed(text@.skip(from as int)) == trimmed(text@.subrange(a as int, b as int)),
        decreases b - a,
    {
        assert(text@.subrange(a as int, b as int).drop_last() =~= text@.subrange(
            a as int,
            b - 1,
        ));
        b -= 1;
    }
    let mut out: Vec<char> = Vec::new();
    let mut k: usize = a;
    while k < b
        invariant
            a <= k <= b <= text.len(),
            out@ == text@.subrange(a as int, k as int),
        decreases b - k,
    {
        out.push(text[k]);
        k += 1;
        assert(out@ =~= text@.subrange(a as int, k as int));
    }
    out
}

/// Appends one character to a string by `String::push`: the string's
/// characters afterwards are those before, followed by `c`.
#[verifier::external_body]
fn push_char(s: &mut String, c: char)
    ensures
        final(s)@ == old(s)@.push(c),
{
    s.push(c);
}

/// The string that holds the characters of `chars`, in order.
pub fn string_of(chars: &Vec<char>) -> (s: String)
    ensures
        s@ == chars@,
{
    let mut s = String::new();
    let mut k: usize = 0;
    while k < chars.len()
        invariant
            k <= chars.len(),
            s@ == chars@.take(k as int),
        decreases chars.len() - k,
    {
        push_char(&mut s, chars[k]);
        k += 1;
        assert(s@ =~= chars@.take(k as int));
    }
    assert(chars@.take(chars.len() as int) =~= chars@);
    s
}

} // verus!
