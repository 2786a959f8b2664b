//! Text primitives over the characters of a string, each with an exact contract.
use vstd::prelude::*;

verus! {

/// `String::push` appends one character to the end of the string.
pub assume_specification[ String::push ](s: &mut String, c: char)
    ensures
        final(s)@ == old(s)@.push(c),
;

/// Whether `c` has the Unicode property `White_Space`.
pub open spec fn is_space(c: char) -> bool {
    ||| '\u{9}' <= c <= '\u{d}'
    ||| c == ' '
    ||| c == '\u{85}'
    ||| c == '\u{a0}'
    ||| c == '\u{1680}'
    ||| '\u{2000}' <= c <= '\u{200a}'
    ||| c == '\u{2028}'
    ||| c == '\u{2029}'
    ||| c == '\u{202f}'
    ||| c == '\u{205f}'
    ||| c == '\u{3000}'
}

/// Whether `pattern` stands in `s` at character `i`.
pub open spec fn occurs_at(s: Seq<char>, pattern: Seq<char>, i: int) -> bool {
    0 <= i && i + pattern.len() <= s.len() && s.subrange(i, i + pattern.len()) == pattern
}

/// Whether `pattern` stands anywhere in `s`.
pub open spec fn occurs(s: Seq<char>, pattern: Seq<char>) -> bool {
    exists|i: int| occurs_at(s, pattern, i)
}

/// `s` without its leading white space.
pub open spec fn left_trimmed(s: Seq<char>) -> Seq<char>
    decreases s.len(),
{
    if s.len() > 0 && is_space(s[0]) {
        left_trimmed(s.drop_first())
    } else {
        s
    }
}

/// `s` without its trailing white space.
pub open spec fn right_trimmed(s: Seq<char>) -> Seq<char>
    decreases s.len(),
{
    if s.len() > 0 && is_space(s.last()) {
        right_trimmed(s.drop_last())
    } else {
        s
    }
}

/// `s` without white space at either end.
pub open spec fn trimmed(s: Seq<char>) -> Seq<char> {
    right_trimmed(left_trimmed(s))
}

/// The longest prefix of `s` in which `stop` does not occur.
pub open spec fn until(s: Seq<char>, stop: char) -> Seq<char>
    decreases s.len(),
{
    if s.len() == 0 || s[0] == stop {
        seq![]
    } else {
        seq![s[0]] + until(s.drop_first(), stop)
    }
}

/// The longest prefix of `s` without white space.
pub open spec fn until_space(s: Seq<char>) -> Seq<char>
    decreases s.len(),
{
    if s.len() == 0 || is_space(s[0]) {
        seq![]
    } else {
        seq![s[0]] + until_space(s.drop_first())
    }
}

/// The words of `s`: its maximal runs without white space, in order.
pub open spec fn words(s: Seq<char>) -> Seq<Seq<char>>
    decreases s.len(),
{
    if s.len() == 0 {
        seq![]
    } else if is_space(s[0]) {
        words(s.drop_first())
    } else {
        let word = until_space(s);
        proof {
            lemma_until_space(s);
        }
        seq![word] + words(s.skip(word.len() as int))
    }
}

/// The parts of `s` between the occurrences of `separator`; always at least one.
pub open spec fn fields(s: Seq<char>, separator: char) -> Seq<Seq<char>>
    decreases s.len(),
{
    let head = until(s, separator);
    if head.len() < s.len() {
        seq![head] + fields(s.skip(head.len() as int + 1), separator)
    } else {
        seq![head]
    }
}

/// `s` with each occurrence of `from` replaced by `to`, scanning from the left
/// and going on behind each replacement.
pub open spec fn replaced(s: Seq<char>, from: Seq<char>, to: Seq<char>) -> Seq<char>
    decreases s.len(),
{
    if s.len() == 0 || from.len() == 0 {
        s
    } else if from.is_prefix_of(s) {
        to + replaced(s.skip(from.len() as int), from, to)
    } else {
        seq![s[0]] + replaced(s.drop_first(), from, to)
    }
}

/// `s` without its leading characters that are in `set`.
pub open spec fn left_stripped(s: Seq<char>, set: Seq<char>) -> Seq<char>
    decreases s.len(),
{
    if s.len() > 0 && set.contains(s[0]) {
        left_stripped(s.drop_first(), set)
    } else {
        s
    }
}

/// The number of bytes that `s` takes up.
pub open spec fn byte_length(s: Seq<char>) -> nat {
    vstd::utf8::encode_utf8(s).len()
}

/// The number of bytes that `c` takes up.
pub open spec fn width(c: char) -> nat {
    vstd::utf8::encode_scalar(c as u32).len()
}

/// How many characters of `s` lie wholly within its first `n` bytes.
pub open spec fn chars_within(s: Seq<char>, n: int) -> nat
    decreases s.len(),
{
    if s.len() == 0 || width(s[0]) > n {
        0
    } else {
        1 + chars_within(s.drop_first(), n - width(s[0]))
    }
}

/// The texts of a list of strings.
pub open spec fn views(v: Seq<String>) -> Seq<Seq<char>> {
    v.map_values(|s: String| s@)
}

/// The text of an optional string.
pub open spec fn opt_view(s: Option<String>) -> Option<Seq<char>> {
    match s {
        Some(t) => Some(t@),
        None => None,
    }
}

pub proof fn lemma_until(s: Seq<char>, stop: char)
    ensures
        until(s, stop).len() <= s.len(),
        until(s, stop) == s.take(until(s, stop).len() as int),
        forall|i: int| 0 <= i < until(s, stop).len() ==> s[i] != stop,
        until(s, stop).len() < s.len() ==> s[until(s, stop).len() as int] == stop,
    decreases s.len(),
{
    if s.len() == 0 || s[0] == stop {
        assert(s.take(0) =~= seq![]);
    } else {
        let t = s.drop_first();
        lemma_until(t, stop);
        let n = until(t, stop).len() as int;
        assert(until(s, stop) =~= s.take(n + 1)) by {
            assert(seq![s[0]] + t.take(n) =~= s.take(n + 1));
        }
        assert forall|i: int| 0 <= i < n + 1 implies s[i] != stop by {
            if i > 0 {
                assert(s[i] == t[i - 1]);
            }
        }
    }
}

/// `until` is the prefix of the given length when that prefix is free of `stop`
/// and ends where `stop` or the end of the text stands.
pub proof fn lemma_until_is(s: Seq<char>, stop: char, n: int)
    requires
        0 <= n <= s.len(),
        forall|i: int| 0 <= i < n ==> s[i] != stop,
        n < s.len() ==> s[n] == stop,
    ensures
        until(s, stop) == s.take(n),
{
    lemma_until(s, stop);
    let m = until(s, stop).len() as int;
    if m < n {
        assert(s[m] == stop);
    } else if n < m {
        assert(s[n] != stop);
    }
}

pub proof fn lemma_until_space(s: Seq<char>)
    ensures
        until_space(s).len() <= s.len(),
        until_space(s) == s.take(until_space(s).len() as int),
        forall|i: int| 0 <= i < until_space(s).len() ==> !is_space(s[i]),
        until_space(s).len() < s.len() ==> is_space(s[until_space(s).len() as int]),
        s.len() > 0 && !is_space(s[0]) ==> until_space(s).len() > 0,
    decreases s.len(),
{
    if s.len() == 0 || is_space(s[0]) {
        assert(s.take(0) =~= seq![]);
    } else {
        let t = s.drop_first();
        lemma_until_space(t);
        let n = until_space(t).len() as int;
        assert(until_space(s) =~= s.take(n + 1)) by {
            assert(seq![s[0]] + t.take(n) =~= s.take(n + 1));
        }
        assert forall|i: int| 0 <= i < n + 1 implies !is_space(s[i]) by {
            if i > 0 {
                assert(s[i] == t[i - 1]);
            }
        }
    }
}

pub proof fn lemma_until_space_is(s: Seq<char>, n: int)
    requires
        0 <= n <= s.len(),
        forall|i: int| 0 <= i < n ==> !is_space(s[i]),
        n < s.len() ==> is_space(s[n]),
    ensures
        until_space(s) == s.take(n),
{
    lemma_until_space(s);
    let m = until_space(s).len() as int;
    if m < n {
        assert(is_space(s[m]));
    } else if n < m {
        assert(!is_space(s[n]));
    }
}

proof fn lemma_encode_concat(a: Seq<char>, b: Seq<char>)
    ensures
        vstd::utf8::encode_utf8(a + b) == vstd::utf8::encode_utf8(a) + vstd::utf8::encode_utf8(b),
    decreases a.len(),
{
    if a.len() == 0 {
        assert(a + b =~= b);
        assert(vstd::utf8::encode_utf8(a) + vstd::utf8::encode_utf8(b) =~= vstd::utf8::encode_utf8(
            b,
        ));
    } else {
        lemma_encode_concat(a.drop_first(), b);
        assert((a + b).drop_first() =~= a.drop_first() + b);
        assert(vstd::utf8::encode_utf8(a + b) =~= vstd::utf8::encode_utf8(a)
            + vstd::utf8::encode_utf8(b));
    }
}

/// The number of bytes of `s`.
pub fn byte_len(s: &str) -> (n: usize)
    ensures
        n == byte_length(s@),
{
    s.as_bytes().len()
}

pub proof fn lemma_byte_length(s: Seq<char>, k: int)
    requires
        0 <= k <= s.len(),
    ensures
        byte_length(s.take(k)) <= byte_length(s),
        k < s.len() ==> byte_length(s.take(k + 1)) == byte_length(s.take(k)) + width(s[k]),
        byte_length(s.take(k)) <= 4 * k,
    decreases k,
{
    assert(s.take(k) + s.skip(k) =~= s);
    lemma_encode_concat(s.take(k), s.skip(k));
    if k < s.len() {
        lemma_one(s[k]);
        assert(s.take(k + 1) =~= s.take(k) + seq![s[k]]);
        lemma_encode_concat(s.take(k), seq![s[k]]);
    }
    if k > 0 {
        lemma_byte_length(s, k - 1);
    } else {
        assert(s.take(0) =~= Seq::empty());
    }
}

proof fn lemma_one(c: char)
    ensures
        byte_length(seq![c]) == width(c),
        1 <= width(c) <= 4,
{
    assert(seq![c].drop_first() =~= Seq::empty());
    assert(vstd::utf8::encode_utf8(seq![c].drop_first()) =~= Seq::empty());
}

/// Within the bytes of the first `k` characters lie `k` characters.
pub proof fn lemma_chars_within(s: Seq<char>, k: int)
    requires
        0 <= k <= s.len(),
    ensures
        chars_within(s, byte_length(s.take(k)) as int) == k,
    decreases s.len(),
{
    if k == 0 {
        assert(s.take(0) =~= Seq::empty());
        if s.len() > 0 {
            lemma_one(s[0]);
        }
    } else {
        let rest = s.drop_first();
        lemma_one(s[0]);
        assert(s.take(k) =~= seq![s[0]] + rest.take(k - 1));
        lemma_encode_concat(seq![s[0]], rest.take(k - 1));
        lemma_chars_within(rest, k - 1);
    }
}

/// The characters within the first `n` bytes take up at most `n` bytes, and with one more
/// they would take up more.
pub proof fn lemma_chars_within_fit(s: Seq<char>, n: int)
    requires
        0 <= n,
    ensures
        chars_within(s, n) <= s.len(),
        byte_length(s.take(chars_within(s, n) as int)) <= n,
        chars_within(s, n) < s.len() ==> n < byte_length(s.take(chars_within(s, n) as int + 1)),
    decreases s.len(),
{
    let k = chars_within(s, n) as int;
    if s.len() > 0 {
        lemma_one(s[0]);
        if width(s[0]) <= n {
            let rest = s.drop_first();
            lemma_chars_within_fit(rest, n - width(s[0]));
            assert(s.take(k) =~= seq![s[0]] + rest.take(k - 1));
            lemma_encode_concat(seq![s[0]], rest.take(k - 1));
            if k < s.len() {
                assert(s.take(k + 1) =~= seq![s[0]] + rest.take(k));
                lemma_encode_concat(seq![s[0]], rest.take(k));
            }
        } else {
            assert(s.take(0) =~= Seq::empty());
            assert(s.take(1) =~= seq![s[0]]);
        }
    } else {
        assert(s.take(0) =~= Seq::empty());
    }
}

/// Of ASCII text every byte is a character.
pub proof fn lemma_ascii_bytes(s: Seq<char>, n: int)
    requires
        vstd::utf8::is_ascii_chars(s),
        0 <= n <= s.len(),
    ensures
        byte_length(s.take(n)) == n,
        chars_within(s, n) == n,
{
    vstd::utf8::is_ascii_chars_encode_utf8(s.take(n));
    lemma_chars_within(s, n);
}

/// The number of bytes that `c` takes up.
fn char_width(c: char) -> (w: usize)
    ensures
        w == width(c),
        1 <= w <= 4,
{
    let v: u32 = c as u32;
    if v <= 0x7f {
        1
    } else if v <= 0x7ff {
        2
    } else if v <= 0xffff {
        3
    } else {
        4
    }
}

/// How many characters of `s` lie wholly within its first `n` bytes.
pub fn count_within(s: &Vec<char>, n: usize) -> (k: usize)
    ensures
        k == chars_within(s@, n as int),
        k <= s@.len(),
{
    let mut k: usize = 0;
    let mut left: usize = n;
    assert(s@.skip(0) =~= s@);
    while k < s.len()
        invariant
            k <= s@.len(),
            k + chars_within(s@.skip(k as int), left as int) == chars_within(s@, n as int),
        decreases s@.len() - k,
    {
        let ghost rest = s@.skip(k as int);
        assert(rest[0] == s@[k as int]);
        assert(rest.drop_first() =~= s@.skip(k + 1));
        let w: usize = char_width(s[k]);
        if w > left {
            return k;
        }
        left = left - w;
        k = k + 1;
    }
    k
}

/// The words behind a word and a space are the words of the rest.
pub proof fn lemma_first_word(word: Seq<char>, rest: Seq<char>)
    requires
        word.len() > 0,
        forall|i: int| 0 <= i < word.len() ==> !is_space(#[trigger] word[i]),
        rest.len() > 0 ==> is_space(rest[0]),
    ensures
        words(word + rest) == seq![word] + words(rest),
{
    let s = word + rest;
    let n = word.len() as int;
    assert forall|i: int| 0 <= i < n implies !is_space(s[i]) by {
        assert(s[i] == word[i]);
    }
    lemma_until_space_is(s, n);
    assert(s.take(n) =~= word);
    assert(s.skip(n) =~= rest);
    assert(!is_space(s[0]));
}

/// Trimming takes white space from both ends, all of it, and nothing else.
pub proof fn law_trimming(s: Seq<char>) -> (ends: (Seq<char>, Seq<char>))
    ensures
        s == ends.0 + trimmed(s) + ends.1,
        forall|i: int| 0 <= i < ends.0.len() ==> is_space(#[trigger] ends.0[i]),
        forall|i: int| 0 <= i < ends.1.len() ==> is_space(#[trigger] ends.1[i]),
        trimmed(s).len() > 0 ==> !is_space(trimmed(s)[0]) && !is_space(trimmed(s).last()),
{
    let a = law_left_trimming(s);
    let t = left_trimmed(s);
    let b = law_right_trimming(t);
    assert(s =~= a + trimmed(s) + b);
    if trimmed(s).len() > 0 {
        assert(t[0] == trimmed(s)[0]);
    }
    (a, b)
}

/// Trimming on the left takes the white space that a text begins with.
pub proof fn law_left_trimming(s: Seq<char>) -> (start: Seq<char>)
    ensures
        s == start + left_trimmed(s),
        forall|i: int| 0 <= i < start.len() ==> is_space(#[trigger] start[i]),
        left_trimmed(s).len() > 0 ==> !is_space(left_trimmed(s)[0]),
    decreases s.len(),
{
    if s.len() > 0 && is_space(s[0]) {
        let rest = law_left_trimming(s.drop_first());
        let start = seq![s[0]] + rest;
        assert(s =~= seq![s[0]] + (rest + left_trimmed(s)));
        assert(s =~= start + left_trimmed(s));
        start
    } else {
        assert(s =~= Seq::<char>::empty() + s);
        Seq::empty()
    }
}

/// Trimming on the right takes the white space that a text ends with.
pub proof fn law_right_trimming(s: Seq<char>) -> (end: Seq<char>)
    ensures
        s == right_trimmed(s) + end,
        forall|i: int| 0 <= i < end.len() ==> is_space(#[trigger] end[i]),
        right_trimmed(s).len() > 0 ==> !is_space(right_trimmed(s).last()),
    decreases s.len(),
{
    if s.len() > 0 && is_space(s.last()) {
        let rest = law_right_trimming(s.drop_last());
        let end = rest.push(s.last());
        assert(s =~= (right_trimmed(s) + rest).push(s.last()));
        assert(s =~= right_trimmed(s) + end);
        end
    } else {
        assert(s =~= s + Seq::<char>::empty());
        Seq::empty()
    }
}

/// A text is cut before the first of the characters it is cut at, and not at all where there
/// is none.
pub proof fn law_until(head: Seq<char>, stop: char, rest: Seq<char>)
    requires
        !head.contains(stop),
    ensures
        until(head + seq![stop] + rest, stop) == head,
        until(head, stop) == head,
{
    let s = head + seq![stop] + rest;
    let n = head.len() as int;
    assert forall|i: int| 0 <= i < n implies s[i] != stop && head[i] != stop by {
        assert(head.contains(head[i]));
    }
    lemma_until_is(s, stop, n);
    lemma_until_is(head, stop, n);
    assert(s.take(n) =~= head);
    assert(head.take(n) =~= head);
}

/// The first word of a text ends where white space or the text's end comes.
pub proof fn law_until_space(head: Seq<char>, rest: Seq<char>)
    requires
        forall|i: int| 0 <= i < head.len() ==> !is_space(#[trigger] head[i]),
        rest.len() > 0 ==> is_space(rest[0]),
    ensures
        until_space(head + rest) == head,
{
    let s = head + rest;
    let n = head.len() as int;
    assert forall|i: int| 0 <= i < n implies !is_space(s[i]) by {
        assert(s[i] == head[i]);
    }
    lemma_until_space_is(s, n);
    assert(s.take(n) =~= head);
}

/// The words of a text are its runs without white space: a run in front is the first word,
/// white space in front adds none, and nothing has none.
pub proof fn law_words(word: Seq<char>, gap: Seq<char>, rest: Seq<char>)
    requires
        word.len() > 0,
        forall|i: int| 0 <= i < word.len() ==> !is_space(#[trigger] word[i]),
        forall|i: int| 0 <= i < gap.len() ==> is_space(#[trigger] gap[i]),
    ensures
        words(gap + rest) == words(rest),
        words(word) == seq![word],
        gap.len() > 0 ==> words(word + (gap + rest)) == seq![word] + words(rest),
        words(Seq::empty()).len() == 0,
    decreases gap.len(),
{
    let none = Seq::<char>::empty();
    lemma_first_word(word, none);
    assert(word + none =~= word);
    assert(words(none) =~= seq![]);
    assert(seq![word] + words(none) =~= seq![word]);
    if gap.len() == 0 {
        assert(gap + rest =~= rest);
    } else {
        law_words(word, gap.drop_first(), rest);
        assert((gap + rest).drop_first() =~= gap.drop_first() + rest);
        lemma_first_word(word, gap + rest);
    }
}

/// The words of two texts that white space parts are the words of the one and then those of
/// the other.
pub proof fn law_words_of_parts(a: Seq<char>, b: Seq<char>)
    requires
        a.len() == 0 || is_space(a.last()) || b.len() == 0 || is_space(b[0]),
    ensures
        words(a + b) == words(a) + words(b),
    decreases a.len(),
{
    let s = a + b;
    if a.len() == 0 {
        assert(s =~= b);
        assert(words(a) + words(b) =~= words(b));
    } else if b.len() == 0 {
        assert(s =~= a);
        assert(words(a) + words(b) =~= words(a));
    } else if is_space(a[0]) {
        law_words_of_parts(a.drop_first(), b);
        assert(s.drop_first() =~= a.drop_first() + b);
    } else {
        lemma_until_space(a);
        let n = until_space(a).len() as int;
        if n < a.len() {
            assert forall|i: int| 0 <= i < n implies !is_space(s[i]) by {
                assert(s[i] == a[i]);
            }
            assert(s[n] == a[n]);
            lemma_until_space_is(s, n);
            assert(s.take(n) =~= a.take(n));
            let more = a.skip(n);
            law_words_of_parts(more, b);
            assert(s.skip(n) =~= more + b);
            assert(words(s) =~= words(a) + words(b));
        } else {
            assert(!is_space(a[a.len() - 1]));
            lemma_first_word(a, b);
            lemma_first_word(a, seq![]);
            assert(a + Seq::<char>::empty() =~= a);
            assert(words(a) =~= seq![a]);
        }
    }
}

/// A text is divided at each separator: what stands before the first one is the first part,
/// and the parts of the rest follow.
pub proof fn law_fields(head: Seq<char>, separator: char, rest: Seq<char>)
    requires
        !head.contains(separator),
    ensures
        fields(head + seq![separator] + rest, separator) == seq![head] + fields(rest, separator),
        fields(head, separator) == seq![head],
{
    let s = head + seq![separator] + rest;
    law_until(head, separator, rest);
    assert(s.skip(head.len() as int + 1) =~= rest);
}

/// Replacing leaves a text alone in which the words do not stand, and puts the new words in
/// the place of the old ones where they do.
pub proof fn law_replaced(s: Seq<char>, from: Seq<char>, to: Seq<char>)
    requires
        from.len() > 0,
    ensures
        !occurs(s, from) ==> replaced(s, from, to) == s,
        replaced(from + s, from, to) == to + replaced(s, from, to),
    decreases s.len(),
{
    let t = from + s;
    assert(t.subrange(0, from.len() as int) =~= from);
    assert(from.is_prefix_of(t));
    assert(t.skip(from.len() as int) =~= s);
    if s.len() > 0 && !occurs(s, from) {
        let rest = s.drop_first();
        if from.is_prefix_of(s) {
            assert(s.subrange(0, from.len() as int) =~= from);
            assert(occurs_at(s, from, 0));
        }
        if occurs(rest, from) {
            let i = choose|i: int| occurs_at(rest, from, i);
            assert(rest.subrange(i, i + from.len()) =~= s.subrange(i + 1, i + 1 + from.len()));
            assert(occurs_at(s, from, i + 1));
        }
        law_replaced(rest, from, to);
        assert(seq![s[0]] + rest =~= s);
    }
}

/// Words that stand in a text first behind `head` are replaced there, and what stands before
/// them stays.
pub proof fn law_replaced_behind(
    head: Seq<char>,
    from: Seq<char>,
    to: Seq<char>,
    tail: Seq<char>,
)
    requires
        from.len() > 0,
        !occurs(head + from.drop_last(), from),
    ensures
        replaced(head + from + tail, from, to) == head + to + replaced(tail, from, to),
    decreases head.len(),
{
    let s = head + from + tail;
    let r = replaced(tail, from, to);
    if head.len() == 0 {
        assert(s =~= from + tail);
        law_replaced(tail, from, to);
        assert(head + to + r =~= to + r);
    } else {
        let fewer = head.drop_first();
        lemma_no_earlier(head, from, tail);
        law_replaced_behind(fewer, from, to, tail);
        assert(s.drop_first() =~= fewer + from + tail);
        let x = fewer + to + r;
        assert(replaced(s, from, to) == seq![s[0]] + x);
        assert(seq![s[0]] + x =~= head + to + r);
    }
}

proof fn lemma_no_earlier(head: Seq<char>, from: Seq<char>, tail: Seq<char>)
    requires
        head.len() > 0,
        from.len() > 0,
        !occurs(head + from.drop_last(), from),
    ensures
        !from.is_prefix_of(head + from + tail),
        !occurs(head.drop_first() + from.drop_last(), from),
{
    let before = head + from.drop_last();
    let rest = head.drop_first() + from.drop_last();
    assert(rest =~= before.drop_first());
    if occurs(rest, from) {
        lemma_occurs_behind(before, from);
    }
    let s = head + from + tail;
    if from.is_prefix_of(s) {
        lemma_occurs_in_front(s, before, from);
    }
}

proof fn lemma_occurs_behind(s: Seq<char>, pattern: Seq<char>)
    requires
        s.len() > 0,
        occurs(s.drop_first(), pattern),
    ensures
        occurs(s, pattern),
{
    let i = choose|i: int| occurs_at(s.drop_first(), pattern, i);
    let n = pattern.len() as int;
    assert(s.drop_first().subrange(i, i + n) =~= s.subrange(i + 1, i + 1 + n));
    assert(occurs_at(s, pattern, i + 1));
}

proof fn lemma_occurs_in_front(s: Seq<char>, t: Seq<char>, pattern: Seq<char>)
    requires
        pattern.is_prefix_of(s),
        pattern.len() <= t.len() <= s.len(),
        forall|i: int| 0 <= i < pattern.len() ==> s[i] == t[i],
    ensures
        occurs(t, pattern),
{
    let n = pattern.len() as int;
    assert(t.subrange(0, n) =~= s.subrange(0, n));
    assert(occurs_at(t, pattern, 0));
}

/// Stripping takes the characters of the set that a text begins with, all of them, and
/// nothing else.
pub proof fn law_left_stripped(s: Seq<char>, set: Seq<char>) -> (start: Seq<char>)
    ensures
        s == start + left_stripped(s, set),
        forall|i: int| 0 <= i < start.len() ==> set.contains(#[trigger] start[i]),
        left_stripped(s, set).len() > 0 ==> !set.contains(left_stripped(s, set)[0]),
    decreases s.len(),
{
    if s.len() > 0 && set.contains(s[0]) {
        let rest = law_left_stripped(s.drop_first(), set);
        let start = seq![s[0]] + rest;
        assert(s =~= seq![s[0]] + (rest + left_stripped(s, set)));
        assert(s =~= start + left_stripped(s, set));
        start
    } else {
        assert(s =~= Seq::<char>::empty() + s);
        Seq::empty()
    }
}

/// A text stands in another one exactly where that one is the text with something before it
/// and something behind it.
pub proof fn law_occurs(head: Seq<char>, pattern: Seq<char>, tail: Seq<char>, s: Seq<char>) -> (at:
    int)
    ensures
        occurs(head + pattern + tail, pattern),
        occurs_at(head + pattern + tail, pattern, head.len() as int),
        occurs(s, pattern) ==> 0 <= at && at + pattern.len() <= s.len() && s == s.take(at)
            + pattern + s.skip(at + pattern.len()),
{
    let t = head + pattern + tail;
    let n = head.len() as int;
    assert(t.subrange(n, n + pattern.len()) =~= pattern);
    assert(occurs_at(t, pattern, n));
    let at = choose|i: int| occurs_at(s, pattern, i);
    if occurs(s, pattern) {
        assert(s =~= s.take(at) + s.subrange(at, at + pattern.len()) + s.skip(at + pattern.len()));
    }
    at
}

/// The bytes of a text are those of its parts, and a character takes up one to four of them
/// by its code point.
pub proof fn law_byte_length(a: Seq<char>, b: Seq<char>, c: char)
    ensures
        byte_length(a + b) == byte_length(a) + byte_length(b),
        byte_length(Seq::<char>::empty()) == 0,
        byte_length(seq![c]) == if c as int <= 0x7f {
            1nat
        } else if c as int <= 0x7ff {
            2
        } else if c as int <= 0xffff {
            3
        } else {
            4
        },
{
    lemma_encode_concat(a, b);
    lemma_one(c);
}

/// As many characters lie within the bytes of a text's head as the head has.
pub proof fn law_characters_of_a_head(head: Seq<char>, tail: Seq<char>)
    ensures
        chars_within(head + tail, byte_length(head) as int) == head.len(),
{
    let s = head + tail;
    lemma_chars_within(s, head.len() as int);
    assert(s.take(head.len() as int) =~= head);
}

/// The texts of strings are those of the strings, in their order.
pub proof fn law_views(list: Seq<String>, s: String)
    ensures
        views(list).len() == list.len(),
        forall|i: int| 0 <= i < list.len() ==> #[trigger] views(list)[i] == list[i]@,
        opt_view(Some(s)) == Some(s@),
        opt_view(None) is None,
{
}

/// What `String::from_utf8_lossy` makes of `bytes`.
pub uninterp spec fn lossy(bytes: Seq<u8>) -> Seq<char>;

/// `String::from_utf8_lossy`: the text that `bytes` encode, with replacement characters for
/// what is not valid; a function of the bytes alone.
#[verifier::external_body]
pub(crate) fn decode_lossy(bytes: &[u8]) -> (s: String)
    ensures
        s@ == lossy(bytes@),
        vstd::utf8::valid_utf8(bytes@) ==> s@ == vstd::utf8::decode_utf8(bytes@),
{
    String::from_utf8_lossy(bytes).into_owned()
}

/// The characters of `s`, in order.
pub fn chars_of(s: &str) -> (chars: Vec<char>)
    ensures
        chars@ == s@,
{
    let mut chars: Vec<char> = Vec::new();
    for c in it: s.chars()
        invariant
            it.seq() == s@,
            chars@ == s@.take(it.index()),
    {
        chars.push(c);
        assert(s@.take(it.index() + 1) =~= s@.take(it.index()).push(c));
    }
    assert(s@.take(s@.len() as int) =~= s@);
    chars
}

/// The text made of `chars[from..to]`.
pub fn string_of(chars: &Vec<char>, from: usize, to: usize) -> (s: String)
    requires
        from <= to <= chars@.len(),
    ensures
        s@ == chars@.subrange(from as int, to as int),
{
    let mut s = String::new();
    let mut i: usize = from;
    while i < to
        invariant
            from <= i <= to <= chars@.len(),
            s@ == chars@.subrange(from as int, i as int),
        decreases to - i,
    {
        s.push(chars[i]);
        assert(chars@.subrange(from as int, i + 1) =~= chars@.subrange(from as int, i as int).push(
            chars@[i as int],
        ));
        i = i + 1;
    }
    s
}

/// Whether `c` is white space.
pub fn space(c: char) -> (yes: bool)
    ensures
        yes == is_space(c),
{
    ('\u{9}' <= c && c <= '\u{d}') || c == ' ' || c == '\u{85}' || c == '\u{a0}' || c == '\u{1680}'
        || ('\u{2000}' <= c && c <= '\u{200a}') || c == '\u{2028}' || c == '\u{2029}' || c
        == '\u{202f}' || c == '\u{205f}' || c == '\u{3000}'
}

/// Whether `pattern` stands in `s` at character `i`.
pub fn matches_at(s: &Vec<char>, pattern: &Vec<char>, i: usize) -> (yes: bool)
    requires
        i <= s@.len(),
    ensures
        yes == occurs_at(s@, pattern@, i as int),
{
    if pattern.len() > s.len() - i {
        return false;
    }
    let n: usize = s.len();
    let mut k: usize = 0;
    while k < pattern.len()
        invariant
            n == s@.len(),
            k <= pattern@.len(),
            i + pattern@.len() <= n,
            forall|j: int| 0 <= j < k ==> s@[i + j] == pattern@[j],
        decreases pattern@.len() - k,
    {
        if s[i + k] != pattern[k] {
            assert(s@.subrange(i as int, i + pattern@.len())[k as int] != pattern@[k as int]);
            return false;
        }
        k = k + 1;
    }
    assert(s@.subrange(i as int, i + pattern@.len()) =~= pattern@);
    true
}

/// Whether two texts are the same.
pub fn same(a: &str, b: &str) -> (yes: bool)
    ensures
        yes == (a@ == b@),
{
    let s = chars_of(a);
    let p = chars_of(b);
    if s.len() != p.len() {
        return false;
    }
    let yes = matches_at(&s, &p, 0);
    assert(a@.subrange(0, a@.len() as int) =~= a@);
    yes
}

/// Whether `s` starts with `prefix`.
pub fn starts_with(s: &str, prefix: &str) -> (yes: bool)
    ensures
        yes == prefix@.is_prefix_of(s@),
{
    let chars = chars_of(s);
    let p = chars_of(prefix);
    let yes = matches_at(&chars, &p, 0);
    yes
}

/// What follows `prefix` in `s`, where `s` starts with it.
pub fn strip_prefix<'a>(s: &'a str, prefix: &str) -> (rest: Option<&'a str>)
    ensures
        prefix@.is_prefix_of(s@) <==> rest is Some,
        rest matches Some(r) ==> r@ == s@.skip(prefix@.len() as int),
{
    if starts_with(s, prefix) {
        let n = prefix.unicode_len();
        let m = s.unicode_len();
        let r = s.substring_char(n, m);
        assert(r@ =~= s@.skip(prefix@.len() as int));
        Some(r)
    } else {
        None
    }
}

/// What precedes `suffix` in `s`, where `s` ends with it.
pub fn strip_suffix<'a>(s: &'a str, suffix: &str) -> (rest: Option<&'a str>)
    ensures
        suffix@.is_suffix_of(s@) <==> rest is Some,
        rest matches Some(r) ==> r@ == s@.take(s@.len() - suffix@.len()),
{
    let chars = chars_of(s);
    let p = chars_of(suffix);
    if p.len() > chars.len() {
        return None;
    }
    let k = chars.len() - p.len();
    if matches_at(&chars, &p, k) {
        let r = s.substring_char(0, k);
        assert(r@ =~= s@.take(k as int));
        Some(r)
    } else {
        None
    }
}

/// The first position in `s`, in characters, at which `pattern` stands.
pub fn find_chars(s: &Vec<char>, pattern: &Vec<char>) -> (found: Option<usize>)
    ensures
        found is Some <==> occurs(s@, pattern@),
        found matches Some(i) ==> {
            &&& occurs_at(s@, pattern@, i as int)
            &&& forall|j: int| 0 <= j < i ==> !occurs_at(s@, pattern@, j)
        },
{
    let mut i: usize = 0;
    loop
        invariant
            i <= s@.len(),
            forall|j: int| 0 <= j < i ==> !occurs_at(s@, pattern@, j),
        decreases s@.len() - i,
    {
        if matches_at(s, pattern, i) {
            return Some(i);
        }
        if i == s.len() {
            assert forall|j: int| !occurs_at(s@, pattern@, j) by {
                if j > s@.len() {
                    assert(!occurs_at(s@, pattern@, j));
                }
            }
            return None;
        }
        i = i + 1;
    }
}

/// The first position in `s`, in characters, at which `pattern` stands.
pub fn find(s: &str, pattern: &str) -> (found: Option<usize>)
    ensures
        found is Some <==> occurs(s@, pattern@),
        found matches Some(i) ==> {
            &&& occurs_at(s@, pattern@, i as int)
            &&& forall|j: int| 0 <= j < i ==> !occurs_at(s@, pattern@, j)
        },
{
    find_chars(&chars_of(s), &chars_of(pattern))
}

/// Whether `pattern` stands anywhere in `s`.
pub fn contains(s: &str, pattern: &str) -> (yes: bool)
    ensures
        yes == occurs(s@, pattern@),
{
    find(s, pattern).is_some()
}

/// `s` without its leading white space.
pub fn trim_start<'a>(s: &'a str) -> (r: &'a str)
    ensures
        r@ == left_trimmed(s@),
{
    let chars = chars_of(s);
    let mut i: usize = 0;
    assert(s@.skip(0) =~= s@);
    while i < chars.len() && space(chars[i])
        invariant
            chars@ == s@,
            i <= chars@.len(),
            left_trimmed(s@) == left_trimmed(s@.skip(i as int)),
        decreases chars@.len() - i,
    {
        assert(s@.skip(i as int).drop_first() =~= s@.skip(i + 1));
        i = i + 1;
    }
    let n = chars.len();
    let r = s.substring_char(i, n);
    assert(r@ =~= s@.skip(i as int));
    r
}

/// `s` without its trailing white space.
pub fn trim_end<'a>(s: &'a str) -> (r: &'a str)
    ensures
        r@ == right_trimmed(s@),
{
    let chars = chars_of(s);
    let mut n: usize = chars.len();
    assert(s@.take(n as int) =~= s@);
    while n > 0 && space(chars[n - 1])
        invariant
            chars@ == s@,
            n <= chars@.len(),
            right_trimmed(s@) == right_trimmed(s@.take(n as int)),
        decreases n,
    {
        assert(s@.take(n as int).drop_last() =~= s@.take(n - 1));
        n = n - 1;
    }
    let r = s.substring_char(0, n);
    assert(r@ =~= s@.take(n as int));
    r
}

/// `s` without white space at either end.
pub fn trim<'a>(s: &'a str) -> (r: &'a str)
    ensures
        r@ == trimmed(s@),
{
    trim_end(trim_start(s))
}

/// The words of `s`.
pub fn split_whitespace(s: &str) -> (list: Vec<String>)
    ensures
        views(list@) == words(s@),
{
    let chars = chars_of(s);
    let mut list: Vec<String> = Vec::new();
    let mut i: usize = 0;
    assert(s@.skip(0) =~= s@);
    assert(views(list@) + words(s@) =~= words(s@));
    while i < chars.len()
        invariant
            chars@ == s@,
            i <= chars@.len(),
            words(s@) == views(list@) + words(s@.skip(i as int)),
        decreases chars@.len() - i,
    {
        let ghost rest = s@.skip(i as int);
        if space(chars[i]) {
            assert(rest.drop_first() =~= s@.skip(i + 1));
            i = i + 1;
        } else {
            let mut j: usize = i + 1;
            while j < chars.len() && !space(chars[j])
                invariant
                    chars@ == s@,
                    i < j <= chars@.len(),
                    forall|k: int| i <= k < j ==> !is_space(chars@[k]),
                decreases chars@.len() - j,
            {
                j = j + 1;
            }
            let word = string_of(&chars, i, j);
            let ghost before = list@;
            proof {
                lemma_until_space_is(rest, j - i);
                assert(rest.take(j - i) =~= word@);
                assert(rest.skip(j - i) =~= s@.skip(j as int));
            }
            list.push(word);
            assert(views(list@) =~= views(before).push(word@));
            assert(views(before) + (seq![word@] + words(s@.skip(j as int))) =~= views(list@)
                + words(s@.skip(j as int)));
            i = j;
        }
    }
    assert(views(list@) + words(s@.skip(i as int)) =~= views(list@));
    list
}

/// The parts of `s` between the occurrences of `separator`.
pub fn split(s: &str, separator: char) -> (list: Vec<String>)
    ensures
        views(list@) == fields(s@, separator),
{
    let chars = chars_of(s);
    let mut list: Vec<String> = Vec::new();
    let mut i: usize = 0;
    assert(s@.skip(0) =~= s@);
    assert(views(list@) + fields(s@, separator) =~= fields(s@, separator));
    loop
        invariant
            chars@ == s@,
            i <= chars@.len(),
            fields(s@, separator) == views(list@) + fields(s@.skip(i as int), separator),
        decreases chars@.len() - i,
    {
        let ghost rest = s@.skip(i as int);
        let mut j: usize = i;
        while j < chars.len() && chars[j] != separator
            invariant
                chars@ == s@,
                i <= j <= chars@.len(),
                forall|k: int| i <= k < j ==> chars@[k] != separator,
            decreases chars@.len() - j,
        {
            j = j + 1;
        }
        let part = string_of(&chars, i, j);
        let ghost before = list@;
        proof {
            lemma_until_is(rest, separator, j - i);
            assert(rest.take(j - i) =~= part@);
        }
        list.push(part);
        assert(views(list@) =~= views(before).push(part@));
        if j == chars.len() {
            assert(views(before) + seq![part@] =~= views(list@));
            return list;
        }
        assert(rest.skip(j - i + 1) =~= s@.skip(j + 1));
        assert(views(before) + (seq![part@] + fields(s@.skip(j + 1), separator)) =~= views(list@)
            + fields(s@.skip(j + 1), separator));
        i = j + 1;
    }
}

/// `s` with each occurrence of `from` replaced by `to`.
pub fn replace(s: &str, from: &str, to: &str) -> (r: String)
    requires
        from@.len() > 0,
    ensures
        r@ == replaced(s@, from@, to@),
{
    let chars = chars_of(s);
    let pattern = chars_of(from);
    let mut r = String::new();
    let mut i: usize = 0;
    assert(s@.skip(0) =~= s@);
    assert(r@ + replaced(s@, from@, to@) =~= replaced(s@, from@, to@));
    while i < chars.len()
        invariant
            chars@ == s@,
            pattern@ == from@,
            from@.len() > 0,
            i <= chars@.len(),
            replaced(s@, from@, to@) == r@ + replaced(s@.skip(i as int), from@, to@),
        decreases chars@.len() - i,
    {
        let ghost rest = s@.skip(i as int);
        let ghost before = r@;
        if matches_at(&chars, &pattern, i) {
            assert(rest.subrange(0, from@.len() as int) =~= s@.subrange(i as int, i + from@.len()));
            assert(rest.skip(from@.len() as int) =~= s@.skip(i + from@.len()));
            r.append(to);
            i = i + pattern.len();
            assert(before + (to@ + replaced(s@.skip(i as int), from@, to@)) =~= r@ + replaced(
                s@.skip(i as int),
                from@,
                to@,
            ));
        } else {
            assert(!from@.is_prefix_of(rest)) by {
                if from@.is_prefix_of(rest) {
                    assert(rest.subrange(0, from@.len() as int) =~= s@.subrange(
                        i as int,
                        i + from@.len(),
                    ));
                }
            }
            assert(rest.drop_first() =~= s@.skip(i + 1));
            r.push(chars[i]);
            i = i + 1;
            assert(before + (seq![rest[0]] + replaced(s@.skip(i as int), from@, to@)) =~= r@
                + replaced(s@.skip(i as int), from@, to@));
        }
    }
    assert(r@ + replaced(s@.skip(i as int), from@, to@) =~= r@);
    r
}

/// `s` without its leading characters that are in `set`.
pub fn trim_start_matches<'a>(s: &'a str, set: &str) -> (r: &'a str)
    ensures
        r@ == left_stripped(s@, set@),
{
    let chars = chars_of(s);
    let members = chars_of(set);
    let mut i: usize = 0;
    assert(s@.skip(0) =~= s@);
    while i < chars.len() && char_in(chars[i], &members)
        invariant
            chars@ == s@,
            members@ == set@,
            i <= chars@.len(),
            left_stripped(s@, set@) == left_stripped(s@.skip(i as int), set@),
        decreases chars@.len() - i,
    {
        assert(s@.skip(i as int).drop_first() =~= s@.skip(i + 1));
        i = i + 1;
    }
    let n = chars.len();
    let r = s.substring_char(i, n);
    assert(r@ =~= s@.skip(i as int));
    r
}

/// Whether `c` is one of `set`.
pub fn char_in(c: char, set: &Vec<char>) -> (yes: bool)
    ensures
        yes == set@.contains(c),
{
    let mut i: usize = 0;
    while i < set.len()
        invariant
            i <= set@.len(),
            forall|j: int| 0 <= j < i ==> set@[j] != c,
        decreases set@.len() - i,
    {
        if set[i] == c {
            return true;
        }
        i = i + 1;
    }
    false
}

/// The longest prefix of `s` in which `stop` does not occur.
pub fn before_char(s: &str, stop: char) -> (r: String)
    ensures
        r@ == until(s@, stop),
{
    let chars = chars_of(s);
    let mut n: usize = 0;
    while n < chars.len() && chars[n] != stop
        invariant
            chars@ == s@,
            n <= chars@.len(),
            forall|i: int| 0 <= i < n ==> s@[i] != stop,
        decreases chars@.len() - n,
    {
        n = n + 1;
    }
    proof {
        lemma_until_is(s@, stop, n as int);
        assert(chars@.subrange(0, n as int) =~= s@.take(n as int));
    }
    string_of(&chars, 0, n)
}

/// Two texts, one behind the other.
pub fn glue2(a: &str, b: &str) -> (r: String)
    ensures
        r@ == a@ + b@,
{
    let mut r = a.to_owned();
    r.append(b);
    r
}

/// Three texts, one behind the other.
pub fn glue3(a: &str, b: &str, c: &str) -> (r: String)
    ensures
        r@ == a@ + b@ + c@,
{
    let mut r = glue2(a, b);
    r.append(c);
    r
}

/// Four texts, one behind the other.
pub fn glue4(a: &str, b: &str, c: &str, d: &str) -> (r: String)
    ensures
        r@ == a@ + b@ + c@ + d@,
{
    let mut r = glue3(a, b, c);
    r.append(d);
    r
}

/// Five texts, one behind the other.
pub fn glue5(a: &str, b: &str, c: &str, d: &str, e: &str) -> (r: String)
    ensures
        r@ == a@ + b@ + c@ + d@ + e@,
{
    let mut r = glue4(a, b, c, d);
    r.append(e);
    r
}

}
