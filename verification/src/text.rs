//! Texts as sequences of characters: trimming, splitting, joining and searching.

use vstd::prelude::*;

verus! {

/// `String::push` appends the one given character and keeps what was there.
pub assume_specification[ String::push ](s: &mut String, c: char)
    ensures
        final(s)@ == old(s)@.push(c),
;

/// The characters with the Unicode property `White_Space`.
pub open spec fn whitespace(c: char) -> bool {
    let n = c as u32;
    ||| 0x09 <= n <= 0x0d
    ||| n == 0x20
    ||| n == 0x85
    ||| n == 0xa0
    ||| n == 0x1680
    ||| 0x2000 <= n <= 0x200a
    ||| n == 0x2028
    ||| n == 0x2029
    ||| n == 0x202f
    ||| n == 0x205f
    ||| n == 0x3000
}

/// Whether `c` separates words.
pub fn is_whitespace(c: char) -> (r: bool)
    ensures
        r == whitespace(c),
{
    let n: u32 = c as u32;
    (0x09 <= n && n <= 0x0d) || n == 0x20 || n == 0x85 || n == 0xa0 || n == 0x1680 || (0x2000 <= n
        && n <= 0x200a) || n == 0x2028 || n == 0x2029 || n == 0x202f || n == 0x205f || n == 0x3000
}

/// The characters of `s`, in order.
pub fn chars_of(s: &str) -> (r: Vec<char>)
    ensures
        r@ == s@,
{
    let mut out: Vec<char> = Vec::new();
    for c in it: s.chars()
        invariant
            out@ == it.seq().take(it.index()),
            it.seq() == s@,
    {
        out.push(c);
    }
    out
}

/// The characters of `cs` from `from` up to `to`, as text.
pub fn slice_text(cs: &Vec<char>, from: usize, to: usize) -> (r: String)
    requires
        from <= to <= cs@.len(),
    ensures
        r@ == cs@.subrange(from as int, to as int),
{
    let mut out = String::new();
    let mut i: usize = from;
    while i < to
        invariant
            from <= i <= to <= cs@.len(),
            out@ == cs@.subrange(from as int, i as int),
        decreases to - i,
    {
        out.push(cs[i]);
        i += 1;
        assert(cs@.subrange(from as int, i as int) =~= cs@.subrange(from as int, i - 1).push(
            cs@[i - 1],
        ));
    }
    out
}

/// The texts that a list of strings holds.
pub open spec fn texts(v: Seq<String>) -> Seq<Seq<char>> {
    v.map_values(|t: String| t@)
}

/// `texts` of one string more.
pub proof fn lemma_texts_push(v: Seq<String>, t: String)
    ensures
        texts(v.push(t)) == texts(v).push(t@),
{
    assert(texts(v.push(t)) =~= texts(v).push(t@));
}

/// Filtering a list of which every item passes leaves it as it is.
pub proof fn lemma_filter_all<A>(s: Seq<A>, p: spec_fn(A) -> bool)
    requires
        forall|i: int| 0 <= i < s.len() ==> p(#[trigger] s[i]),
    ensures
        s.filter(p) == s,
    decreases s.len(),
{
    reveal(Seq::filter);
    if s.len() > 0 {
        lemma_filter_all(s.drop_last(), p);
        assert(p(s[s.len() - 1]));
        assert(s.drop_last().push(s.last()) =~= s);
    }
}

/// Filtering a list of one item keeps it or drops it.
pub proof fn lemma_filter_one<A>(x: A, p: spec_fn(A) -> bool)
    ensures
        seq![x].filter(p) == if p(x) {
            seq![x]
        } else {
            Seq::<A>::empty()
        },
{
    reveal(Seq::filter);
    let none = Seq::<A>::empty();
    assert(seq![x].drop_last() =~= none);
    assert(none.filter(p) =~= none);
    assert(none.push(x) =~= seq![x]);
}

/// Filtering one item more keeps it or drops it.
pub proof fn lemma_filter_take<A>(s: Seq<A>, p: spec_fn(A) -> bool, i: int)
    requires
        0 <= i < s.len(),
    ensures
        s.take(i + 1).filter(p) == if p(s[i]) {
            s.take(i).filter(p).push(s[i])
        } else {
            s.take(i).filter(p)
        },
{
    reveal(Seq::filter);
    assert(s.take(i + 1).drop_last() =~= s.take(i));
}

/// Whether two texts are the same.
pub fn same_text(a: &str, b: &str) -> (r: bool)
    ensures
        r == (a@ == b@),
{
    a.to_owned() == b.to_owned()
}

// ---------------------------------------------------------------------------
// Trimming
// ---------------------------------------------------------------------------

/// `s` without the whitespace that it starts with.
pub open spec fn trimmed_start(s: Seq<char>) -> Seq<char>
    decreases s.len(),
{
    if s.len() > 0 && whitespace(s[0]) {
        trimmed_start(s.drop_first())
    } else {
        s
    }
}

/// `s` without the whitespace that it ends with.
pub open spec fn trimmed_end(s: Seq<char>) -> Seq<char>
    decreases s.len(),
{
    if s.len() > 0 && whitespace(s.last()) {
        trimmed_end(s.drop_last())
    } else {
        s
    }
}

/// `s` without the whitespace at its two ends.
pub open spec fn trimmed(s: Seq<char>) -> Seq<char> {
    trimmed_end(trimmed_start(s))
}

/// A text with no whitespace at either end.
pub open spec fn is_trimmed(s: Seq<char>) -> bool {
    s.len() > 0 ==> !whitespace(s[0]) && !whitespace(s.last())
}

proof fn lemma_trimmed_start_at(s: Seq<char>, k: int)
    requires
        0 <= k <= s.len(),
        forall|j: int| 0 <= j < k ==> whitespace(#[trigger] s[j]),
        k < s.len() ==> !whitespace(s[k]),
    ensures
        trimmed_start(s) == s.skip(k),
    decreases k,
{
    if k == 0 {
        assert(s.skip(0) =~= s);
    } else {
        let t = s.drop_first();
        assert(forall|j: int| 0 <= j < k - 1 ==> #[trigger] t[j] == s[j + 1]);
        lemma_trimmed_start_at(t, k - 1);
        assert(t.skip(k - 1) =~= s.skip(k));
    }
}

proof fn lemma_trimmed_end_at(s: Seq<char>, k: int)
    requires
        0 <= k <= s.len(),
        forall|j: int| k <= j < s.len() ==> whitespace(#[trigger] s[j]),
        k > 0 ==> !whitespace(s[k - 1]),
    ensures
        trimmed_end(s) == s.take(k),
    decreases s.len() - k,
{
    if k == s.len() {
        assert(s.take(k) =~= s);
    } else {
        let t = s.drop_last();
        lemma_trimmed_end_at(t, k);
        assert(t.take(k) =~= s.take(k));
    }
}

/// What is left after trimming is a stretch of the text that starts and ends with something
/// else than whitespace, and all that was cut off is whitespace.
pub proof fn lemma_trimmed_is_stretch(s: Seq<char>) -> (r: (int, int))
    ensures
        0 <= r.0 <= r.1 <= s.len(),
        trimmed(s) == s.subrange(r.0, r.1),
        is_trimmed(trimmed(s)),
        forall|j: int| 0 <= j < r.0 ==> whitespace(#[trigger] s[j]),
        forall|j: int| r.1 <= j < s.len() ==> whitespace(#[trigger] s[j]),
{
    let i = lemma_trimmed_start_split(s);
    let t = s.skip(i);
    let k = lemma_trimmed_end_split(t);
    assert(t.take(k) =~= s.subrange(i, i + k));
    assert forall|j: int| i + k <= j < s.len() implies whitespace(#[trigger] s[j]) by {
        assert(t[j - i] == s[j]);
    }
    (i, i + k)
}

proof fn lemma_trimmed_start_split(s: Seq<char>) -> (k: int)
    ensures
        0 <= k <= s.len(),
        trimmed_start(s) == s.skip(k),
        forall|j: int| 0 <= j < k ==> whitespace(#[trigger] s[j]),
        k < s.len() ==> !whitespace(s[k]),
    decreases s.len(),
{
    if s.len() > 0 && whitespace(s[0]) {
        let t = s.drop_first();
        let m = lemma_trimmed_start_split(t);
        assert(t.skip(m) =~= s.skip(m + 1));
        assert forall|j: int| 0 <= j < m + 1 implies whitespace(#[trigger] s[j]) by {
            if j > 0 {
                assert(t[j - 1] == s[j]);
            }
        }
        m + 1
    } else {
        assert(s.skip(0) =~= s);
        0
    }
}

proof fn lemma_trimmed_end_split(s: Seq<char>) -> (k: int)
    ensures
        0 <= k <= s.len(),
        trimmed_end(s) == s.take(k),
        forall|j: int| k <= j < s.len() ==> whitespace(#[trigger] s[j]),
        k > 0 ==> !whitespace(s[k - 1]),
    decreases s.len(),
{
    if s.len() > 0 && whitespace(s.last()) {
        let t = s.drop_last();
        let m = lemma_trimmed_end_split(t);
        assert(t.take(m) =~= s.take(m));
        assert forall|j: int| m <= j < s.len() implies whitespace(#[trigger] s[j]) by {
            if j < t.len() {
                assert(t[j] == s[j]);
            }
        }
        m
    } else {
        assert(s.take(s.len() as int) =~= s);
        s.len() as int
    }
}

/// Trimming what is trimmed changes nothing.
pub proof fn lemma_trimmed_fixed(s: Seq<char>)
    requires
        is_trimmed(s),
    ensures
        trimmed(s) == s,
{
}

/// `s` without the whitespace at its two ends.
pub fn trim(s: &str) -> (r: String)
    ensures
        r@ == trimmed(s@),
{
    let cs = chars_of(s);
    let n: usize = cs.len();
    let mut from: usize = 0;
    while from < n && is_whitespace(cs[from])
        invariant
            from <= n == cs@.len(),
            forall|j: int| 0 <= j < from ==> whitespace(#[trigger] cs@[j]),
        decreases n - from,
    {
        from += 1;
    }
    let mut to: usize = n;
    while to > from && is_whitespace(cs[to - 1])
        invariant
            from <= to <= n == cs@.len(),
            forall|j: int| to <= j < n ==> whitespace(#[trigger] cs@[j]),
        decreases to,
    {
        to -= 1;
    }
    proof {
        lemma_trimmed_start_at(cs@, from as int);
        let t = cs@.skip(from as int);
        lemma_trimmed_end_at(t, to - from);
        assert(t.take(to - from) =~= cs@.subrange(from as int, to as int));
    }
    slice_text(&cs, from, to)
}

// ---------------------------------------------------------------------------
// Lines
// ---------------------------------------------------------------------------

/// Where `c` first occurs in `s`; the length of `s` if nowhere.
pub open spec fn find(s: Seq<char>, c: char) -> int
    decreases s.len(),
{
    if s.len() == 0 {
        0
    } else if s[0] == c {
        0
    } else {
        1 + find(s.drop_first(), c)
    }
}

/// `find` lies within the text, and nothing before it is the character.
pub proof fn lemma_find(s: Seq<char>, c: char)
    ensures
        0 <= find(s, c) <= s.len(),
        find(s, c) < s.len() ==> s[find(s, c)] == c,
        forall|j: int| 0 <= j < find(s, c) ==> #[trigger] s[j] != c,
    decreases s.len(),
{
    if s.len() > 0 && s[0] != c {
        let t = s.drop_first();
        lemma_find(t, c);
        assert forall|j: int| 0 <= j < find(s, c) implies #[trigger] s[j] != c by {
            if j > 0 {
                assert(t[j - 1] == s[j]);
            }
        }
    }
}

proof fn lemma_find_at(s: Seq<char>, c: char, k: int)
    requires
        0 <= k <= s.len(),
        forall|j: int| 0 <= j < k ==> #[trigger] s[j] != c,
        k < s.len() ==> s[k] == c,
    ensures
        find(s, c) == k,
{
    lemma_find(s, c);
}

/// A line without the carriage return that belongs to its line ending.
pub open spec fn without_return(s: Seq<char>) -> Seq<char> {
    if s.len() > 0 && s.last() == '\r' {
        s.drop_last()
    } else {
        s
    }
}

/// The lines of `s`. A line ends with a line feed, or a carriage return and a line feed, which
/// are not part of it; the last line need not have an ending.
pub open spec fn lines_of(s: Seq<char>) -> Seq<Seq<char>>
    decreases s.len(),
    via lines_of_decreases
{
    if s.len() == 0 {
        Seq::empty()
    } else {
        let n = find(s, '\n');
        if n == s.len() {
            seq![s]
        } else {
            seq![without_return(s.take(n))] + lines_of(s.skip(n + 1))
        }
    }
}

#[via_fn]
proof fn lines_of_decreases(s: Seq<char>) {
    lemma_find(s, '\n');
}

/// The lines of `s`, in order.
pub fn lines(s: &str) -> (r: Vec<String>)
    ensures
        texts(r@) == lines_of(s@),
{
    let cs = chars_of(s);
    let n: usize = cs.len();
    let mut out: Vec<String> = Vec::new();
    let mut start: usize = 0;
    let mut i: usize = 0;
    proof {
        assert(cs@.skip(0) =~= cs@);
        assert(texts(out@) + lines_of(cs@) =~= lines_of(cs@));
    }
    while i < n
        invariant
            start <= i <= n == cs@.len(),
            forall|j: int| start <= j < i ==> #[trigger] cs@[j] != '\n',
            texts(out@) + lines_of(cs@.skip(start as int)) == lines_of(cs@),
        decreases n - i,
    {
        if cs[i] == '\n' {
            let ghost rest = cs@.skip(start as int);
            let ghost before = texts(out@);
            let mut end: usize = i;
            if end > start && cs[end - 1] == '\r' {
                end -= 1;
            }
            let line = slice_text(&cs, start, end);
            proof {
                lemma_find_at(rest, '\n', i - start);
                let head = rest.take(i - start);
                assert(head =~= cs@.subrange(start as int, i as int));
                assert(without_return(head) =~= cs@.subrange(start as int, end as int));
                assert(rest.skip(i - start + 1) =~= cs@.skip(i + 1));
                lemma_texts_push(out@, line);
                assert(before.push(line@) + lines_of(cs@.skip(i + 1)) =~= before + (seq![line@]
                    + lines_of(cs@.skip(i + 1))));
            }
            out.push(line);
            start = i + 1;
        }
        i += 1;
    }
    proof {
        let rest = cs@.skip(start as int);
        lemma_find_at(rest, '\n', rest.len() as int);
        assert(rest =~= cs@.subrange(start as int, n as int));
    }
    if start < n {
        let line = slice_text(&cs, start, n);
        proof {
            lemma_texts_push(out@, line);
            assert(texts(out@) + seq![line@] =~= texts(out@).push(line@));
        }
        out.push(line);
    } else {
        assert(texts(out@) + Seq::<Seq<char>>::empty() =~= texts(out@));
    }
    out
}

// ---------------------------------------------------------------------------
// Words
// ---------------------------------------------------------------------------

/// How many characters `s` has before its first whitespace.
pub open spec fn word_len(s: Seq<char>) -> int
    decreases s.len(),
{
    if s.len() == 0 || whitespace(s[0]) {
        0
    } else {
        1 + word_len(s.drop_first())
    }
}

/// The word at the start of a text lies within it and holds no whitespace.
pub proof fn lemma_word_len(s: Seq<char>)
    ensures
        0 <= word_len(s) <= s.len(),
        word_len(s) < s.len() ==> whitespace(s[word_len(s)]),
        forall|j: int| 0 <= j < word_len(s) ==> !whitespace(#[trigger] s[j]),
        s.len() > 0 && !whitespace(s[0]) ==> word_len(s) > 0,
    decreases s.len(),
{
    if s.len() > 0 && !whitespace(s[0]) {
        let t = s.drop_first();
        lemma_word_len(t);
        assert forall|j: int| 0 <= j < word_len(s) implies !whitespace(#[trigger] s[j]) by {
            if j > 0 {
                assert(t[j - 1] == s[j]);
            }
        }
    }
}

/// The words of `s`: its longest stretches without whitespace.
pub open spec fn words_of(s: Seq<char>) -> Seq<Seq<char>>
    decreases s.len(),
    via words_of_decreases
{
    if s.len() == 0 {
        Seq::empty()
    } else if whitespace(s[0]) {
        words_of(s.drop_first())
    } else {
        seq![s.take(word_len(s))] + words_of(s.skip(word_len(s)))
    }
}

#[via_fn]
proof fn words_of_decreases(s: Seq<char>) {
    lemma_word_len(s);
}

/// A text that is one word: not empty and without whitespace.
pub open spec fn is_word(s: Seq<char>) -> bool {
    &&& s.len() > 0
    &&& forall|i: int| 0 <= i < s.len() ==> !whitespace(#[trigger] s[i])
}

/// The words of a text are words, and what they hold stands in the text.
pub proof fn lemma_words_of(s: Seq<char>)
    ensures
        forall|i: int| 0 <= i < words_of(s).len() ==> is_word(#[trigger] words_of(s)[i]),
        forall|i: int, j: int|
            0 <= i < words_of(s).len() && 0 <= j < words_of(s)[i].len() ==> s.contains(
                #[trigger] words_of(s)[i][j],
            ),
    decreases s.len(),
{
    lemma_word_len(s);
    let ws = words_of(s);
    if s.len() > 0 {
        let n = if whitespace(s[0]) {
            1
        } else {
            word_len(s)
        };
        let rest = s.skip(n);
        assert(whitespace(s[0]) ==> rest =~= s.drop_first());
        lemma_words_of(rest);
        let back = words_of(rest);
        assert forall|i: int, j: int| 0 <= i < ws.len() && 0 <= j < ws[i].len() implies s.contains(
            #[trigger] ws[i][j],
        ) by {
            if !whitespace(s[0]) && i == 0 {
                assert(ws[i][j] == s[j]);
            } else {
                let k = if whitespace(s[0]) {
                    i
                } else {
                    i - 1
                };
                assert(ws[i] == back[k]);
                assert(rest.contains(back[k][j]));
                let m = choose|m: int| 0 <= m < rest.len() && rest[m] == back[k][j];
                assert(s[n + m] == ws[i][j]);
            }
        }
        assert forall|i: int| 0 <= i < ws.len() implies is_word(#[trigger] ws[i]) by {
            if whitespace(s[0]) {
                assert(ws[i] == back[i]);
            } else if i > 0 {
                assert(ws[i] == back[i - 1]);
            }
        }
    }
}

/// The words of `s`, in order.
pub fn words(s: &str) -> (r: Vec<String>)
    ensures
        texts(r@) == words_of(s@),
{
    let cs = chars_of(s);
    let n: usize = cs.len();
    let mut out: Vec<String> = Vec::new();
    let mut i: usize = 0;
    proof {
        assert(cs@.skip(0) =~= cs@);
        assert(texts(out@) + words_of(cs@) =~= words_of(cs@));
    }
    while i < n
        invariant
            i <= n == cs@.len(),
            texts(out@) + words_of(cs@.skip(i as int)) == words_of(cs@),
        decreases n - i,
    {
        let ghost rest = cs@.skip(i as int);
        if is_whitespace(cs[i]) {
            assert(rest.drop_first() =~= cs@.skip(i + 1));
            i += 1;
        } else {
            let start: usize = i;
            while i < n && !is_whitespace(cs[i])
                invariant
                    start <= i <= n == cs@.len(),
                    forall|j: int| start <= j < i ==> !whitespace(#[trigger] cs@[j]),
                decreases n - i,
            {
                i += 1;
            }
            let word = slice_text(&cs, start, i);
            proof {
                lemma_word_len(rest);
                let k = i - start;
                assert(word_len(rest) == k) by {
                    if word_len(rest) < k {
                        assert(rest[word_len(rest)] == cs@[start + word_len(rest)]);
                    }
                    if word_len(rest) > k {
                        assert(rest[k] == cs@[i as int]);
                    }
                }
                assert(rest[0] == cs@[start as int]);
                assert(rest.take(k) =~= cs@.subrange(start as int, i as int));
                assert(rest.skip(k) =~= cs@.skip(i as int));
                lemma_texts_push(out@, word);
                assert(texts(out@).push(word@) + words_of(rest.skip(k)) =~= texts(out@) + (seq![
                    word@,
                ] + words_of(rest.skip(k))));
            }
            out.push(word);
        }
    }
    proof {
        assert(cs@.skip(n as int) =~= Seq::<char>::empty());
        assert(texts(out@) + Seq::<Seq<char>>::empty() =~= texts(out@));
    }
    out
}

// ---------------------------------------------------------------------------
// Joining
// ---------------------------------------------------------------------------

/// The parts one after the other, with `sep` between each two.
pub open spec fn joined(parts: Seq<Seq<char>>, sep: Seq<char>) -> Seq<char>
    decreases parts.len(),
{
    if parts.len() == 0 {
        Seq::empty()
    } else if parts.len() == 1 {
        parts[0]
    } else {
        joined(parts.drop_last(), sep) + sep + parts.last()
    }
}

/// The parts one after the other, with `sep` between each two.
pub fn join(parts: &Vec<String>, sep: &str) -> (r: String)
    ensures
        r@ == joined(texts(parts@), sep@),
{
    let mut out = String::new();
    let mut i: usize = 0;
    assert(texts(parts@).take(0) =~= Seq::<Seq<char>>::empty());
    while i < parts.len()
        invariant
            i <= parts@.len(),
            out@ == joined(texts(parts@).take(i as int), sep@),
        decreases parts@.len() - i,
    {
        if i > 0 {
            out.append(sep);
        }
        out.append(parts[i].as_str());
        proof {
            let t = texts(parts@).take(i + 1);
            assert(t.drop_last() =~= texts(parts@).take(i as int));
            assert(t.last() == parts@[i as int]@);
            if i == 0 {
                assert(Seq::<char>::empty() + t.last() =~= t.last());
            }
        }
        i += 1;
    }
    assert(texts(parts@).take(parts@.len() as int) =~= texts(parts@));
    out
}

/// Joining puts the first part in front of the rest joined.
pub proof fn lemma_joined_front(parts: Seq<Seq<char>>, sep: Seq<char>)
    requires
        parts.len() >= 2,
    ensures
        joined(parts, sep) == parts[0] + sep + joined(parts.drop_first(), sep),
    decreases parts.len(),
{
    let front = parts.drop_last();
    let back = parts.drop_first();
    if parts.len() == 2 {
        assert(joined(front, sep) == parts[0]);
        assert(joined(back, sep) == parts[1]);
    } else {
        lemma_joined_front(front, sep);
        assert(front.drop_first() =~= back.drop_last());
        assert(joined(parts, sep) =~= parts[0] + sep + joined(back, sep));
    }
}

/// Words joined by blanks are the words of the joined text.
pub proof fn lemma_words_of_joined(parts: Seq<Seq<char>>)
    requires
        forall|i: int| 0 <= i < parts.len() ==> is_word(#[trigger] parts[i]),
    ensures
        words_of(joined(parts, seq![' '])) == parts,
    decreases parts.len(),
{
    let sep = seq![' '];
    let all = joined(parts, sep);
    if parts.len() > 0 {
        let first = parts[0];
        let rest = parts.drop_first();
        assert(is_word(first));
        assert forall|i: int| 0 <= i < rest.len() implies is_word(#[trigger] rest[i]) by {
            assert(is_word(parts[i + 1]));
        }
        lemma_words_of_joined(rest);
        lemma_word_len(all);
        if parts.len() == 1 {
            assert(all == first);
            assert(word_len(all) == first.len()) by {
                if word_len(all) < first.len() {
                    assert(whitespace(first[word_len(all)]));
                }
            }
            assert(all.take(first.len() as int) =~= first);
            assert(all.skip(first.len() as int) =~= Seq::<char>::empty());
            assert(parts =~= seq![first] + words_of(all.skip(first.len() as int)));
        } else {
            lemma_joined_front(parts, sep);
            let tail = joined(rest, sep);
            assert(all =~= first + sep + tail);
            assert(all[first.len() as int] == ' ');
            assert(whitespace(' '));
            assert(word_len(all) == first.len()) by {
                if word_len(all) < first.len() {
                    assert(all[word_len(all)] == first[word_len(all)]);
                } else if word_len(all) > first.len() {
                    assert(!whitespace(all[first.len() as int]));
                }
            }
            assert(all[0] == first[0]);
            assert(all.take(first.len() as int) =~= first);
            let behind = all.skip(first.len() as int);
            assert(behind[0] == ' ');
            assert(behind.drop_first() =~= tail);
            assert(words_of(behind) == rest);
            assert(parts =~= seq![first] + rest);
        }
    }
}

/// A text that is one line: not empty, without a line feed, not ending in a carriage return.
pub open spec fn is_line(s: Seq<char>) -> bool {
    &&& s.len() > 0
    &&& forall|i: int| 0 <= i < s.len() ==> #[trigger] s[i] != '\n'
    &&& s.last() != '\r'
}

/// Lines joined by line feeds are the lines of the joined text.
pub proof fn lemma_lines_of_joined(parts: Seq<Seq<char>>)
    requires
        forall|i: int| 0 <= i < parts.len() ==> is_line(#[trigger] parts[i]),
    ensures
        lines_of(joined(parts, seq!['\n'])) == parts,
    decreases parts.len(),
{
    let sep = seq!['\n'];
    let all = joined(parts, sep);
    if parts.len() == 0 {
        assert(lines_of(all) =~= parts);
    } else if parts.len() == 1 {
        assert(is_line(parts[0]));
        lemma_find_at(all, '\n', all.len() as int);
        assert(lines_of(all) =~= parts);
    } else {
        let rest = parts.drop_first();
        let head = parts[0];
        assert(is_line(head));
        lemma_joined_front(parts, sep);
        assert forall|i: int| 0 <= i < rest.len() implies is_line(#[trigger] rest[i]) by {
            assert(is_line(parts[i + 1]));
        }
        lemma_lines_of_joined(rest);
        lemma_find_at(all, '\n', head.len() as int);
        assert(all.take(head.len() as int) =~= head);
        assert(all.skip(head.len() as int + 1) =~= joined(rest, sep));
        assert(lines_of(all) =~= parts);
    }
}

/// No line of a text holds a line feed.
pub proof fn lemma_lines_hold_no_feed(s: Seq<char>)
    ensures
        forall|k: int, i: int|
            0 <= k < lines_of(s).len() && 0 <= i < lines_of(s)[k].len()
                ==> #[trigger] lines_of(s)[k][i] != '\n',
    decreases s.len(),
{
    if s.len() > 0 {
        let n = find(s, '\n');
        lemma_find(s, '\n');
        if n < s.len() {
            let rest = s.skip(n + 1);
            lemma_lines_hold_no_feed(rest);
            assert forall|k: int, i: int|
                0 <= k < lines_of(s).len() && 0 <= i < lines_of(
                    s,
                )[k].len() implies #[trigger] lines_of(s)[k][i] != '\n' by {
                if k > 0 {
                    assert(lines_of(s)[k] == lines_of(rest)[k - 1]);
                    assert(lines_of(rest)[k - 1][i] != '\n');
                } else {
                    assert(lines_of(s)[0] == without_return(s.take(n)));
                    assert(lines_of(s)[0][i] == s[i]);
                }
            }
        }
    }
}

// ---------------------------------------------------------------------------
// Prefixes, suffixes and parts
// ---------------------------------------------------------------------------

/// Whether `part` stands in `s` at position `i`.
pub open spec fn occurs_at(s: Seq<char>, part: Seq<char>, i: int) -> bool {
    &&& 0 <= i
    &&& i + part.len() <= s.len()
    &&& s.subrange(i, i + part.len()) == part
}

/// Whether `part` stands anywhere in `s`.
pub open spec fn holds(s: Seq<char>, part: Seq<char>) -> bool {
    exists|i: int| occurs_at(s, part, i)
}

fn matches_at(cs: &Vec<char>, part: &Vec<char>, at: usize) -> (r: bool)
    requires
        at <= cs@.len(),
    ensures
        r == occurs_at(cs@, part@, at as int),
{
    if part.len() > cs.len() - at {
        return false;
    }
    let n: usize = cs.len();
    let mut k: usize = 0;
    while k < part.len()
        invariant
            k <= part@.len(),
            at + part@.len() <= cs@.len() == n,
            forall|j: int| 0 <= j < k ==> cs@[at + j] == #[trigger] part@[j],
        decreases part@.len() - k,
    {
        if cs[at + k] != part[k] {
            assert(cs@.subrange(at as int, at + part@.len())[k as int] == cs@[at + k]);
            return false;
        }
        k += 1;
    }
    assert(cs@.subrange(at as int, at + part@.len()) =~= part@);
    true
}

/// Whether `s` starts with `prefix`.
pub fn starts_with(s: &str, prefix: &str) -> (r: bool)
    ensures
        r == prefix@.is_prefix_of(s@),
{
    let r = matches_at(&chars_of(s), &chars_of(prefix), 0);
    r
}

/// Whether `s` ends with `suffix`.
pub fn ends_with(s: &str, suffix: &str) -> (r: bool)
    ensures
        r == suffix@.is_suffix_of(s@),
{
    let cs = chars_of(s);
    let part = chars_of(suffix);
    if part.len() > cs.len() {
        return false;
    }
    matches_at(&cs, &part, cs.len() - part.len())
}

/// Whether `part` stands anywhere in `s`.
pub fn contains(s: &str, part: &str) -> (r: bool)
    ensures
        r == holds(s@, part@),
{
    let cs = chars_of(s);
    let p = chars_of(part);
    let mut i: usize = 0;
    while i < cs.len()
        invariant
            i <= cs@.len(),
            cs@ == s@,
            p@ == part@,
            forall|j: int| 0 <= j < i ==> !#[trigger] occurs_at(cs@, p@, j),
        decreases cs@.len() - i,
    {
        if matches_at(&cs, &p, i) {
            return true;
        }
        i += 1;
    }
    let at_end = matches_at(&cs, &p, i);
    at_end
}

/// Holds of every character but `c`.
pub open spec fn other_than(c: char) -> spec_fn(char) -> bool {
    |x: char| x != c
}

/// `s` with each `c` left out.
pub open spec fn without(s: Seq<char>, c: char) -> Seq<char> {
    s.filter(other_than(c))
}

/// `s` with each `c` left out.
pub fn remove_char(s: &str, c: char) -> (r: String)
    ensures
        r@ == without(s@, c),
{
    let cs = chars_of(s);
    let mut out = String::new();
    let mut i: usize = 0;
    assert(cs@.take(0) =~= Seq::<char>::empty());
    while i < cs.len()
        invariant
            i <= cs@.len(),
            out@ == without(cs@.take(i as int), c),
        decreases cs@.len() - i,
    {
        proof {
            lemma_filter_take(cs@, other_than(c), i as int);
        }
        if cs[i] != c {
            out.push(cs[i]);
        }
        i += 1;
    }
    assert(cs@.take(cs@.len() as int) =~= cs@);
    out
}

/// `s` with each `c` written twice.
pub open spec fn doubled(s: Seq<char>, c: char) -> Seq<char>
    decreases s.len(),
{
    if s.len() == 0 {
        s
    } else if s.last() == c {
        doubled(s.drop_last(), c).push(c).push(c)
    } else {
        doubled(s.drop_last(), c).push(s.last())
    }
}

/// `s` with each `c` written twice.
pub fn double_char(s: &str, c: char) -> (r: String)
    ensures
        r@ == doubled(s@, c),
{
    let cs = chars_of(s);
    let mut out = String::new();
    let mut i: usize = 0;
    assert(cs@.take(0) =~= Seq::<char>::empty());
    while i < cs.len()
        invariant
            i <= cs@.len(),
            out@ == doubled(cs@.take(i as int), c),
        decreases cs@.len() - i,
    {
        assert(cs@.take(i + 1).drop_last() =~= cs@.take(i as int));
        if cs[i] == c {
            out.push(c);
        }
        out.push(cs[i]);
        i += 1;
    }
    assert(cs@.take(cs@.len() as int) =~= cs@);
    out
}

// ---------------------------------------------------------------------------
// Laws
// ---------------------------------------------------------------------------

/// Trimming cuts off the margins and leaves all between them: whitespace before and behind a text
/// that neither starts nor ends with any goes, whatever stands inside it.
pub proof fn law_trimming_cuts_the_margins(left: Seq<char>, middle: Seq<char>, right: Seq<char>)
    requires
        forall|i: int| 0 <= i < left.len() ==> whitespace(#[trigger] left[i]),
        forall|i: int| 0 <= i < right.len() ==> whitespace(#[trigger] right[i]),
        middle.len() > 0 ==> !whitespace(middle[0]) && !whitespace(middle.last()),
    ensures
        trimmed(left + middle + right) == middle,
{
    let s = left + middle + right;
    if middle.len() == 0 {
        lemma_trimmed_start_at(s, s.len() as int);
        assert(s.skip(s.len() as int) =~= middle);
    } else {
        assert(s[left.len() as int] == middle[0]);
        lemma_trimmed_start_at(s, left.len() as int);
        let t = s.skip(left.len() as int);
        assert(t =~= middle + right);
        assert(t[middle.len() - 1] == middle.last());
        lemma_trimmed_end_at(t, middle.len() as int);
        assert(t.take(middle.len() as int) =~= middle);
    }
}

/// A line ends at a line feed, with a carriage return before it or not, and the lines behind it
/// are those of the rest; what has no line feed is one line, unless it is empty.
pub proof fn law_lines_end_at_line_feeds(line: Seq<char>, rest: Seq<char>)
    requires
        forall|i: int| 0 <= i < line.len() ==> #[trigger] line[i] != '\n',
    ensures
        line.len() == 0 || line.last() != '\r' ==> lines_of(line + seq!['\n'] + rest) == seq![line]
            + lines_of(rest),
        lines_of(line + seq!['\r', '\n'] + rest) == seq![line] + lines_of(rest),
        line.len() > 0 ==> lines_of(line) == seq![line],
        lines_of(Seq::empty()) == Seq::<Seq<char>>::empty(),
{
    let plain = line + seq!['\n'] + rest;
    lemma_find_at(plain, '\n', line.len() as int);
    assert(plain.take(line.len() as int) =~= line);
    assert(plain.skip(line.len() as int + 1) =~= rest);
    let both = line + seq!['\r', '\n'] + rest;
    lemma_find_at(both, '\n', line.len() as int + 1);
    assert(both.take(line.len() as int + 1) =~= line.push('\r'));
    assert(line.push('\r').drop_last() =~= line);
    assert(both.skip(line.len() as int + 2) =~= rest);
    lemma_find_at(line, '\n', line.len() as int);
}

/// Whitespace separates words and nothing else does: the words of a text are those before it and
/// those behind it, and a text without whitespace is one word, unless it is empty.
pub proof fn law_whitespace_separates_words(before: Seq<char>, c: char, behind: Seq<char>)
    requires
        whitespace(c),
    ensures
        words_of(before + seq![c] + behind) == words_of(before) + words_of(behind),
    decreases before.len(),
{
    let s = before + seq![c] + behind;
    if before.len() == 0 {
        assert(s.drop_first() =~= behind);
        assert(words_of(before) + words_of(behind) =~= words_of(behind));
    } else if whitespace(before[0]) {
        law_whitespace_separates_words(before.drop_first(), c, behind);
        assert(s.drop_first() =~= before.drop_first() + seq![c] + behind);
    } else {
        lemma_word_len(before);
        lemma_word_len(s);
        let n = word_len(before);
        assert(word_len(s) == n) by {
            if word_len(s) < n {
                assert(s[word_len(s)] == before[word_len(s)]);
            } else if word_len(s) > n {
                assert(whitespace(s[n])) by {
                    if n < before.len() {
                        assert(s[n] == before[n]);
                    }
                }
            }
        }
        law_whitespace_separates_words(before.skip(n), c, behind);
        assert(s.take(n) =~= before.take(n));
        assert(s.skip(n) =~= before.skip(n) + seq![c] + behind);
        assert(seq![before.take(n)] + (words_of(before.skip(n)) + words_of(behind)) =~= seq![
            before.take(n),
        ] + words_of(before.skip(n)) + words_of(behind));
    }
}

/// A text without whitespace is one word, unless it is empty.
pub proof fn law_one_word_is_one_word(s: Seq<char>)
    requires
        forall|i: int| 0 <= i < s.len() ==> !whitespace(#[trigger] s[i]),
    ensures
        words_of(s) == if s.len() == 0 {
            Seq::<Seq<char>>::empty()
        } else {
            seq![s]
        },
{
    if s.len() > 0 {
        lemma_word_len(s);
        assert(word_len(s) == s.len());
        assert(s.take(s.len() as int) =~= s);
        assert(s.skip(s.len() as int) =~= Seq::<char>::empty());
        assert(words_of(Seq::<char>::empty()) =~= Seq::<Seq<char>>::empty());
        assert(seq![s] + Seq::<Seq<char>>::empty() =~= seq![s]);
    }
}

/// Joining goes piece by piece: between any two lists of parts stands the separator once, and a
/// single part stays as it is.
pub proof fn law_joining_goes_piece_by_piece(
    a: Seq<Seq<char>>,
    b: Seq<Seq<char>>,
    part: Seq<char>,
    sep: Seq<char>,
)
    ensures
        a.len() > 0 && b.len() > 0 ==> joined(a + b, sep) == joined(a, sep) + sep + joined(b, sep),
        joined(seq![part], sep) == part,
        joined(Seq::empty(), sep) == Seq::<char>::empty(),
    decreases b.len(),
{
    if a.len() > 0 && b.len() == 1 {
        assert((a + b).drop_last() =~= a);
    } else if a.len() > 0 && b.len() > 1 {
        law_joining_goes_piece_by_piece(a, b.drop_last(), part, sep);
        assert((a + b).drop_last() =~= a + b.drop_last());
        assert(joined(a, sep) + sep + joined(b.drop_last(), sep) + sep + b.last() =~= joined(a, sep)
            + sep + (joined(b.drop_last(), sep) + sep + b.last()));
    }
}

/// Leaving a character out goes character by character: that one goes, and every other stays.
pub proof fn law_leaving_out_keeps_the_rest(a: Seq<char>, b: Seq<char>, c: char, d: char)
    ensures
        without(a + b, c) == without(a, c) + without(b, c),
        without(seq![c], c) == Seq::<char>::empty(),
        d != c ==> without(seq![d], c) == seq![d],
{
    Seq::filter_distributes_over_add(a, b, other_than(c));
    reveal(Seq::filter);
    assert(seq![c].drop_last() =~= Seq::<char>::empty());
    assert(seq![d].drop_last() =~= Seq::<char>::empty());
    assert(Seq::<char>::empty().filter(other_than(c)) =~= Seq::<char>::empty());
    assert(Seq::<char>::empty().push(d) =~= seq![d]);
}

/// Doubling a character goes character by character: that one stands twice, and every other once.
pub proof fn law_doubling_keeps_the_rest(a: Seq<char>, b: Seq<char>, c: char, d: char)
    ensures
        doubled(a + b, c) == doubled(a, c) + doubled(b, c),
        doubled(seq![c], c) == seq![c, c],
        d != c ==> doubled(seq![d], c) == seq![d],
    decreases b.len(),
{
    assert(seq![c].drop_last() =~= Seq::<char>::empty());
    assert(seq![d].drop_last() =~= Seq::<char>::empty());
    assert(doubled(Seq::<char>::empty(), c) =~= Seq::<char>::empty());
    assert(doubled(seq![c], c) =~= seq![c, c]);
    assert(d != c ==> doubled(seq![d], c) =~= seq![d]);
    if b.len() == 0 {
        assert(a + b =~= a);
        assert(doubled(a, c) + doubled(b, c) =~= doubled(a, c));
    } else {
        law_doubling_keeps_the_rest(a, b.drop_last(), c, d);
        assert((a + b).drop_last() =~= a + b.drop_last());
        assert(doubled(a + b, c) =~= doubled(a, c) + doubled(b, c));
    }
}

/// A part is found wherever it stands.
pub proof fn law_a_part_is_found(before: Seq<char>, part: Seq<char>, behind: Seq<char>)
    ensures
        holds(before + part + behind, part),
{
    let s = before + part + behind;
    assert(s.subrange(before.len() as int, (before.len() + part.len()) as int) =~= part);
    assert(occurs_at(s, part, before.len() as int));
}

/// What is found stands there.
pub proof fn law_what_is_found_stands_there(s: Seq<char>, part: Seq<char>)
    requires
        holds(s, part),
    ensures
        exists|before: Seq<char>, behind: Seq<char>| s == #[trigger] (before + part + behind),
{
    let i = choose|i: int| occurs_at(s, part, i);
    let before = s.take(i);
    let behind = s.skip(i + part.len());
    assert(s =~= (before + part) + behind);
}

/// The characters of a text that show something: all but whitespace.
pub open spec fn ink(s: Seq<char>) -> Seq<char> {
    s.filter(|c: char| !whitespace(c))
}

/// What shows goes character by character.
pub proof fn lemma_ink(a: Seq<char>, b: Seq<char>)
    ensures
        ink(a + b) == ink(a) + ink(b),
        (forall|i: int| 0 <= i < a.len() ==> whitespace(#[trigger] a[i])) ==> ink(a)
            == Seq::<char>::empty(),
    decreases a.len(),
{
    let p = |c: char| !whitespace(c);
    Seq::filter_distributes_over_add(a, b, p);
    if forall|i: int| 0 <= i < a.len() ==> whitespace(#[trigger] a[i]) {
        reveal(Seq::filter);
        if a.len() > 0 {
            let t = a.drop_last();
            assert(forall|i: int| 0 <= i < t.len() ==> #[trigger] t[i] == a[i]);
            lemma_ink(t, b);
            assert(whitespace(a[a.len() - 1]));
        }
    }
}

/// Trimming takes nothing away that shows.
pub proof fn lemma_ink_of_trimmed(s: Seq<char>)
    ensures
        ink(trimmed(s)) == ink(s),
{
    let r = lemma_trimmed_is_stretch(s);
    let left = s.take(r.0);
    let middle = s.subrange(r.0, r.1);
    let right = s.skip(r.1);
    assert(s =~= left + middle + right);
    lemma_ink(left, middle);
    lemma_ink(left + middle, right);
    lemma_ink(right, left);
    assert(ink(s) =~= ink(middle));
}

/// Whitespace at the end of a text does not matter once it is trimmed.
pub proof fn lemma_trimmed_push(s: Seq<char>, c: char)
    requires
        whitespace(c),
    ensures
        trimmed(s.push(c)) == trimmed(s),
{
    let r = lemma_trimmed_is_stretch(s);
    let left = s.take(r.0);
    let middle = s.subrange(r.0, r.1);
    let right = s.skip(r.1);
    law_trimming_cuts_the_margins(left, middle, right.push(c));
    assert(s.push(c) =~= left + middle + right.push(c));
}

/// The trimmed lines of a text are those of its first line and of the rest.
pub proof fn lemma_trimmed_lines(line: Seq<char>, rest: Seq<char>)
    requires
        forall|i: int| 0 <= i < line.len() ==> #[trigger] line[i] != '\n',
    ensures
        lines_of(line + seq!['\n'] + rest).map_values(|l: Seq<char>| trimmed(l)) == seq![
            trimmed(line),
        ] + lines_of(rest).map_values(|l: Seq<char>| trimmed(l)),
{
    law_lines_end_at_line_feeds(line, rest);
    let all = lines_of(line + seq!['\n'] + rest);
    if line.len() > 0 && line.last() == '\r' {
        let bare = line.drop_last();
        law_lines_end_at_line_feeds(bare, rest);
        assert(bare + seq!['\r', '\n'] + rest =~= line + seq!['\n'] + rest);
        assert(bare.push('\r') =~= line);
        lemma_trimmed_push(bare, '\r');
    }
    assert(all.map_values(|l: Seq<char>| trimmed(l)) =~= seq![trimmed(line)] + lines_of(
        rest,
    ).map_values(|l: Seq<char>| trimmed(l)));
}

/// Whitespace is tabs, line ends and the blanks of all widths, the ideographic one too, and
/// nothing else.
pub proof fn law_what_whitespace_is(c: char)
    ensures
        whitespace(c) <==> seq![
            0x09u32, 0x0a, 0x0b, 0x0c, 0x0d, 0x20, 0x85, 0xa0, 0x1680, 0x2000, 0x2001, 0x2002,
            0x2003, 0x2004, 0x2005, 0x2006, 0x2007, 0x2008, 0x2009, 0x200a, 0x2028, 0x2029,
            0x202f, 0x205f, 0x3000,
        ].contains(c as u32),
{
    let all = seq![
        0x09u32, 0x0a, 0x0b, 0x0c, 0x0d, 0x20, 0x85, 0xa0, 0x1680, 0x2000, 0x2001, 0x2002,
        0x2003, 0x2004, 0x2005, 0x2006, 0x2007, 0x2008, 0x2009, 0x200a, 0x2028, 0x2029,
        0x202f, 0x205f, 0x3000,
    ];
    let n = c as u32;
    if 0x09 <= n <= 0x0d {
        assert(all[n - 0x09] == n);
    }
    if 0x2000 <= n <= 0x200a {
        assert(all[n - 0x2000 + 9] == n);
    }
    assert(all[5] == 0x20 && all[6] == 0x85 && all[7] == 0xa0 && all[8] == 0x1680);
    assert(all[20] == 0x2028 && all[21] == 0x2029 && all[22] == 0x202f && all[23] == 0x205f);
    assert(all[24] == 0x3000);
}

} // verus!
