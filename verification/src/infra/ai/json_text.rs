//! Finding the JSON object in what a language model says.

use crate::text::{chars_of, find, lemma_find};
use vstd::prelude::*;

verus! {

/// What is known behind some characters of a JSON text: how many braces are open, and whether
/// the text stands in a string and behind a backslash there.
pub struct Scan {
    pub depth: int,
    pub in_string: bool,
    pub escape: bool,
}

impl Scan {
    /// What is known behind one character more.
    pub open spec fn step(self, c: char) -> Scan {
        if self.escape {
            Scan { escape: false, ..self }
        } else if c == '\\' && self.in_string {
            Scan { escape: true, ..self }
        } else if c == '"' {
            Scan { in_string: !self.in_string, ..self }
        } else if self.in_string {
            self
        } else if c == '{' {
            Scan { depth: self.depth + 1, ..self }
        } else if c == '}' {
            Scan { depth: self.depth - 1, ..self }
        } else {
            self
        }
    }
}

/// What is known behind all of `s`.
pub open spec fn scan(s: Seq<char>) -> Scan
    decreases s.len(),
{
    if s.len() == 0 {
        Scan { depth: 0, in_string: false, escape: false }
    } else {
        scan(s.drop_last()).step(s.last())
    }
}

/// The first length from `k` on at which every brace of `s` that was opened is closed; more than
/// the length of `s` if there is none.
pub open spec fn closed_at(s: Seq<char>, k: int) -> int
    decreases s.len() + 1 - k,
{
    if k > s.len() || scan(s.take(k)).depth == 0 {
        k
    } else {
        closed_at(s, k + 1)
    }
}

/// The first object in `raw`: from the first opening brace to the brace that closes it.
pub open spec fn json_part(raw: Seq<char>) -> Option<Seq<char>> {
    let t = raw.skip(find(raw, '{'));
    if t.len() == 0 || closed_at(t, 1) > t.len() {
        None
    } else {
        Some(t.take(closed_at(t, 1)))
    }
}

proof fn lemma_closed_at(s: Seq<char>, k: int)
    requires
        k <= s.len() + 1,
    ensures
        k <= closed_at(s, k) <= s.len() + 1,
        closed_at(s, k) <= s.len() ==> scan(s.take(closed_at(s, k))).depth == 0,
        forall|j: int| k <= j < closed_at(s, k) ==> scan(#[trigger] s.take(j)).depth != 0,
    decreases s.len() + 1 - k,
{
    if k <= s.len() && scan(s.take(k)).depth != 0 {
        lemma_closed_at(s, k + 1);
    }
}

proof fn lemma_closed_at_is(s: Seq<char>, k: int)
    requires
        1 <= k <= s.len() + 1,
        k <= s.len() ==> scan(s.take(k)).depth == 0,
        forall|j: int| 1 <= j < k ==> scan(#[trigger] s.take(j)).depth != 0,
    ensures
        closed_at(s, 1) == k,
{
    lemma_closed_at(s, 1);
    let m = closed_at(s, 1);
    if m < k {
        assert(scan(s.take(m)).depth != 0);
    }
    if k < m {
        assert(scan(s.take(k)).depth != 0);
    }
}

/// The first object in what a language model said, braces in strings left aside.
pub fn extract_json(raw: &str) -> (r: Option<&str>)
    ensures
        match r {
            Some(part) => json_part(raw@) == Some(part@),
            None => json_part(raw@) is None,
        },
{
    let cs = chars_of(raw);
    let n: usize = cs.len();
    let mut start: usize = 0;
    while start < n && cs[start] != '{'
        invariant
            start <= n == cs@.len(),
            forall|j: int| 0 <= j < start ==> #[trigger] cs@[j] != '{',
        decreases n - start,
    {
        start += 1;
    }
    proof {
        lemma_find(cs@, '{');
        assert(find(cs@, '{') == start) by {
            if find(cs@, '{') < start {
                assert(cs@[find(cs@, '{')] == '{');
            }
        }
    }
    let ghost t = cs@.skip(start as int);
    let mut depth: usize = 0;
    let mut in_string: bool = false;
    let mut escape: bool = false;
    let mut i: usize = start;
    assert(t.take(0) =~= Seq::<char>::empty());
    while i < n
        invariant
            start <= i <= n == cs@.len(),
            cs@ == raw@,
            start < n ==> cs@[start as int] == '{',
            t == cs@.skip(start as int),
            start == find(raw@, '{'),
            scan(t.take(i - start)) == (Scan { depth: depth as int, in_string, escape }),
            depth <= i - start,
            i > start ==> depth > 0,
            forall|j: int| 1 <= j <= i - start ==> scan(#[trigger] t.take(j)).depth != 0,
        decreases n - i,
    {
        let c = cs[i];
        let ghost k = i - start;
        proof {
            assert(t.take(k + 1).drop_last() =~= t.take(k));
            assert(t.take(k + 1).last() == c);
            assert(scan(t.take(k + 1)) == scan(t.take(k)).step(c));
        }
        i += 1;
        if escape {
            escape = false;
        } else if c == '\\' && in_string {
            escape = true;
        } else if c == '"' {
            in_string = !in_string;
        } else if in_string {
        } else if c == '{' {
            depth += 1;
        } else if c == '}' {
            depth -= 1;
            if depth == 0 {
                proof {
                    lemma_closed_at_is(t, k + 1);
                    assert(t.take(k + 1) =~= raw@.subrange(start as int, i as int));
                }
                return Some(raw.substring_char(start, i));
            }
        }
        assert(scan(t.take(k + 1)) == (Scan { depth: depth as int, in_string, escape }));
    }
    proof {
        lemma_closed_at_is(t, t.len() as int + 1);
    }
    None
}

// ---------------------------------------------------------------------------
// Laws
// ---------------------------------------------------------------------------

/// The object that is found stands in the text as it is, starts with an opening brace, ends with
/// a closing one, and closes every brace that it opens.
pub proof fn law_json_part_is_one_object(raw: Seq<char>)
    requires
        json_part(raw) is Some,
    ensures
        ({
            let part = json_part(raw)->0;
            &&& part.len() >= 2
            &&& part[0] == '{'
            &&& part.last() == '}'
            &&& scan(part).depth == 0
            &&& find(raw, '{') + part.len() <= raw.len()
            &&& raw.subrange(find(raw, '{'), find(raw, '{') + part.len()) == part
        }),
{
    let at = find(raw, '{');
    lemma_find(raw, '{');
    let t = raw.skip(at);
    lemma_closed_at(t, 1);
    let m = closed_at(t, 1);
    let part = t.take(m);
    assert(raw.subrange(at, at + m) =~= part);
    assert(part[0] == '{');
    let first = t.take(1);
    assert(first.drop_last() =~= Seq::<char>::empty());
    assert(scan(first) == scan(Seq::<char>::empty()).step('{'));
    assert(scan(first).depth == 1);
    assert(m > 1);
    let before = t.take(m - 1);
    assert(part.drop_last() =~= before);
    assert(scan(before).depth != 0);
    lemma_depth_positive(t, m - 1);
}

proof fn lemma_depth_positive(t: Seq<char>, k: int)
    requires
        1 <= k <= t.len(),
        t[0] == '{',
        forall|j: int| 1 <= j <= k ==> scan(#[trigger] t.take(j)).depth != 0,
    ensures
        scan(t.take(k)).depth > 0,
    decreases k,
{
    assert(t.take(k).drop_last() =~= t.take(k - 1));
    if k == 1 {
        assert(t.take(0) =~= Seq::<char>::empty());
        assert(scan(t.take(1)) == scan(t.take(0)).step('{'));
    } else {
        lemma_depth_positive(t, k - 1);
        assert(scan(t.take(k)) == scan(t.take(k - 1)).step(t[k - 1]));
    }
}

/// Looking for the object again, in the object itself, finds all of it.
pub proof fn law_json_part_is_stable(raw: Seq<char>)
    requires
        json_part(raw) is Some,
    ensures
        json_part(json_part(raw)->0) == json_part(raw),
{
    law_json_part_is_one_object(raw);
    let part = json_part(raw)->0;
    let t = raw.skip(find(raw, '{'));
    lemma_find(raw, '{');
    lemma_closed_at(t, 1);
    let m = part.len() as int;
    lemma_find(part, '{');
    assert(find(part, '{') == 0);
    assert(part.skip(0) =~= part);
    assert(part.take(m) =~= part);
    assert forall|j: int| 1 <= j < m implies scan(#[trigger] part.take(j)).depth != 0 by {
        assert(part.take(j) =~= t.take(j));
    }
    lemma_closed_at_is(part, m);
}

/// What stands before the first opening brace does not matter.
pub proof fn law_json_part_skips_preamble(preamble: Seq<char>, rest: Seq<char>)
    requires
        forall|i: int| 0 <= i < preamble.len() ==> #[trigger] preamble[i] != '{',
    ensures
        json_part(preamble + rest) == json_part(rest),
{
    let all = preamble + rest;
    lemma_find(all, '{');
    lemma_find(rest, '{');
    let at = find(rest, '{');
    let n = preamble.len() as int;
    assert(find(all, '{') == n + at) by {
        let f = find(all, '{');
        if f < n {
            assert(all[f] == preamble[f]);
        } else if f < n + at {
            assert(all[f] == rest[f - n]);
        } else if f > n + at {
            assert(all[n + at] == rest[at]);
        }
    }
    assert(all.skip(n + at) =~= rest.skip(at));
}

/// What stands behind the object does not matter.
pub proof fn law_json_part_ignores_what_follows(raw: Seq<char>, tail: Seq<char>)
    requires
        json_part(raw) is Some,
    ensures
        json_part(raw + tail) == json_part(raw),
{
    law_json_part_is_one_object(raw);
    let all = raw + tail;
    let at = find(raw, '{');
    lemma_find(raw, '{');
    lemma_find(all, '{');
    assert(find(all, '{') == at) by {
        let f = find(all, '{');
        if f < at {
            assert(all[f] == raw[f]);
        } else if f > at {
            assert(all[at] == raw[at]);
        }
    }
    let t = raw.skip(at);
    let u = all.skip(at);
    lemma_closed_at(t, 1);
    let m = closed_at(t, 1);
    assert forall|j: int| 0 <= j <= m implies #[trigger] u.take(j) == t.take(j) by {
        assert(u.take(j) =~= t.take(j));
    }
    assert(scan(u.take(m)).depth == 0);
    assert forall|j: int| 1 <= j < m implies scan(#[trigger] u.take(j)).depth != 0 by {
        assert(scan(t.take(j)).depth != 0);
    }
    lemma_closed_at_is(u, m);
}

// ---------------------------------------------------------------------------
// Objects by their grammar
// ---------------------------------------------------------------------------

/// A character of a JSON string: one that stands for itself, or one behind a backslash.
pub enum StringItem {
    Plain(char),
    Escaped(char),
}

/// What stands between the braces of an object, as far as braces and strings go: other
/// characters, strings and objects.
pub enum JsonItems {
    End,
    Other(char, Box<JsonItems>),
    Text(Seq<StringItem>, Box<JsonItems>),
    Object(Box<JsonItems>, Box<JsonItems>),
}

/// The inside of a string as it is written.
pub open spec fn string_written(items: Seq<StringItem>) -> Seq<char>
    decreases items.len(),
{
    if items.len() == 0 {
        Seq::empty()
    } else {
        string_written(items.drop_last()) + match items.last() {
            StringItem::Plain(c) => seq![c],
            StringItem::Escaped(c) => seq!['\\', c],
        }
    }
}

/// Whether no character that stands for itself in a string is a quote or a backslash.
pub open spec fn is_string(items: Seq<StringItem>) -> bool {
    forall|i: int|
        0 <= i < items.len() ==> (#[trigger] items[i] matches StringItem::Plain(c) ==> c != '"' && c
            != '\\')
}

impl JsonItems {
    /// The items as they are written.
    pub open spec fn written(self) -> Seq<char>
        decreases self,
    {
        match self {
            JsonItems::End => Seq::empty(),
            JsonItems::Other(c, rest) => seq![c] + rest.written(),
            JsonItems::Text(t, rest) => seq!['"'] + string_written(t) + seq!['"'] + rest.written(),
            JsonItems::Object(inside, rest) => seq!['{'] + inside.written() + seq!['}']
                + rest.written(),
        }
    }

    /// Whether every string is one, and no other character is a brace or a quote.
    pub open spec fn wf(self) -> bool
        decreases self,
    {
        match self {
            JsonItems::End => true,
            JsonItems::Other(c, rest) => c != '{' && c != '}' && c != '"' && rest.wf(),
            JsonItems::Text(t, rest) => is_string(t) && rest.wf(),
            JsonItems::Object(inside, rest) => inside.wf() && rest.wf(),
        }
    }
}

/// What stands behind an opening brace that is never closed: items, and then nothing more, a
/// string that does not end, or another brace that is never closed.
pub enum Unfinished {
    Inside(JsonItems),
    InString(JsonItems, Seq<StringItem>),
    InEscape(JsonItems, Seq<StringItem>),
    Deeper(JsonItems, Box<Unfinished>),
}

impl Unfinished {
    /// The text as it is written.
    pub open spec fn written(self) -> Seq<char>
        decreases self,
    {
        match self {
            Unfinished::Inside(items) => items.written(),
            Unfinished::InString(items, t) => items.written() + (seq!['"'] + string_written(t)),
            Unfinished::InEscape(items, t) => items.written() + (seq!['"'] + string_written(t) + seq![
                '\\',
            ]),
            Unfinished::Deeper(items, more) => items.written() + (seq!['{'] + more.written()),
        }
    }

    /// Whether all items and strings are such.
    pub open spec fn wf(self) -> bool
        decreases self,
    {
        match self {
            Unfinished::Inside(items) => items.wf(),
            Unfinished::InString(items, t) => items.wf() && is_string(t),
            Unfinished::InEscape(items, t) => items.wf() && is_string(t),
            Unfinished::Deeper(items, more) => items.wf() && more.wf(),
        }
    }
}

/// What is known behind `s`, if `st` was known before it.
spec fn scan_from(st: Scan, s: Seq<char>) -> Scan
    decreases s.len(),
{
    if s.len() == 0 {
        st
    } else {
        scan_from(st, s.drop_last()).step(s.last())
    }
}

/// No more braces are closed behind any part of `s` than were opened in it.
spec fn stays_above(st: Scan, s: Seq<char>) -> bool {
    forall|k: int| 0 <= k <= s.len() ==> scan_from(st, #[trigger] s.take(k)).depth >= st.depth
}

proof fn lemma_scan_from_all(s: Seq<char>)
    ensures
        scan(s) == scan_from(Scan { depth: 0, in_string: false, escape: false }, s),
    decreases s.len(),
{
    if s.len() > 0 {
        lemma_scan_from_all(s.drop_last());
    }
}

proof fn lemma_scan_from_add(st: Scan, a: Seq<char>, b: Seq<char>)
    ensures
        scan_from(st, a + b) == scan_from(scan_from(st, a), b),
    decreases b.len(),
{
    if b.len() == 0 {
        assert(a + b =~= a);
    } else {
        lemma_scan_from_add(st, a, b.drop_last());
        assert((a + b).drop_last() =~= a + b.drop_last());
    }
}

proof fn lemma_scan_from_one(st: Scan, c: char)
    ensures
        scan_from(st, seq![c]) == st.step(c),
{
    assert(seq![c].drop_last() =~= Seq::<char>::empty());
    assert(scan_from(st, Seq::<char>::empty()) == st);
}

proof fn lemma_stays_above_add(st: Scan, a: Seq<char>, b: Seq<char>)
    requires
        stays_above(st, a),
        stays_above(scan_from(st, a), b),
        scan_from(st, a).depth >= st.depth,
    ensures
        stays_above(st, a + b),
{
    let s = a + b;
    assert forall|k: int| 0 <= k <= s.len() implies scan_from(st, #[trigger] s.take(k)).depth
        >= st.depth by {
        if k <= a.len() {
            assert(s.take(k) =~= a.take(k));
        } else {
            let m = k - a.len();
            assert(s.take(k) =~= a + b.take(m));
            lemma_scan_from_add(st, a, b.take(m));
        }
    }
}

proof fn lemma_stays_above_one(st: Scan, c: char)
    requires
        st.step(c).depth >= st.depth,
    ensures
        stays_above(st, seq![c]),
{
    let s = seq![c];
    lemma_scan_from_one(st, c);
    assert forall|k: int| 0 <= k <= s.len() implies scan_from(st, #[trigger] s.take(k)).depth
        >= st.depth by {
        if k == 0 {
            assert(s.take(k) =~= Seq::<char>::empty());
        } else {
            assert(s.take(k) =~= s);
        }
    }
}

proof fn lemma_scan_string(st: Scan, items: Seq<StringItem>)
    requires
        st.in_string && !st.escape,
        is_string(items),
    ensures
        scan_from(st, string_written(items)) == st,
        stays_above(st, string_written(items)),
    decreases items.len(),
{
    let s = string_written(items);
    if items.len() == 0 {
        assert forall|k: int| 0 <= k <= s.len() implies scan_from(st, #[trigger] s.take(k)).depth
            >= st.depth by {
            assert(s.take(k) =~= s);
        }
    } else {
        let front = items.drop_last();
        assert(forall|i: int| 0 <= i < front.len() ==> #[trigger] front[i] == items[i]);
        assert(is_string(front));
        lemma_scan_string(st, front);
        let w = string_written(front);
        let last = items[items.len() - 1];
        match last {
            StringItem::Plain(c) => {
                lemma_scan_from_one(st, c);
                lemma_stays_above_one(st, c);
                lemma_scan_from_add(st, w, seq![c]);
                lemma_stays_above_add(st, w, seq![c]);
            },
            StringItem::Escaped(c) => {
                let mid = st.step('\\');
                lemma_scan_from_one(st, '\\');
                lemma_scan_from_one(mid, c);
                lemma_stays_above_one(st, '\\');
                lemma_stays_above_one(mid, c);
                lemma_scan_from_add(st, seq!['\\'], seq![c]);
                lemma_stays_above_add(st, seq!['\\'], seq![c]);
                assert(seq!['\\'] + seq![c] =~= seq!['\\', c]);
                lemma_scan_from_add(st, w, seq!['\\', c]);
                lemma_stays_above_add(st, w, seq!['\\', c]);
            },
        }
    }
}

proof fn lemma_scan_items(st: Scan, items: JsonItems)
    requires
        !st.in_string && !st.escape,
        items.wf(),
    ensures
        scan_from(st, items.written()) == st,
        stays_above(st, items.written()),
    decreases items,
{
    match items {
        JsonItems::End => {
            let s = items.written();
            assert forall|k: int|
                0 <= k <= s.len() implies scan_from(st, #[trigger] s.take(k)).depth >= st.depth by {
                assert(s.take(k) =~= s);
            }
        },
        JsonItems::Other(c, rest) => {
            lemma_scan_items(st, *rest);
            lemma_scan_from_one(st, c);
            lemma_stays_above_one(st, c);
            lemma_scan_from_add(st, seq![c], rest.written());
            lemma_stays_above_add(st, seq![c], rest.written());
        },
        JsonItems::Text(t, rest) => {
            let inside = st.step('"');
            lemma_scan_items(st, *rest);
            lemma_scan_from_one(st, '"');
            lemma_stays_above_one(st, '"');
            lemma_scan_string(inside, t);
            lemma_scan_from_one(inside, '"');
            lemma_stays_above_one(inside, '"');
            let a = seq!['"'];
            let b = string_written(t);
            lemma_scan_from_add(st, a, b);
            lemma_stays_above_add(st, a, b);
            lemma_scan_from_add(st, a + b, a);
            lemma_stays_above_add(st, a + b, a);
            lemma_scan_from_add(st, a + b + a, rest.written());
            lemma_stays_above_add(st, a + b + a, rest.written());
        },
        JsonItems::Object(inside, rest) => {
            let deeper = st.step('{');
            lemma_scan_items(st, *rest);
            lemma_scan_from_one(st, '{');
            lemma_stays_above_one(st, '{');
            lemma_scan_items(deeper, *inside);
            lemma_scan_from_one(deeper, '}');
            let a = seq!['{'];
            let b = inside.written();
            let c = seq!['}'];
            lemma_scan_from_add(st, a, b);
            lemma_stays_above_add(st, a, b);
            lemma_scan_from_add(st, a + b, c);
            let abc = a + b + c;
            assert(stays_above(st, abc)) by {
                assert forall|k: int|
                    0 <= k <= abc.len() implies scan_from(st, #[trigger] abc.take(k)).depth
                    >= st.depth by {
                    if k < abc.len() {
                        assert(abc.take(k) =~= (a + b).take(k));
                    } else {
                        assert(abc.take(k) =~= abc);
                    }
                }
            }
            lemma_scan_from_add(st, abc, rest.written());
            lemma_stays_above_add(st, abc, rest.written());
        },
    }
}

proof fn lemma_scan_unfinished(st: Scan, u: Unfinished)
    requires
        !st.in_string && !st.escape,
        u.wf(),
    ensures
        stays_above(st, u.written()),
    decreases u,
{
    match u {
        Unfinished::Inside(items) => {
            lemma_scan_items(st, items);
        },
        Unfinished::InString(items, t) => {
            let inside = st.step('"');
            lemma_scan_items(st, items);
            lemma_scan_from_one(st, '"');
            lemma_stays_above_one(st, '"');
            lemma_scan_string(inside, t);
            lemma_stays_above_add(st, seq!['"'], string_written(t));
            lemma_stays_above_add(st, items.written(), seq!['"'] + string_written(t));
        },
        Unfinished::InEscape(items, t) => {
            let inside = st.step('"');
            let a = seq!['"'];
            let b = string_written(t);
            lemma_scan_items(st, items);
            lemma_scan_from_one(st, '"');
            lemma_stays_above_one(st, '"');
            lemma_scan_string(inside, t);
            lemma_scan_from_add(st, a, b);
            lemma_stays_above_add(st, a, b);
            lemma_stays_above_one(inside, '\\');
            lemma_stays_above_add(st, a + b, seq!['\\']);
            lemma_stays_above_add(st, items.written(), a + b + seq!['\\']);
        },
        Unfinished::Deeper(items, more) => {
            let deeper = st.step('{');
            lemma_scan_items(st, items);
            lemma_scan_from_one(st, '{');
            lemma_stays_above_one(st, '{');
            lemma_scan_unfinished(deeper, *more);
            lemma_stays_above_add(st, seq!['{'], more.written());
            lemma_stays_above_add(st, items.written(), seq!['{'] + more.written());
        },
    }
}

proof fn lemma_open_object(w: Seq<char>, k: int)
    requires
        1 <= k <= w.len() + 1,
        stays_above(Scan { depth: 1, in_string: false, escape: false }, w),
    ensures
        scan((seq!['{'] + w).take(k)).depth >= 1,
{
    let zero = Scan { depth: 0, in_string: false, escape: false };
    let one = Scan { depth: 1, in_string: false, escape: false };
    let s = seq!['{'] + w;
    assert(s.take(k) =~= seq!['{'] + w.take(k - 1));
    lemma_scan_from_all(s.take(k));
    lemma_scan_from_one(zero, '{');
    lemma_scan_from_add(zero, seq!['{'], w.take(k - 1));
    assert(scan_from(one, w.take(k - 1)).depth >= 1);
}

/// An object is found whole, from its opening brace to the brace that closes it, whatever stands
/// before it without a brace and whatever follows: braces in strings do not count, a string ends
/// at the next double quote that is not behind a backslash, and no other character opens or ends
/// anything.
pub proof fn law_an_object_is_found_whole(preamble: Seq<char>, items: JsonItems, tail: Seq<char>)
    requires
        forall|i: int| 0 <= i < preamble.len() ==> #[trigger] preamble[i] != '{',
        items.wf(),
    ensures
        json_part(preamble + (seq!['{'] + items.written() + seq!['}'] + tail)) == Some(
            seq!['{'] + items.written() + seq!['}'],
        ),
{
    let w = items.written();
    let object = seq!['{'] + w + seq!['}'];
    let t = object + tail;
    let zero = Scan { depth: 0, in_string: false, escape: false };
    let one = Scan { depth: 1, in_string: false, escape: false };
    lemma_scan_items(one, items);
    lemma_scan_from_one(zero, '{');
    lemma_scan_from_one(one, '}');
    lemma_scan_from_add(zero, seq!['{'], w);
    lemma_scan_from_add(zero, seq!['{'] + w, seq!['}']);
    lemma_scan_from_all(object);
    let m = object.len() as int;
    assert forall|j: int| 1 <= j < m implies scan(#[trigger] t.take(j)).depth != 0 by {
        lemma_open_object(w, j);
        assert(t.take(j) =~= (seq!['{'] + w).take(j));
    }
    assert(t.take(m) =~= object);
    lemma_find(t, '{');
    assert(t[0] == '{');
    assert(t.skip(0) =~= t);
    lemma_closed_at_is(t, m);
    law_json_part_skips_preamble(preamble, t);
}

/// Where no brace is opened, or the first one is never closed, no object is found.
pub proof fn law_an_unfinished_object_is_not_found(preamble: Seq<char>, u: Unfinished)
    requires
        forall|i: int| 0 <= i < preamble.len() ==> #[trigger] preamble[i] != '{',
        u.wf(),
    ensures
        json_part(preamble) is None,
        json_part(preamble + (seq!['{'] + u.written())) is None,
{
    let one = Scan { depth: 1, in_string: false, escape: false };
    let w = u.written();
    let t = seq!['{'] + w;
    lemma_scan_unfinished(one, u);
    assert forall|j: int| 1 <= j < t.len() + 1 implies scan(#[trigger] t.take(j)).depth != 0 by {
        lemma_open_object(w, j);
    }
    lemma_find(t, '{');
    assert(t[0] == '{');
    assert(t.skip(0) =~= t);
    lemma_closed_at_is(t, t.len() as int + 1);
    law_json_part_skips_preamble(preamble, t);
    lemma_find(preamble, '{');
    assert(preamble.skip(find(preamble, '{')) =~= Seq::<char>::empty());
}

/// Character by character: nothing but a double quote opens or ends a string, and nothing but a
/// brace outside a string opens or closes an object.
pub proof fn law_only_quotes_and_braces_count(s: Seq<char>, c: char)
    ensures
        c != '"' ==> scan(s.push(c)).in_string == scan(s).in_string,
        c == '"' && !scan(s).escape ==> scan(s.push(c)).in_string != scan(s).in_string,
        scan(s).escape ==> scan(s.push(c)).in_string == scan(s).in_string,
        scan(s).in_string || (c != '{' && c != '}') ==> scan(s.push(c)).depth == scan(s).depth,
        scan(s.push(c)).escape <==> c == '\\' && scan(s).in_string && !scan(s).escape,
{
    assert(s.push(c).drop_last() =~= s);
    lemma_escape_in_string(s);
}

proof fn lemma_escape_in_string(s: Seq<char>)
    ensures
        scan(s).escape ==> scan(s).in_string,
    decreases s.len(),
{
    if s.len() > 0 {
        lemma_escape_in_string(s.drop_last());
    }
}

} // verus!
