//! Amounts of ingredients, such as `200g` or `大さじ1`.

use crate::number::is_digit;
use crate::text::{chars_of, find, lemma_find, same_text, slice_text, starts_with, trim, trimmed};
use vstd::prelude::*;

verus! {

/// An amount in words: some, a pinch, a little.
pub open spec fn vague_amount(s: Seq<char>) -> bool {
    s == "適量"@ || s == "少々"@ || s == "少量"@
}

/// A line that holds an amount and nothing else.
pub open spec fn amount_only(s: Seq<char>) -> bool {
    ||| vague_amount(s)
    ||| s.len() > 0 && is_digit(s[0])
    ||| "大さじ"@.is_prefix_of(s)
    ||| "小さじ"@.is_prefix_of(s)
    ||| "カップ"@.is_prefix_of(s)
}

fn is_vague_amount(s: &str) -> (r: bool)
    ensures
        r == vague_amount(s@),
{
    same_text(s, "適量") || same_text(s, "少々") || same_text(s, "少量")
}

/// Whether a line holds an amount and nothing else, such as `大さじ1`, `小さじ1/2`, `1合`, `200g`,
/// `適量` or `少々`.
pub fn is_amount_only(s: &str) -> (r: bool)
    ensures
        r == amount_only(s@),
{
    if is_vague_amount(s) {
        return true;
    }
    let cs = chars_of(s);
    if cs.len() > 0 && '0' <= cs[0] && cs[0] <= '9' {
        return true;
    }
    starts_with(s, "大さじ") || starts_with(s, "小さじ") || starts_with(s, "カップ")
}

/// A character that can be part of a number: a digit, a slash or a point.
pub open spec fn number_char(c: char) -> bool {
    is_digit(c) || c == '/' || c == '.'
}

/// How many characters `s` starts with that can be part of a number.
pub open spec fn number_len(s: Seq<char>) -> int
    decreases s.len(),
{
    if s.len() > 0 && number_char(s[0]) {
        1 + number_len(s.drop_first())
    } else {
        0
    }
}

/// The number at the start of a text is as long as it can be.
pub proof fn lemma_number_len(s: Seq<char>)
    ensures
        0 <= number_len(s) <= s.len(),
        forall|j: int| 0 <= j < number_len(s) ==> number_char(#[trigger] s[j]),
        number_len(s) < s.len() ==> !number_char(s[number_len(s)]),
    decreases s.len(),
{
    if s.len() > 0 && number_char(s[0]) {
        let t = s.drop_first();
        lemma_number_len(t);
        assert forall|j: int| 0 <= j < number_len(s) implies number_char(#[trigger] s[j]) by {
            if j > 0 {
                assert(t[j - 1] == s[j]);
            }
        }
    }
}

/// The amount and the unit behind a leading unit: `大さじ1` is `1` and `大さじ`.
pub open spec fn leading_unit(s: Seq<char>, unit: Seq<char>) -> (Seq<char>, Seq<char>) {
    (trimmed(s.skip(unit.len() as int)), unit)
}

/// The amount and the unit that `s` names.
pub open spec fn amount_parts(s: Seq<char>) -> (Seq<char>, Seq<char>) {
    if vague_amount(s) {
        (s, Seq::empty())
    } else if "大さじ"@.is_prefix_of(s) {
        leading_unit(s, "大さじ"@)
    } else if "小さじ"@.is_prefix_of(s) {
        leading_unit(s, "小さじ"@)
    } else if "カップ"@.is_prefix_of(s) {
        leading_unit(s, "カップ"@)
    } else {
        (s.take(number_len(s)), trimmed(s.skip(number_len(s))))
    }
}

fn split_leading_unit(s: &str, unit: &str) -> (r: (String, String))
    requires
        unit@.is_prefix_of(s@),
    ensures
        (r.0@, r.1@) == leading_unit(s@, unit@),
{
    let cs = chars_of(s);
    let rest = slice_text(&cs, unit.unicode_len(), cs.len());
    assert(rest@ =~= s@.skip(unit@.len() as int));
    (trim(rest.as_str()), unit.to_owned())
}

/// Splits an amount from its unit: `大さじ1` into `1` and `大さじ`, `200g` into `200` and `g`.
pub fn split_amount(s: &str) -> (r: (String, String))
    ensures
        (r.0@, r.1@) == amount_parts(s@),
{
    if is_vague_amount(s) {
        return (s.to_owned(), String::new());
    }
    if starts_with(s, "大さじ") {
        return split_leading_unit(s, "大さじ");
    }
    if starts_with(s, "小さじ") {
        return split_leading_unit(s, "小さじ");
    }
    if starts_with(s, "カップ") {
        return split_leading_unit(s, "カップ");
    }
    let cs = chars_of(s);
    let n: usize = cs.len();
    let mut end: usize = 0;
    while end < n && (('0' <= cs[end] && cs[end] <= '9') || cs[end] == '/' || cs[end] == '.')
        invariant
            end <= n == cs@.len(),
            forall|j: int| 0 <= j < end ==> number_char(#[trigger] cs@[j]),
        decreases n - end,
    {
        end += 1;
    }
    proof {
        lemma_number_len(cs@);
        assert(number_len(cs@) == end) by {
            if number_len(cs@) < end {
                assert(number_char(cs@[number_len(cs@)]));
            }
        }
        assert(cs@.subrange(0, end as int) =~= cs@.take(end as int));
        assert(cs@.subrange(end as int, n as int) =~= cs@.skip(end as int));
    }
    let unit = slice_text(&cs, end, n);
    (slice_text(&cs, 0, end), trim(unit.as_str()))
}

/// The name, amount and unit of a line that holds them all, with a space behind the name. A line
/// without a space is a name.
pub open spec fn ingredient_parts(s: Seq<char>) -> (Seq<char>, Seq<char>, Seq<char>) {
    let n = find(s, ' ');
    if n == s.len() {
        (s, Seq::empty(), Seq::empty())
    } else {
        let (amount, unit) = amount_parts(trimmed(s.skip(n + 1)));
        (s.take(n), amount, unit)
    }
}

/// Splits `薄力粉 200g` into `薄力粉`, `200` and `g`.
pub fn parse_ingredient_line(s: &str) -> (r: (String, String, String))
    ensures
        (r.0@, r.1@, r.2@) == ingredient_parts(s@),
{
    let cs = chars_of(s);
    let n: usize = cs.len();
    let mut at: usize = 0;
    while at < n && cs[at] != ' '
        invariant
            at <= n == cs@.len(),
            forall|j: int| 0 <= j < at ==> #[trigger] cs@[j] != ' ',
        decreases n - at,
    {
        at += 1;
    }
    proof {
        lemma_find(cs@, ' ');
        assert(find(cs@, ' ') == at) by {
            if find(cs@, ' ') < at {
                assert(cs@[find(cs@, ' ')] == ' ');
            }
        }
    }
    if at == n {
        return (s.to_owned(), String::new(), String::new());
    }
    let rest = slice_text(&cs, at + 1, n);
    proof {
        assert(rest@ =~= s@.skip(at + 1));
        assert(cs@.subrange(0, at as int) =~= cs@.take(at as int));
    }
    let (amount, unit) = split_amount(trim(rest.as_str()).as_str());
    (slice_text(&cs, 0, at), amount, unit)
}

/// A number and its unit are all of the text but the whitespace between them.
pub proof fn law_amount_keeps_number_and_unit(s: Seq<char>)
    requires
        !vague_amount(s),
        !"大さじ"@.is_prefix_of(s),
        !"小さじ"@.is_prefix_of(s),
        !"カップ"@.is_prefix_of(s),
    ensures
        ({
            let (amount, unit) = amount_parts(s);
            &&& amount + s.skip(amount.len() as int) == s
            &&& unit == trimmed(s.skip(amount.len() as int))
            &&& forall|j: int| 0 <= j < amount.len() ==> number_char(#[trigger] amount[j])
        }),
{
    lemma_number_len(s);
    let n = number_len(s);
    assert(s.take(n) + s.skip(n) =~= s);
}

/// A unit that stands before the number is told from it, and what is left is the number.
pub proof fn law_unit_before_the_number(rest: Seq<char>)
    ensures
        amount_parts("大さじ"@ + rest) == (trimmed(rest), "大さじ"@),
        amount_parts("小さじ"@ + rest) == (trimmed(rest), "小さじ"@),
        amount_parts("カップ"@ + rest) == (trimmed(rest), "カップ"@),
{
    reveal_strlit("大さじ");
    reveal_strlit("小さじ");
    reveal_strlit("カップ");
    reveal_strlit("適量");
    reveal_strlit("少々");
    reveal_strlit("少量");
    let a = "大さじ"@ + rest;
    let b = "小さじ"@ + rest;
    let c = "カップ"@ + rest;
    assert(a.skip(3) =~= rest);
    assert(b.skip(3) =~= rest);
    assert(c.skip(3) =~= rest);
    assert(a.subrange(0, 3) =~= "大さじ"@);
    assert(b.subrange(0, 3) =~= "小さじ"@);
    assert(c.subrange(0, 3) =~= "カップ"@);
    assert(b[0] == '小' && c[0] == 'カ');
    assert(b.subrange(0, 3)[0] != "大さじ"@[0]);
    assert(c.subrange(0, 3)[0] != "大さじ"@[0]);
    assert(c.subrange(0, 3)[0] != "小さじ"@[0]);
    assert(a[0] == '大');
    assert("適量"@[0] == '適' && "少々"@[0] == '少' && "少量"@[0] == '少');
}

/// A number that stands before its unit is told from it: digits, slashes and points are the
/// number, and what is left is the unit.
pub proof fn law_number_before_the_unit(number: Seq<char>, unit: Seq<char>)
    requires
        forall|i: int|
            0 <= i < number.len() ==> '0' <= #[trigger] number[i] <= '9' || number[i] == '/'
                || number[i] == '.',
        unit.len() > 0 ==> !('0' <= unit[0] <= '9') && unit[0] != '/' && unit[0] != '.',
        number.len() > 0 || !(unit == "適量"@ || unit == "少々"@ || unit == "少量"@
            || "大さじ"@.is_prefix_of(unit) || "小さじ"@.is_prefix_of(unit)
            || "カップ"@.is_prefix_of(unit)),
    ensures
        amount_parts(number + unit) == (number, trimmed(unit)),
{
    reveal_strlit("大さじ");
    reveal_strlit("小さじ");
    reveal_strlit("カップ");
    reveal_strlit("適量");
    reveal_strlit("少々");
    reveal_strlit("少量");
    let s = number + unit;
    lemma_number_len(s);
    let n = number.len() as int;
    assert(number_len(s) == n) by {
        if number_len(s) < n {
            assert(s[number_len(s)] == number[number_len(s)]);
        } else if number_len(s) > n {
            assert(s[n] == unit[0]);
        }
    }
    assert(s.take(n) =~= number);
    assert(s.skip(n) =~= unit);
    if n > 0 {
        let c = number[0];
        assert(s[0] == c);
        assert(c != '大' && c != '小' && c != 'カ' && c != '適' && c != '少');
        if "大さじ"@.is_prefix_of(s) {
            assert(s.subrange(0, 3)[0] == '大');
        }
        if "小さじ"@.is_prefix_of(s) {
            assert(s.subrange(0, 3)[0] == '小');
        }
        if "カップ"@.is_prefix_of(s) {
            assert(s.subrange(0, 3)[0] == 'カ');
        }
        assert("適量"@[0] == '適' && "少々"@[0] == '少' && "少量"@[0] == '少');
    } else {
        assert(s =~= unit);
    }
}

/// An amount in words is an amount without a unit.
pub proof fn law_amounts_in_words()
    ensures
        amount_parts("適量"@) == ("適量"@, Seq::<char>::empty()),
        amount_parts("少々"@) == ("少々"@, Seq::<char>::empty()),
        amount_parts("少量"@) == ("少量"@, Seq::<char>::empty()),
        amount_only("適量"@) && amount_only("少々"@) && amount_only("少量"@),
{
}

/// What begins with a digit or with a unit is an amount, whatever follows.
pub proof fn law_what_begins_like_an_amount_is_one(d: char, rest: Seq<char>)
    ensures
        '0' <= d <= '9' ==> amount_only(seq![d] + rest),
        amount_only("大さじ"@ + rest),
        amount_only("小さじ"@ + rest),
        amount_only("カップ"@ + rest),
{
    let a = "大さじ"@ + rest;
    let b = "小さじ"@ + rest;
    let c = "カップ"@ + rest;
    assert(a.subrange(0, "大さじ"@.len() as int) =~= "大さじ"@);
    assert(b.subrange(0, "小さじ"@.len() as int) =~= "小さじ"@);
    assert(c.subrange(0, "カップ"@.len() as int) =~= "カップ"@);
    assert((seq![d] + rest)[0] == d);
}

/// What begins with none of these and is no amount in words is no amount.
pub proof fn law_what_begins_otherwise_is_no_amount(s: Seq<char>)
    requires
        s.len() > 0 ==> !('0' <= s[0] <= '9'),
        s != "適量"@ && s != "少々"@ && s != "少量"@,
        forall|rest: Seq<char>| s != #[trigger] ("大さじ"@ + rest),
        forall|rest: Seq<char>| s != #[trigger] ("小さじ"@ + rest),
        forall|rest: Seq<char>| s != #[trigger] ("カップ"@ + rest),
    ensures
        !amount_only(s),
{
    if "大さじ"@.is_prefix_of(s) {
        let rest = s.skip("大さじ"@.len() as int);
        assert("大さじ"@ + rest =~= s);
    }
    if "小さじ"@.is_prefix_of(s) {
        let rest = s.skip("小さじ"@.len() as int);
        assert("小さじ"@ + rest =~= s);
    }
    if "カップ"@.is_prefix_of(s) {
        let rest = s.skip("カップ"@.len() as int);
        assert("カップ"@ + rest =~= s);
    }
}

/// A name ends at the first blank, and what stands behind it is the amount with its unit; without
/// a blank all of the line is the name.
pub proof fn law_name_ends_at_the_first_blank(name: Seq<char>, rest: Seq<char>)
    requires
        forall|i: int| 0 <= i < name.len() ==> #[trigger] name[i] != ' ',
    ensures
        ingredient_parts(name + seq![' '] + rest) == (
            name,
            amount_parts(trimmed(rest)).0,
            amount_parts(trimmed(rest)).1,
        ),
        ingredient_parts(name) == (name, Seq::<char>::empty(), Seq::<char>::empty()),
{
    let s = name + seq![' '] + rest;
    let n = name.len() as int;
    lemma_find(s, ' ');
    lemma_find(name, ' ');
    assert(find(s, ' ') == n) by {
        assert(s[n] == ' ');
        if find(s, ' ') < n {
            assert(s[find(s, ' ')] == name[find(s, ' ')]);
        }
    }
    assert(s.take(n) =~= name);
    assert(s.skip(n + 1) =~= rest);
}

} // verus!
