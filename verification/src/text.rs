//! Text helpers: decimal numerals, substring tests and lists of strings.

use vstd::prelude::*;
use vstd::string::StringExecFns;

verus! {

/// The characters of `text`, in order.
pub fn chars_of(text: &str) -> (out: Vec<char>)
    ensures
        out@ == text@,
{
    let mut out: Vec<char> = Vec::new();
    for c in it: text.chars()
        invariant
            it.seq() == text@,
            out@ == text@.take(it.index()),
    {
        out.push(c);
    }
    out
}

/// The one-character text of the decimal digit `d`.
pub open spec fn digit_text(d: nat) -> Seq<char> {
    seq![(48 + d) as char]
}

/// `n` in decimal, without leading zeros.
pub open spec fn decimal(n: nat) -> Seq<char>
    decreases n,
{
    if n < 10 {
        digit_text(n)
    } else {
        decimal(n / 10) + digit_text(n % 10)
    }
}

/// The digit `d` as a string slice.
fn digit(d: u32) -> (out: &'static str)
    requires
        d < 10,
    ensures
        out@ == digit_text(d as nat),
{
    proof {
        reveal_strlit("0");
        reveal_strlit("1");
        reveal_strlit("2");
        reveal_strlit("3");
        reveal_strlit("4");
        reveal_strlit("5");
        reveal_strlit("6");
        reveal_strlit("7");
        reveal_strlit("8");
        reveal_strlit("9");
    }
    match d {
        0 => "0",
        1 => "1",
        2 => "2",
        3 => "3",
        4 => "4",
        5 => "5",
        6 => "6",
        7 => "7",
        8 => "8",
        _ => "9",
    }
}

/// `n` in decimal, without leading zeros.
pub fn decimal_text(n: u32) -> (out: String)
    ensures
        out@ == decimal(n as nat),
    decreases n,
{
    if n < 10 {
        digit(n).to_owned()
    } else {
        let mut out = decimal_text(n / 10);
        out.append(digit(n % 10));
        out
    }
}

/// Whether `part` occurs in `whole` as a run of consecutive characters.
pub open spec fn occurs_in(part: Seq<char>, whole: Seq<char>) -> bool {
    exists|i: int|
        0 <= i <= whole.len() - part.len() && #[trigger] whole.subrange(i, i + part.len()) == part
}

/// Whether `whole` ends with `tail`.
pub open spec fn has_suffix(whole: Seq<char>, tail: Seq<char>) -> bool {
    tail.len() <= whole.len() && whole.skip(whole.len() - tail.len()) == tail
}

/// `whole` with the suffix `tail` taken off, where it is there.
pub open spec fn without_suffix(whole: Seq<char>, tail: Seq<char>) -> Seq<char> {
    if has_suffix(whole, tail) {
        whole.take(whole.len() - tail.len())
    } else {
        whole
    }
}

/// `c` with the letters A to Z in lower case and every other character unchanged.
pub open spec fn ascii_lower(c: char) -> char {
    if 'A' <= c && c <= 'Z' {
        (c as u32 + 32) as char
    } else {
        c
    }
}

/// Whether `a` and `b` are the same text but for the case of the letters A to Z.
pub open spec fn same_ignoring_case(a: Seq<char>, b: Seq<char>) -> bool {
    a.map_values(|c: char| ascii_lower(c)) == b.map_values(|c: char| ascii_lower(c))
}

/// Whether the run of `part.len()` characters of `whole` that starts at `at` is `part`.
fn matches_at(whole: &Vec<char>, at: usize, part: &Vec<char>) -> (out: bool)
    requires
        at + part.len() <= whole.len(),
    ensures
        out == (whole@.subrange(at as int, at + part.len()) == part@),
{
    let mut i: usize = 0;
    while i < part.len()
        invariant
            i <= part.len(),
            at + part.len() <= whole.len(),
            forall|k: int| 0 <= k < i ==> whole@[at + k] == part@[k],
        decreases part.len() - i,
    {
        if whole[at + i] != part[i] {
            assert(whole@.subrange(at as int, at + part.len())[i as int] != part@[i as int]);
            return false;
        }
        i = i + 1;
    }
    assert(whole@.subrange(at as int, at + part.len()) =~= part@);
    true
}

/// Whether `part` occurs in `whole`.
pub fn contains_text(whole: &str, part: &str) -> (out: bool)
    ensures
        out == occurs_in(part@, whole@),
{
    let w = chars_of(whole);
    let p = chars_of(part);
    if p.len() > w.len() {
        return false;
    }
    let last: usize = w.len() - p.len();
    let mut i: usize = 0;
    while i <= last
        invariant
            w@ == whole@,
            p@ == part@,
            last == w.len() - p.len(),
            i <= last + 1,
            forall|k: int| 0 <= k < i ==> #[trigger] whole@.subrange(k, k + part@.len()) != part@,
        decreases last + 1 - i,
    {
        if matches_at(&w, i, &p) {
            return true;
        }
        if i == last {
            return false;
        }
        i = i + 1;
    }
    false
}

/// Whether `whole` ends with `tail`.
pub fn ends_with_text(whole: &str, tail: &str) -> (out: bool)
    ensures
        out == has_suffix(whole@, tail@),
{
    let w = chars_of(whole);
    let t = chars_of(tail);
    if t.len() > w.len() {
        return false;
    }
    let at: usize = w.len() - t.len();
    assert(whole@.subrange(at as int, at + tail@.len()) =~= whole@.skip(at as int));
    matches_at(&w, at, &t)
}

/// `whole` with the suffix `tail` taken off, where it is there.
pub fn trim_end_text(whole: &str, tail: &str) -> (out: String)
    ensures
        out@ == without_suffix(whole@, tail@),
{
    if !ends_with_text(whole, tail) {
        return whole.to_owned();
    }
    let end: usize = chars_of(whole).len() - chars_of(tail).len();
    whole.substring_char(0, end).to_owned()
}

/// `c` with the letters A to Z in lower case.
fn lower(c: char) -> (out: char)
    ensures
        out == ascii_lower(c),
{
    match c {
        'A' => 'a',
        'B' => 'b',
        'C' => 'c',
        'D' => 'd',
        'E' => 'e',
        'F' => 'f',
        'G' => 'g',
        'H' => 'h',
        'I' => 'i',
        'J' => 'j',
        'K' => 'k',
        'L' => 'l',
        'M' => 'm',
        'N' => 'n',
        'O' => 'o',
        'P' => 'p',
        'Q' => 'q',
        'R' => 'r',
        'S' => 's',
        'T' => 't',
        'U' => 'u',
        'V' => 'v',
        'W' => 'w',
        'X' => 'x',
        'Y' => 'y',
        'Z' => 'z',
        other => other,
    }
}

/// Whether `a` and `b` are the same text but for the case of the letters A to Z.
pub fn eq_ignoring_case(a: &str, b: &str) -> (out: bool)
    ensures
        out == same_ignoring_case(a@, b@),
{
    let x = chars_of(a);
    let y = chars_of(b);
    let ghost la = a@.map_values(|c: char| ascii_lower(c));
    let ghost lb = b@.map_values(|c: char| ascii_lower(c));
    if x.len() != y.len() {
        assert(la.len() != lb.len());
        return false;
    }
    let mut i: usize = 0;
    while i < x.len()
        invariant
            x@ == a@,
            y@ == b@,
            x.len() == y.len(),
            i <= x.len(),
            la == a@.map_values(|c: char| ascii_lower(c)),
            lb == b@.map_values(|c: char| ascii_lower(c)),
            forall|k: int| 0 <= k < i ==> la[k] == lb[k],
        decreases x.len() - i,
    {
        if lower(x[i]) != lower(y[i]) {
            assert(la[i as int] != lb[i as int]);
            return false;
        }
        i = i + 1;
    }
    assert(la =~= lb);
    true
}

/// The texts of a list of strings.
pub open spec fn texts(list: Seq<String>) -> Seq<Seq<char>> {
    list.map_values(|s: String| s@)
}

/// The text of an optional string.
pub open spec fn opt_text(s: Option<String>) -> Option<Seq<char>> {
    match s {
        Some(t) => Some(t@),
        None => None,
    }
}

/// Whether `list` holds a string with the text of `item`.
pub fn contains_string(list: &Vec<String>, item: &String) -> (out: bool)
    ensures
        out == texts(list@).contains(item@),
{
    let mut i: usize = 0;
    while i < list.len()
        invariant
            i <= list.len(),
            forall|k: int| 0 <= k < i ==> #[trigger] texts(list@)[k] != item@,
        decreases list.len() - i,
    {
        if list[i] == *item {
            assert(texts(list@)[i as int] == item@);
            return true;
        }
        i = i + 1;
    }
    false
}

/// A copy of a list of strings.
pub fn clone_strings(list: &[String]) -> (out: Vec<String>)
    ensures
        out@ == list@,
{
    let mut out: Vec<String> = Vec::new();
    let mut i: usize = 0;
    while i < list.len()
        invariant
            i <= list.len(),
            out@ == list@.take(i as int),
        decreases list.len() - i,
    {
        out.push(list[i].clone());
        i = i + 1;
    }
    assert(list@.take(i as int) =~= list@);
    out
}

/// A copy of an optional string.
pub fn clone_opt(s: &Option<String>) -> (out: Option<String>)
    ensures
        out == *s,
{
    match s {
        Some(t) => Some(t.clone()),
        None => None,
    }
}

/// The number that decimal digits stand for.
pub open spec fn value_of(digits: Seq<char>) -> int
    decreases digits.len(),
{
    if digits.len() == 0 {
        0
    } else {
        value_of(digits.drop_last()) * 10 + (digits.last() as int - '0' as int)
    }
}

/// The decimal form of a number is made of digits, stands for the number, and has no leading zero
/// but for zero itself.
pub proof fn law_decimal_stands_for_number(n: nat)
    ensures
        decimal(n).len() > 0,
        forall|i: int| 0 <= i < decimal(n).len() ==> '0' <= #[trigger] decimal(n)[i] <= '9',
        value_of(decimal(n)) == n,
        n > 0 ==> decimal(n)[0] != '0',
        n == 0 ==> decimal(n).len() == 1,
    decreases n,
{
    if n >= 10 {
        law_decimal_stands_for_number(n / 10);
        assert(decimal(n).drop_last() =~= decimal(n / 10));
    } else {
        assert(decimal(n).drop_last() =~= Seq::empty());
        assert(value_of(decimal(n).drop_last()) == 0);
    }
    assert(decimal(n).last() == (48 + n % 10) as char);
}

/// What is written of a number is its decimal form.
pub proof fn law_number_is_written_in_decimal(n: u32, out: String)
    requires
        call_ensures(decimal_text, (n,), out),
    ensures
        out@.len() > 0,
        forall|i: int| 0 <= i < out@.len() ==> '0' <= #[trigger] out@[i] <= '9',
        value_of(out@) == n,
        n > 0 ==> out@[0] != '0',
        n == 0 ==> out@.len() == 1,
{
    law_decimal_stands_for_number(n as nat);
}

/// A text occurs in another exactly where that one is something, the text, and something more.
pub proof fn law_part_is_found(whole: &str, part: &str, out: bool)
    requires
        call_ensures(contains_text, (whole, part), out),
    ensures
        out <==> exists|before: Seq<char>, behind: Seq<char>|
            whole@ == #[trigger] (before + part@ + behind),
{
    if out {
        let i = choose|i: int|
            0 <= i <= whole@.len() - part@.len() && #[trigger] whole@.subrange(i, i + part@.len())
                == part@;
        assert(whole@ =~= whole@.take(i) + part@ + whole@.skip(i + part@.len()));
    }
    if exists|before: Seq<char>, behind: Seq<char>|
        whole@ == #[trigger] (before + part@ + behind) {
        let (before, behind) = choose|before: Seq<char>, behind: Seq<char>|
            whole@ == #[trigger] (before + part@ + behind);
        let i = before.len() as int;
        assert(whole@.subrange(i, i + part@.len()) =~= part@);
    }
}

/// A text ends with another exactly where it is something and the other; taking that ending off
/// leaves the something, and a text without it stays whole.
pub proof fn law_ending_is_taken_off(whole: &str, tail: &str, ends: bool, out: String)
    requires
        call_ensures(ends_with_text, (whole, tail), ends),
        call_ensures(trim_end_text, (whole, tail), out),
    ensures
        ends <==> exists|stem: Seq<char>| whole@ == #[trigger] (stem + tail@),
        forall|stem: Seq<char>| whole@ == #[trigger] (stem + tail@) ==> out@ == stem,
        !ends ==> out@ == whole@,
{
    if ends {
        assert(whole@ =~= whole@.take(whole@.len() - tail@.len()) + tail@);
    }
    assert forall|stem: Seq<char>| whole@ == #[trigger] (stem + tail@) implies has_suffix(
        whole@,
        tail@,
    ) && out@ == stem by {
        assert(whole@.skip(whole@.len() - tail@.len()) =~= tail@);
        assert(whole@.take(whole@.len() - tail@.len()) =~= stem);
    }
}

/// Whether two characters are the same, or a capital and a small letter of the same kind from A to
/// Z.
pub open spec fn same_letter(x: char, y: char) -> bool {
    ||| x == y
    ||| 'A' <= x <= 'Z' && y as int == x as int + 32
    ||| 'A' <= y <= 'Z' && x as int == y as int + 32
}

/// Texts are the same but for the case of letters exactly where they are as long and have the same
/// letters throughout.
pub proof fn law_case_is_ignored(a: Seq<char>, b: Seq<char>)
    ensures
        same_ignoring_case(a, b) <==> a.len() == b.len() && forall|i: int|
            0 <= i < a.len() ==> same_letter(#[trigger] a[i], b[i]),
{
    let la = a.map_values(|c: char| ascii_lower(c));
    let lb = b.map_values(|c: char| ascii_lower(c));
    if same_ignoring_case(a, b) {
        assert(la.len() == a.len() && lb.len() == b.len());
        assert forall|i: int| 0 <= i < a.len() implies same_letter(#[trigger] a[i], b[i]) by {
            assert(la[i] == lb[i]);
        }
    }
    if a.len() == b.len() && forall|i: int|
        0 <= i < a.len() ==> same_letter(#[trigger] a[i], b[i]) {
        assert forall|i: int| 0 <= i < a.len() implies #[trigger] la[i] == lb[i] by {
            assert(same_letter(a[i], b[i]));
        }
        assert(la =~= lb);
    }
}

/// Two texts are compared letter by letter, whatever their case.
pub proof fn law_compared_in_either_case(a: &str, b: &str, out: bool)
    requires
        call_ensures(eq_ignoring_case, (a, b), out),
    ensures
        out <==> a@.len() == b@.len() && forall|i: int|
            0 <= i < a@.len() ==> same_letter(#[trigger] a@[i], b@[i]),
{
    law_case_is_ignored(a@, b@);
}

/// A list holds a string exactly where one of its strings has the same text.
pub proof fn law_string_is_found(list: &Vec<String>, item: &String, out: bool)
    requires
        call_ensures(contains_string, (list, item), out),
    ensures
        out <==> exists|i: int| 0 <= i < list@.len() && (#[trigger] list@[i])@ == item@,
{
    let all = texts(list@);
    assert(all.len() == list@.len());
    if out {
        let i = choose|i: int| 0 <= i < all.len() && all[i] == item@;
        assert(list@[i]@ == item@);
    }
    if exists|i: int| 0 <= i < list@.len() && (#[trigger] list@[i])@ == item@ {
        let i = choose|i: int| 0 <= i < list@.len() && (#[trigger] list@[i])@ == item@;
        assert(all[i] == item@);
    }
}

/// Copies have the texts of what they are copies of, and the characters of a text are its own.
pub proof fn law_copies_are_the_same(
    list: &[String],
    copy: Vec<String>,
    s: &Option<String>,
    other: Option<String>,
    text: &str,
    chars: Vec<char>,
)
    ensures
        call_ensures(clone_strings, (list,), copy) ==> copy@.len() == list@.len() && forall|i: int|
            0 <= i < list@.len() ==> (#[trigger] copy@[i])@ == list@[i]@,
        call_ensures(clone_opt, (s,), other) ==> (other is Some <==> *s is Some) && (other is Some
            ==> other->0@ == s->0@),
        call_ensures(chars_of, (text,), chars) ==> chars@ == text@,
{
}

} // verus!
