//! Operations on text, stated over sequences of characters.

use vstd::prelude::*;

verus! {

/// `String::push` appends one character.
pub assume_specification[ String::push ](s: &mut String, c: char)
    ensures
        final(s)@ == old(s)@.push(c),
;

/// `String::pop` removes the last character and returns it, or returns `None` on empty text.
pub assume_specification[ String::pop ](s: &mut String) -> (res: Option<char>)
    ensures
        old(s)@.len() == 0 ==> res is None && final(s)@ == old(s)@,
        old(s)@.len() > 0 ==> res == Some(old(s)@.last()) && final(s)@ == old(s)@.drop_last(),
;

/// The characters of `s`, in order.
pub fn chars_of(s: &str) -> (res: Vec<char>)
    ensures
        res@ == s@,
{
    let mut res: Vec<char> = Vec::new();
    for c in it: s.chars()
        invariant
            res@ == it.seq().take(it.index() as int),
            it.seq() == s@,
    {
        res.push(c);
    }
    res
}

/// The text made of `chars`.
pub fn text_of(chars: &[char]) -> (res: String)
    ensures
        res@ == chars@,
{
    let mut res: String = String::new();
    let mut i: usize = 0;
    while i < chars.len()
        invariant
            i <= chars@.len(),
            res@ == chars@.take(i as int),
        decreases chars@.len() - i,
    {
        res.push(chars[i]);
        i = i + 1;
    }
    res
}

/// A text in lower case.
pub uninterp spec fn lowercased(s: Seq<char>) -> Seq<char>;

/// `str::to_lowercase` maps a text to lower case as Unicode defines it, whatever the locale; the
/// result, which depends on the text alone, is what `lowercased` names.
#[verifier::external_body]
pub(crate) fn lowercase(s: &str) -> (res: String)
    ensures
        res@ == lowercased(s@),
{
    s.to_lowercase()
}

/// The three texts, one after the other.
pub fn concat3(a: &str, b: &str, c: &str) -> (res: String)
    ensures
        res@ == a@ + b@ + c@,
{
    let mut res: String = a.to_owned();
    res.append(b);
    res.append(c);
    res
}

/// The five texts, one after the other.
pub fn concat5(a: &str, b: &str, c: &str, d: &str, e: &str) -> (res: String)
    ensures
        res@ == a@ + b@ + c@ + d@ + e@,
{
    let mut res: String = concat3(a, b, c);
    res.append(d);
    res.append(e);
    res
}

/// The views of a list of strings.
pub open spec fn texts(v: Seq<String>) -> Seq<Seq<char>> {
    v.map_values(|s: String| s@)
}

/// The same texts once more.
pub fn copy_texts(v: &Vec<String>) -> (res: Vec<String>)
    ensures
        texts(res@) == texts(v@),
{
    let mut res: Vec<String> = Vec::new();
    let mut i: usize = 0;
    while i < v.len()
        invariant
            i <= v@.len(),
            res@.len() == i,
            forall|j: int| 0 <= j < i ==> #[trigger] res@[j]@ == v@[j]@,
        decreases v@.len() - i,
    {
        res.push(v[i].clone());
        i = i + 1;
    }
    assert(texts(res@) =~= texts(v@));
    res
}

/// The lines, each with a line feed behind it.
pub open spec fn lines_text(lines: Seq<Seq<char>>) -> Seq<char>
    decreases lines.len(),
{
    if lines.len() == 0 {
        seq![]
    } else {
        lines_text(lines.drop_last()) + lines.last() + seq!['\n']
    }
}

/// The lines, each with a line feed behind it.
pub fn join_lines(lines: &Vec<String>) -> (res: String)
    ensures
        res@ == lines_text(texts(lines@)),
{
    let ghost all = texts(lines@);
    let mut res: String = String::new();
    let mut i: usize = 0;
    assert(res@ =~= lines_text(all.take(0)));
    while i < lines.len()
        invariant
            all == texts(lines@),
            i <= lines@.len(),
            res@ == lines_text(all.take(i as int)),
        decreases lines@.len() - i,
    {
        proof {
            assert(all.take(i + 1).drop_last() =~= all.take(i as int));
            assert(all.take(i + 1).last() == lines@[i as int]@);
        }
        let ghost before = res@;
        res.append(lines[i].as_str());
        res.push('\n');
        assert(res@ =~= before + lines@[i as int]@ + seq!['\n']);
        i = i + 1;
    }
    assert(all.take(i as int) =~= all);
    res
}

/// The views of a list of string slices.
pub open spec fn slices(v: Seq<&str>) -> Seq<Seq<char>> {
    v.map_values(|s: &str| s@)
}

/// The texts of a list of string slices.
pub fn owned_texts(v: &Vec<&'static str>) -> (res: Vec<String>)
    ensures
        texts(res@) == slices(v@),
{
    let mut res: Vec<String> = Vec::new();
    let mut i: usize = 0;
    while i < v.len()
        invariant
            i <= v@.len(),
            res@.len() == i,
            forall|j: int| 0 <= j < i ==> #[trigger] res@[j]@ == v@[j]@,
        decreases v@.len() - i,
    {
        res.push(v[i].to_owned());
        i = i + 1;
    }
    assert(texts(res@) =~= slices(v@));
    res
}

/// The views of a list of character lists.
pub open spec fn char_lists(v: Seq<Vec<char>>) -> Seq<Seq<char>> {
    v.map_values(|c: Vec<char>| c@)
}

/// `needle` stands in `hay` at position `at`.
pub open spec fn stands_at(hay: Seq<char>, needle: Seq<char>, at: int) -> bool {
    0 <= at && at + needle.len() <= hay.len() && hay.subrange(at, at + needle.len()) == needle
}

/// `needle` stands somewhere in `hay`.
pub open spec fn contains_text(hay: Seq<char>, needle: Seq<char>) -> bool {
    exists|at: int| stands_at(hay, needle, at)
}

/// Whether `needle` stands in `hay` at position `at`.
#[verifier::loop_isolation(false)]
pub fn is_at(hay: &[char], needle: &[char], at: usize) -> (res: bool)
    ensures
        res == stands_at(hay@, needle@, at as int),
{
    if at > hay.len() || needle.len() > hay.len() - at {
        return false;
    }
    let mut i: usize = 0;
    while i < needle.len()
        invariant
            i <= needle@.len(),
            forall|j: int| 0 <= j < i ==> hay@[at + j] == needle@[j],
        decreases needle@.len() - i,
    {
        if hay[at + i] != needle[i] {
            proof {
                assert(hay@.subrange(at as int, at + needle@.len())[i as int] != needle@[i as int]);
            }
            return false;
        }
        i = i + 1;
    }
    assert(hay@.subrange(at as int, at + needle@.len()) =~= needle@);
    true
}

/// Whether the two lists hold the same characters.
pub fn same_chars(a: &[char], b: &[char]) -> (res: bool)
    ensures
        res == (a@ == b@),
{
    if a.len() != b.len() {
        return false;
    }
    let res: bool = is_at(a, b, 0);
    assert(a@.subrange(0, b@.len() as int) =~= a@);
    res
}

/// Whether the two texts are the same.
pub fn same_text(a: &str, b: &str) -> (res: bool)
    ensures
        res == (a@ == b@),
{
    let a_chars: Vec<char> = chars_of(a);
    let b_chars: Vec<char> = chars_of(b);
    same_chars(a_chars.as_slice(), b_chars.as_slice())
}

/// Whether `needle` stands somewhere in `hay`.
#[verifier::loop_isolation(false)]
pub fn contains(hay: &str, needle: &str) -> (res: bool)
    ensures
        res == contains_text(hay@, needle@),
{
    let hay_chars: Vec<char> = chars_of(hay);
    let needle_chars: Vec<char> = chars_of(needle);
    let hay_len: usize = hay_chars.len();
    let mut at: usize = 0;
    while at < hay_len && needle_chars.len() <= hay_len - at
        invariant
            at <= hay_len,
            forall|j: int| 0 <= j < at ==> !stands_at(hay@, needle@, j),
        decreases hay_len - at,
    {
        if is_at(hay_chars.as_slice(), needle_chars.as_slice(), at) {
            return true;
        }
        at = at + 1;
    }
    is_at(hay_chars.as_slice(), needle_chars.as_slice(), at)
}

/// `s` with every match of `from`, taken from left to right without overlap, replaced by `to`.
pub open spec fn replaced(s: Seq<char>, from: Seq<char>, to: Seq<char>) -> Seq<char>
    decreases s.len(),
{
    if from.len() == 0 || s.len() == 0 {
        s
    } else if stands_at(s, from, 0) {
        to + replaced(s.skip(from.len() as int), from, to)
    } else {
        seq![s[0]] + replaced(s.skip(1), from, to)
    }
}

/// `s` with every match of `from` replaced by `to`.
#[verifier::loop_isolation(false)]
pub fn replace(s: &str, from: &str, to: &str) -> (res: String)
    requires
        from@.len() > 0,
    ensures
        res@ == replaced(s@, from@, to@),
{
    let s_chars: Vec<char> = chars_of(s);
    let from_chars: Vec<char> = chars_of(from);
    let mut out: String = String::new();
    let mut at: usize = 0;
    assert(s@.skip(0) =~= s@);
    while at < s_chars.len()
        invariant
            at <= s@.len(),
            out@ + replaced(s@.skip(at as int), from@, to@) == replaced(s@, from@, to@),
        decreases s@.len() - at,
    {
        let ghost rest = s@.skip(at as int);
        if is_at(s_chars.as_slice(), from_chars.as_slice(), at) {
            proof {
                assert(rest.subrange(0, from@.len() as int) =~= s@.subrange(
                    at as int,
                    at + from@.len(),
                ));
                assert(rest.skip(from@.len() as int) =~= s@.skip(at + from@.len()));
            }
            out.append(to);
            at = at + from_chars.len();
        } else {
            proof {
                if stands_at(rest, from@, 0) {
                    assert(rest.subrange(0, from@.len() as int) =~= s@.subrange(
                        at as int,
                        at + from@.len(),
                    ));
                }
                assert(rest.skip(1) =~= s@.skip(at + 1));
            }
            out.push(s_chars[at]);
            at = at + 1;
        }
    }
    out
}

/// `s` without the characters `a` and `b`.
pub open spec fn without(s: Seq<char>, a: char, b: char) -> Seq<char>
    decreases s.len(),
{
    if s.len() == 0 {
        seq![]
    } else {
        let front = without(s.drop_last(), a, b);
        if s.last() == a || s.last() == b {
            front
        } else {
            front.push(s.last())
        }
    }
}

/// `s` without the characters `a` and `b`.
pub fn remove_chars(s: &str, a: char, b: char) -> (res: String)
    ensures
        res@ == without(s@, a, b),
{
    let chars: Vec<char> = chars_of(s);
    let mut res: String = String::new();
    let mut i: usize = 0;
    assert(res@ =~= without(chars@.take(0), a, b));
    while i < chars.len()
        invariant
            i <= chars@.len(),
            res@ == without(chars@.take(i as int), a, b),
        decreases chars@.len() - i,
    {
        proof {
            assert(chars@.take(i + 1).drop_last() =~= chars@.take(i as int));
            assert(chars@.take(i + 1).last() == chars@[i as int]);
        }
        if chars[i] != a && chars[i] != b {
            res.push(chars[i]);
        }
        i = i + 1;
    }
    assert(chars@.take(i as int) =~= chars@);
    res
}

/// The texts with a separator between them.
pub open spec fn separated(list: Seq<Seq<char>>, separator: Seq<char>) -> Seq<char>
    decreases list.len(),
{
    if list.len() == 0 {
        seq![]
    } else if list.len() == 1 {
        list[0]
    } else {
        separated(list.drop_last(), separator) + separator + list.last()
    }
}

/// The texts with a separator between them.
pub fn join_texts(list: &Vec<String>, separator: &str) -> (res: String)
    ensures
        res@ == separated(texts(list@), separator@),
{
    let ghost all = texts(list@);
    let mut res: String = String::new();
    let mut i: usize = 0;
    assert(res@ =~= separated(all.take(0), separator@));
    while i < list.len()
        invariant
            all == texts(list@),
            i <= list@.len(),
            res@ == separated(all.take(i as int), separator@),
        decreases list@.len() - i,
    {
        proof {
            assert(all.take(i + 1).drop_last() =~= all.take(i as int));
            assert(all.take(i + 1).last() == list@[i as int]@);
        }
        let ghost before = res@;
        if i > 0 {
            res.append(separator);
        }
        res.append(list[i].as_str());
        proof {
            if i == 0 {
                assert(res@ =~= list@[0]@);
            }
        }
        i = i + 1;
    }
    assert(all.take(i as int) =~= all);
    res
}

/// The White_Space characters of Unicode.
pub open spec fn white_space(c: char) -> bool {
    let u = c as u32;
    ||| 9 <= u <= 13
    ||| u == 0x20
    ||| u == 0x85
    ||| u == 0xA0
    ||| u == 0x1680
    ||| 0x2000 <= u <= 0x200A
    ||| u == 0x2028
    ||| u == 0x2029
    ||| u == 0x202F
    ||| u == 0x205F
    ||| u == 0x3000
}

/// Whether `c` has the Unicode property White_Space.
pub fn is_white_space(c: char) -> (res: bool)
    ensures
        res == white_space(c),
{
    let u: u32 = c as u32;
    (9 <= u && u <= 13) || u == 0x20 || u == 0x85 || u == 0xA0 || u == 0x1680 || (0x2000 <= u && u
        <= 0x200A) || u == 0x2028 || u == 0x2029 || u == 0x202F || u == 0x205F || u == 0x3000
}

/// `s` without its leading white space.
pub open spec fn trimmed_start(s: Seq<char>) -> Seq<char>
    decreases s.len(),
{
    if s.len() > 0 && white_space(s[0]) {
        trimmed_start(s.skip(1))
    } else {
        s
    }
}

/// `s` without its trailing white space.
pub open spec fn trimmed_end(s: Seq<char>) -> Seq<char>
    decreases s.len(),
{
    if s.len() > 0 && white_space(s.last()) {
        trimmed_end(s.drop_last())
    } else {
        s
    }
}

/// `s` without leading and trailing white space.
pub open spec fn trimmed(s: Seq<char>) -> Seq<char> {
    trimmed_end(trimmed_start(s))
}

/// The characters of `s` without leading and trailing white space.
#[verifier::loop_isolation(false)]
pub fn trim(s: &str) -> (res: Vec<char>)
    ensures
        res@ == trimmed(s@),
{
    let chars: Vec<char> = chars_of(s);
    let mut start: usize = 0;
    assert(s@.skip(0) =~= s@);
    while start < chars.len() && is_white_space(chars[start])
        invariant
            start <= s@.len(),
            trimmed_start(s@.skip(start as int)) == trimmed_start(s@),
        decreases s@.len() - start,
    {
        assert(s@.skip(start as int).skip(1) =~= s@.skip(start + 1));
        start = start + 1;
    }
    let mut end: usize = chars.len();
    let ghost kept = trimmed_start(s@);
    assert(kept == s@.skip(start as int));
    assert(kept =~= s@.subrange(start as int, end as int));
    while end > start && is_white_space(chars[end - 1])
        invariant
            start <= end <= s@.len(),
            trimmed_end(s@.subrange(start as int, end as int)) == trimmed_end(kept),
        decreases end - start,
    {
        assert(s@.subrange(start as int, end as int).drop_last() =~= s@.subrange(
            start as int,
            end - 1,
        ));
        end = end - 1;
    }
    let res: Vec<char> = subvec(chars.as_slice(), start, end);
    res
}

/// The characters of `chars` from `start` up to `end`.
#[verifier::loop_isolation(false)]
pub fn subvec(chars: &[char], start: usize, end: usize) -> (res: Vec<char>)
    requires
        start <= end <= chars@.len(),
    ensures
        res@ == chars@.subrange(start as int, end as int),
{
    let mut res: Vec<char> = Vec::new();
    let mut i: usize = start;
    while i < end
        invariant
            start <= i <= end,
            res@ == chars@.subrange(start as int, i as int),
        decreases end - i,
    {
        res.push(chars[i]);
        i = i + 1;
    }
    res
}

/// The decimal digit `d`.
pub open spec fn digit_char(d: int) -> char {
    (d + 0x30) as char
}

/// `n` in decimal digits, without leading zeros.
pub open spec fn decimal(n: nat) -> Seq<char>
    decreases n,
{
    if n < 10 {
        seq![digit_char(n as int)]
    } else {
        decimal(n / 10).push(digit_char((n % 10) as int))
    }
}

/// The decimal digit `d`.
pub fn digit(d: u64) -> (res: char)
    requires
        d < 10,
    ensures
        res == digit_char(d as int),
{
    let code: u8 = d as u8 + 0x30;
    code as char
}

/// `n` in decimal digits.
pub fn decimal_text(n: u64) -> (res: String)
    ensures
        res@ == decimal(n as nat),
    decreases n,
{
    if n < 10 {
        let mut res: String = String::new();
        res.push(digit(n));
        assert(res@ =~= decimal(n as nat));
        res
    } else {
        let mut res: String = decimal_text(n / 10);
        res.push(digit(n % 10));
        res
    }
}

/// A decimal digit.
pub open spec fn is_digit(c: char) -> bool {
    '0' <= c && c <= '9'
}

/// The value of a decimal digit.
pub open spec fn digit_value(c: char) -> nat {
    (c as u32 - 0x30) as nat
}

/// A run of decimal digits.
pub open spec fn all_digits(s: Seq<char>) -> bool {
    forall|i: int| 0 <= i < s.len() ==> is_digit(#[trigger] s[i])
}

/// The number that a run of decimal digits stands for.
pub open spec fn digits_value(s: Seq<char>) -> nat
    decreases s.len(),
{
    if s.len() == 0 {
        0
    } else {
        digits_value(s.drop_last()) * 10 + digit_value(s.last())
    }
}

/// The number that decimal digits stand for, where there are any and it is at most `max`.
pub open spec fn parsed_number(s: Seq<char>, max: nat) -> Option<nat> {
    if s.len() > 0 && all_digits(s) && digits_value(s) <= max {
        Some(digits_value(s))
    } else {
        None
    }
}

/// Longer runs of digits stand for larger numbers.
pub proof fn digits_value_grows(s: Seq<char>, n: int)
    requires
        0 <= n <= s.len(),
    ensures
        digits_value(s.take(n)) <= digits_value(s),
    decreases s.len(),
{
    if n < s.len() {
        digits_value_grows(s.drop_last(), n);
        assert(s.drop_last().take(n) =~= s.take(n));
    } else {
        assert(s.take(n) =~= s);
    }
}

/// The number that decimal digits stand for, where there are any and it is at most `max`.
#[verifier::loop_isolation(false)]
pub fn parse_number(s: &[char], max: u32) -> (res: Option<u32>)
    ensures
        match res {
            Some(n) => parsed_number(s@, max as nat) == Some(n as nat),
            None => parsed_number(s@, max as nat) is None,
        },
{
    if s.len() == 0 {
        return None;
    }
    let mut value: u64 = 0;
    let mut i: usize = 0;
    assert(s@.take(0) =~= seq![]);
    while i < s.len()
        invariant
            i <= s@.len(),
            all_digits(s@.take(i as int)),
            value == digits_value(s@.take(i as int)),
            value <= max,
        decreases s@.len() - i,
    {
        let c: char = s[i];
        assert(s@.take(i + 1).drop_last() =~= s@.take(i as int));
        assert(s@.take(i + 1).last() == c);
        if !('0' <= c && c <= '9') {
            assert(!is_digit(s@[i as int]));
            return None;
        }
        value = value * 10 + (c as u32 - 0x30) as u64;
        i = i + 1;
        if value > max as u64 {
            proof {
                digits_value_grows(s@, i as int);
            }
            return None;
        }
    }
    assert(s@.take(i as int) =~= s@);
    Some(value as u32)
}

/// `n` copies of `c`.
pub open spec fn repeated(c: char, n: nat) -> Seq<char> {
    Seq::new(n, |i: int| c)
}

/// `s` with copies of `c` in front, so many that it has at least `width` characters.
pub open spec fn padded(s: Seq<char>, c: char, width: nat) -> Seq<char> {
    if s.len() < width {
        repeated(c, (width - s.len()) as nat) + s
    } else {
        s
    }
}

/// `s` with copies of `c` in front, so many that it has at least `width` characters.
#[verifier::loop_isolation(false)]
pub fn pad(s: &str, c: char, width: usize) -> (res: String)
    ensures
        res@ == padded(s@, c, width as nat),
{
    let len: usize = s.unicode_len();
    let mut res: String = String::new();
    let mut i: usize = len;
    while i < width
        invariant
            len <= i,
            i <= width || i == len,
            res@ == repeated(c, (i - len) as nat),
        decreases width - i,
    {
        res.push(c);
        i = i + 1;
    }
    res.append(s);
    res
}

} // verus!
