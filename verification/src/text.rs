//! Character classes and small string operations, stated over `Seq<char>`.

use vstd::prelude::*;

verus! {

/// An ASCII decimal digit.
pub open spec fn is_digit(c: char) -> bool {
    0x30 <= c as u32 <= 0x39
}

/// A character with the Unicode property `White_Space`.
pub open spec fn is_whitespace(c: char) -> bool {
    let n = c as u32;
    ||| 0x09 <= n <= 0x0D
    ||| n == 0x20
    ||| n == 0x85
    ||| n == 0xA0
    ||| n == 0x1680
    ||| 0x2000 <= n <= 0x200A
    ||| n == 0x2028
    ||| n == 0x2029
    ||| n == 0x202F
    ||| n == 0x205F
    ||| n == 0x3000
}

/// The double quote character.
pub open spec fn is_quote(c: char) -> bool {
    c == '"'
}

/// The first index at or after `from` whose character is outside the class
/// `p`, or the length of `s` when there is none.
pub open spec fn lead_end(s: Seq<char>, p: spec_fn(char) -> bool, from: int) -> int
    decreases s.len() - from,
{
    if 0 <= from < s.len() && p(s[from]) {
        lead_end(s, p, from + 1)
    } else {
        from
    }
}

/// The least end `e >= floor` such that every character of `s` in `e..to`
/// is in the class `p`.
pub open spec fn tail_start(s: Seq<char>, p: spec_fn(char) -> bool, floor: int, to: int) -> int
    decreases to,
{
    if 0 <= floor < to <= s.len() && p(s[to - 1]) {
        tail_start(s, p, floor, to - 1)
    } else {
        to
    }
}

/// `s` without its longest prefix and its longest suffix of characters in
/// the class `p`.
pub open spec fn trim_by(s: Seq<char>, p: spec_fn(char) -> bool) -> Seq<char> {
    let a = lead_end(s, p, 0);
    let b = tail_start(s, p, a, s.len() as int);
    s.subrange(a, b)
}

/// `s` without leading and trailing whitespace.
pub open spec fn trimmed(s: Seq<char>) -> Seq<char> {
    trim_by(s, |c: char| is_whitespace(c))
}

/// `s` without leading and trailing double quotes.
pub open spec fn unquoted(s: Seq<char>) -> Seq<char> {
    trim_by(s, |c: char| is_quote(c))
}

/// `pat` stands in `s` at index `i`.
pub open spec fn occurs_at(s: Seq<char>, pat: Seq<char>, i: int) -> bool {
    &&& 0 <= i
    &&& i + pat.len() <= s.len()
    &&& s.subrange(i, i + pat.len()) == pat
}

/// `pat` stands somewhere in `s`.
pub open spec fn contains(s: Seq<char>, pat: Seq<char>) -> bool {
    exists|i: int| occurs_at(s, pat, i)
}

/// `s` ends with `pat`.
pub open spec fn ends_with(s: Seq<char>, pat: Seq<char>) -> bool {
    occurs_at(s, pat, s.len() - pat.len())
}

/// A run of class characters from `from` up to `end`, closed by the end of
/// `s` or by a character outside the class, is the whole leading run.
pub proof fn lemma_lead_end(s: Seq<char>, p: spec_fn(char) -> bool, from: int, end: int)
    requires
        0 <= from <= end <= s.len(),
        forall|k: int| from <= k < end ==> p(#[trigger] s[k]),
        end == s.len() || !p(s[end]),
    ensures
        lead_end(s, p, from) == end,
    decreases end - from,
{
    if from < end {
        lemma_lead_end(s, p, from + 1, end);
    }
}

/// The mirror image of `lemma_lead_end` for the trailing run.
pub proof fn lemma_tail_start(s: Seq<char>, p: spec_fn(char) -> bool, floor: int, start: int, to: int)
    requires
        0 <= floor <= start <= to <= s.len(),
        forall|k: int| start <= k < to ==> p(#[trigger] s[k]),
        start == floor || !p(s[start - 1]),
    ensures
        tail_start(s, p, floor, to) == start,
    decreases to - start,
{
    if start < to {
        lemma_tail_start(s, p, floor, start, to - 1);
    }
}

/// A string whose first and last characters are outside the class is its
/// own trimmed form, and so is the empty string.
pub proof fn lemma_trim_by_fixed(s: Seq<char>, p: spec_fn(char) -> bool)
    requires
        s.len() == 0 || (!p(s[0]) && !p(s[s.len() - 1])),
    ensures
        trim_by(s, p) == s,
{
    assert(s.subrange(0, s.len() as int) =~= s);
}

/// Whether `c` is an ASCII decimal digit.
pub fn is_digit_char(c: char) -> (r: bool)
    ensures
        r == is_digit(c),
{
    let n: u32 = c as u32;
    0x30 <= n && n <= 0x39
}

/// Whether `c` is whitespace.
pub fn is_whitespace_char(c: char) -> (r: bool)
    ensures
        r == is_whitespace(c),
{
    let n: u32 = c as u32;
    (0x09 <= n && n <= 0x0D) || n == 0x20 || n == 0x85 || n == 0xA0 || n == 0x1680 || (0x2000 <= n
        && n <= 0x200A) || n == 0x2028 || n == 0x2029 || n == 0x202F || n == 0x205F || n == 0x3000
}

/// The characters of `s`, one by one.
pub fn chars_of(s: &str) -> (v: Vec<char>)
    ensures
        v@ == s@,
{
    let n: usize = s.unicode_len();
    let mut v: Vec<char> = Vec::new();
    let mut i: usize = 0;
    while i < n
        invariant
            i <= n,
            n == s@.len(),
            v@ == s@.subrange(0, i as int),
        decreases n - i,
    {
        v.push(s.get_char(i));
        i += 1;
        assert(v@ =~= s@.subrange(0, i as int));
    }
    assert(s@.subrange(0, n as int) =~= s@);
    v
}

/// The bounds of `s` once the characters of one class are cut from both
/// ends: whitespace when `quotes` is false, double quotes when it is true.
fn trim_bounds(s: &Vec<char>, quotes: bool) -> (r: (usize, usize))
    ensures
        r.0 <= r.1 <= s@.len(),
        !quotes ==> s@.subrange(r.0 as int, r.1 as int) == trimmed(s@),
        quotes ==> s@.subrange(r.0 as int, r.1 as int) == unquoted(s@),
{
    let ghost p: spec_fn(char) -> bool = if quotes {
        |c: char| is_quote(c)
    } else {
        |c: char| is_whitespace(c)
    };
    let n: usize = s.len();
    let mut a: usize = 0;
    while a < n && in_class(s[a], quotes)
        invariant
            a <= n,
            n == s@.len(),
            forall|k: int| 0 <= k < a ==> p(#[trigger] s@[k]),
            p == (if quotes {
                |c: char| is_quote(c)
            } else {
                |c: char| is_whitespace(c)
            }),
        decreases n - a,
    {
        a += 1;
    }
    let mut b: usize = n;
    while b > a && in_class(s[b - 1], quotes)
        invariant
            a <= b <= n,
            n == s@.len(),
            forall|k: int| b <= k < n ==> p(#[trigger] s@[k]),
            p == (if quotes {
                |c: char| is_quote(c)
            } else {
                |c: char| is_whitespace(c)
            }),
        decreases b,
    {
        b -= 1;
    }
    proof {
        lemma_lead_end(s@, p, 0, a as int);
        lemma_tail_start(s@, p, a as int, b as int, n as int);
    }
    (a, b)
}

/// Whether `c` is a double quote (`quotes`) or whitespace (otherwise).
fn in_class(c: char, quotes: bool) -> (r: bool)
    ensures
        r == if quotes {
            is_quote(c)
        } else {
            is_whitespace(c)
        },
{
    if quotes {
        c == '"'
    } else {
        is_whitespace_char(c)
    }
}

/// Cuts leading and trailing whitespace from `s`.
pub fn trim(s: &str) -> (r: String)
    ensures
        r@ == trimmed(s@),
{
    let chars = chars_of(s);
    let (a, b) = trim_bounds(&chars, false);
    String::from_str(s.substring_char(a, b))
}

/// Cuts leading and trailing double quotes from `s`.
pub fn strip_quotes(s: &str) -> (r: String)
    ensures
        r@ == unquoted(s@),
{
    let chars = chars_of(s);
    let (a, b) = trim_bounds(&chars, true);
    String::from_str(s.substring_char(a, b))
}

/// Whether `pat` stands in `s` at index `i`.
pub fn matches_at(s: &Vec<char>, pat: &Vec<char>, i: usize) -> (r: bool)
    ensures
        r == occurs_at(s@, pat@, i as int),
{
    let n: usize = s.len();
    let m: usize = pat.len();
    if i > n || m > n - i {
        return false;
    }
    let mut k: usize = 0;
    while k < m
        invariant
            k <= m,
            m == pat@.len(),
            n == s@.len(),
            i + m <= n,
            forall|j: int| 0 <= j < k ==> s@[i + j] == pat@[j],
        decreases m - k,
    {
        if s[i + k] != pat[k] {
            assert(s@.subrange(i as int, i + m)[k as int] != pat@[k as int]);
            return false;
        }
        k += 1;
    }
    assert(s@.subrange(i as int, i + m) =~= pat@);
    true
}

/// Whether `pat` stands somewhere in `s`.
pub fn contains_chars(s: &Vec<char>, pat: &Vec<char>) -> (r: bool)
    ensures
        r == contains(s@, pat@),
{
    let n: usize = s.len();
    let m: usize = pat.len();
    if m > n {
        return false;
    }
    let last: usize = n - m;
    let mut i: usize = 0;
    loop
        invariant
            i <= last,
            last == n - m,
            n == s@.len(),
            m == pat@.len(),
            forall|j: int| 0 <= j < i ==> !occurs_at(s@, pat@, j),
        decreases last - i,
    {
        if matches_at(s, pat, i) {
            return true;
        }
        if i == last {
            return false;
        }
        i += 1;
    }
}

/// What stands in a piece of `s` stands in `s`.
pub proof fn lemma_contains_subrange(s: Seq<char>, a: int, b: int, pat: Seq<char>)
    requires
        0 <= a <= b <= s.len(),
        contains(s.subrange(a, b), pat),
    ensures
        contains(s, pat),
{
    let i = choose|i: int| occurs_at(s.subrange(a, b), pat, i);
    assert(s.subrange(a + i, a + i + pat.len()) =~= s.subrange(a, b).subrange(i, i + pat.len()));
    assert(occurs_at(s, pat, a + i));
}

/// The leading run ends between `from` and the end of `s`; it holds class
/// characters only, and what follows it is none.
pub proof fn lemma_lead_end_bounds(s: Seq<char>, p: spec_fn(char) -> bool, from: int)
    requires
        0 <= from <= s.len(),
    ensures
        from <= lead_end(s, p, from) <= s.len(),
        forall|k: int| from <= k < lead_end(s, p, from) ==> p(#[trigger] s[k]),
        lead_end(s, p, from) < s.len() ==> !p(s[lead_end(s, p, from)]),
    decreases s.len() - from,
{
    if from < s.len() && p(s[from]) {
        lemma_lead_end_bounds(s, p, from + 1);
    }
}

/// The trailing run starts between `floor` and `to`; it holds class
/// characters only, and what stands before it, above `floor`, is none.
pub proof fn lemma_tail_start_bounds(s: Seq<char>, p: spec_fn(char) -> bool, floor: int, to: int)
    requires
        0 <= floor <= to <= s.len(),
    ensures
        floor <= tail_start(s, p, floor, to) <= to,
        forall|k: int| tail_start(s, p, floor, to) <= k < to ==> p(#[trigger] s[k]),
        floor < tail_start(s, p, floor, to) ==> !p(s[tail_start(s, p, floor, to) - 1]),
    decreases to,
{
    if floor < to && p(s[to - 1]) {
        lemma_tail_start_bounds(s, p, floor, to - 1);
    }
}

/// What trimming leaves: a piece `a..b` of `s` with nothing but class
/// characters before and behind it, and none at either of its ends.
pub proof fn law_trimming_leaves_the_middle(s: Seq<char>, p: spec_fn(char) -> bool)
    ensures
        exists|a: int, b: int|
            {
                &&& 0 <= a <= b <= s.len()
                &&& trim_by(s, p) == s.subrange(a, b)
                &&& forall|k: int| 0 <= k < a ==> p(#[trigger] s[k])
                &&& forall|k: int| b <= k < s.len() ==> p(#[trigger] s[k])
                &&& a < b ==> !p(s[a]) && !p(s[b - 1])
            },
{
    let a = lead_end(s, p, 0);
    lemma_lead_end_bounds(s, p, 0);
    let b = tail_start(s, p, a, s.len() as int);
    lemma_tail_start_bounds(s, p, a, s.len() as int);
    assert({
        &&& 0 <= a <= b <= s.len()
        &&& trim_by(s, p) == s.subrange(a, b)
        &&& forall|k: int| 0 <= k < a ==> p(#[trigger] s[k])
        &&& forall|k: int| b <= k < s.len() ==> p(#[trigger] s[k])
        &&& a < b ==> !p(s[a]) && !p(s[b - 1])
    });
}

/// The character of the decimal digit `d`.
pub open spec fn digit_char(d: int) -> char {
    if d == 0 {
        '0'
    } else if d == 1 {
        '1'
    } else if d == 2 {
        '2'
    } else if d == 3 {
        '3'
    } else if d == 4 {
        '4'
    } else if d == 5 {
        '5'
    } else if d == 6 {
        '6'
    } else if d == 7 {
        '7'
    } else if d == 8 {
        '8'
    } else {
        '9'
    }
}

/// The decimal numeral of `n`, without leading zeros.
pub open spec fn decimal(n: nat) -> Seq<char>
    decreases n,
{
    if n < 10 {
        seq![digit_char(n as int)]
    } else {
        decimal(n / 10).push(digit_char((n % 10) as int))
    }
}

/// Different numbers have different numerals.
pub proof fn lemma_decimal_injective(a: nat, b: nat)
    requires
        decimal(a) == decimal(b),
    ensures
        a == b,
    decreases a,
{
    if a < 10 && b < 10 {
        assert(decimal(a)[0] == digit_char(a as int));
        assert(decimal(b)[0] == digit_char(b as int));
    } else if a < 10 {
        assert(decimal(a).len() == 1);
        lemma_decimal_nonempty(b / 10);
    } else if b < 10 {
        assert(decimal(b).len() == 1);
        lemma_decimal_nonempty(a / 10);
    } else {
        let da = decimal(a / 10);
        let db = decimal(b / 10);
        assert(decimal(a).last() == digit_char((a % 10) as int));
        assert(decimal(b).last() == digit_char((b % 10) as int));
        assert(decimal(a).drop_last() =~= da);
        assert(decimal(b).drop_last() =~= db);
        lemma_decimal_injective(a / 10, b / 10);
    }
}

/// A numeral has at least one digit, and digits only.
pub proof fn lemma_decimal_nonempty(n: nat)
    ensures
        decimal(n).len() >= 1,
        forall|i: int| 0 <= i < decimal(n).len() ==> is_digit(#[trigger] decimal(n)[i]),
    decreases n,
{
    if n >= 10 {
        lemma_decimal_nonempty(n / 10);
    }
}

/// The numeral of one digit.
fn digit_str(d: usize) -> (r: &'static str)
    requires
        d < 10,
    ensures
        r@ == seq![digit_char(d as int)],
{
    proof {
        reveal_strlit("0");
        reveal_strlit("1");
        reveal_strlit("2");
        reveal_strlit("3");
        reveal_strlit("4");
        reveal_strlit("5");
        reveal_strlit("6");
        reveal_strlit("7");
        reveal_strlit("8");
        reveal_strlit("9");
    }
    let r = if d == 0 {
        "0"
    } else if d == 1 {
        "1"
    } else if d == 2 {
        "2"
    } else if d == 3 {
        "3"
    } else if d == 4 {
        "4"
    } else if d == 5 {
        "5"
    } else if d == 6 {
        "6"
    } else if d == 7 {
        "7"
    } else if d == 8 {
        "8"
    } else {
        "9"
    };
    assert(r@ =~= seq![digit_char(d as int)]);
    r
}

/// Writes `n` as a decimal numeral.
pub fn decimal_string(n: usize) -> (r: String)
    ensures
        r@ == decimal(n as nat),
    decreases n,
{
    if n < 10 {
        String::from_str(digit_str(n))
    } else {
        let mut s = decimal_string(n / 10);
        s.append(digit_str(n % 10));
        assert(s@ =~= decimal(n as nat));
        s
    }
}

/// Whether two strings hold the same characters.
pub fn same_text(a: &str, b: &str) -> (r: bool)
    ensures
        r == (a@ == b@),
{
    let x = chars_of(a);
    let y = chars_of(b);
    if x.len() != y.len() {
        return false;
    }
    let r = matches_at(&x, &y, 0);
    proof {
        assert(x@.subrange(0, y@.len() as int) =~= x@);
    }
    r
}

/// Whether `s` starts with `prefix`.
pub fn starts_with_text(s: &str, prefix: &str) -> (r: bool)
    ensures
        r == occurs_at(s@, prefix@, 0),
{
    let x = chars_of(s);
    let y = chars_of(prefix);
    matches_at(&x, &y, 0)
}

/// `s` with every occurrence of `from` replaced by `to`, read from the
/// left; an occurrence that overlaps one already replaced does not count.
/// An empty `from` occurs nowhere.
pub open spec fn replaced(s: Seq<char>, from: Seq<char>, to: Seq<char>) -> Seq<char>
    decreases s.len(),
{
    if from.len() == 0 || s.len() < from.len() {
        s
    } else if occurs_at(s, from, 0) {
        to + replaced(s.subrange(from.len() as int, s.len() as int), from, to)
    } else {
        seq![s[0]] + replaced(s.subrange(1, s.len() as int), from, to)
    }
}

/// Replaces every occurrence of `from` in `s` by `to`.
pub fn replace_text(s: &str, from: &str, to: &str) -> (r: String)
    ensures
        r@ == replaced(s@, from@, to@),
{
    let chars = chars_of(s);
    let pat = chars_of(from);
    let n: usize = chars.len();
    let m: usize = pat.len();
    if m == 0 {
        return String::from_str(s);
    }
    let mut out = String::from_str("");
    proof {
        reveal_strlit("");
        assert(s@.subrange(0, n as int) =~= s@);
        assert(out@ + s@.subrange(0, 0) + replaced(s@.subrange(0, n as int), from@, to@)
            =~= replaced(s@, from@, to@));
    }
    let mut start: usize = 0;
    let mut i: usize = 0;
    while m <= n - i
        invariant
            start <= i <= n,
            n == s@.len(),
            m == from@.len(),
            m > 0,
            chars@ == s@,
            pat@ == from@,
            out@ + s@.subrange(start as int, i as int) + replaced(
                s@.subrange(i as int, n as int),
                from@,
                to@,
            ) == replaced(s@, from@, to@),
        decreases n - i,
    {
        let ghost rest = s@.subrange(i as int, n as int);
        if matches_at(&chars, &pat, i) {
            proof {
                assert(rest.subrange(0, m as int) =~= s@.subrange(i as int, i + m));
                assert(occurs_at(rest, from@, 0));
                assert(rest.subrange(m as int, rest.len() as int) =~= s@.subrange(i + m, n as int));
            }
            let ghost before = out@;
            let ghost kept = s@.subrange(start as int, i as int);
            out.append(s.substring_char(start, i));
            out.append(to);
            i += m;
            start = i;
            assert(out@ + s@.subrange(start as int, i as int) + replaced(
                s@.subrange(i as int, n as int),
                from@,
                to@,
            ) =~= before + kept + replaced(rest, from@, to@)) by {
                assert(out@ =~= before + kept + to@);
                assert(s@.subrange(start as int, i as int) =~= Seq::<char>::empty());
            }
        } else {
            proof {
                assert(rest.subrange(0, m as int) =~= s@.subrange(i as int, i + m));
                assert(!occurs_at(rest, from@, 0));
                assert(rest.subrange(1, rest.len() as int) =~= s@.subrange(i + 1, n as int));
                assert(s@.subrange(start as int, i as int) + seq![rest[0]] =~= s@.subrange(
                    start as int,
                    i + 1,
                ));
            }
            i += 1;
            assert(out@ + s@.subrange(start as int, i as int) + replaced(
                s@.subrange(i as int, n as int),
                from@,
                to@,
            ) =~= out@ + s@.subrange(start as int, i - 1) + replaced(rest, from@, to@));
        }
    }
    out.append(s.substring_char(start, n));
    proof {
        assert(s@.subrange(start as int, i as int) + s@.subrange(i as int, n as int)
            =~= s@.subrange(start as int, n as int));
        assert(out@ =~= replaced(s@, from@, to@));
    }
    out
}

} // verus!
