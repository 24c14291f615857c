//! Resolving free-form input (a bare part code or a vendor URL) to a
//! canonical part code.

use crate::text::{
    chars_of, contains, contains_chars, ends_with, is_digit, is_digit_char, is_whitespace,
    lead_end, lemma_contains_subrange, lemma_lead_end, lemma_lead_end_bounds,
    lemma_tail_start_bounds, lemma_trim_by_fixed, matches_at, occurs_at, tail_start, trim, trimmed,
};
use vstd::prelude::*;

verus! {

/// A canonical part code: the letter `C` followed by one or more digits.
pub open spec fn is_code(c: Seq<char>) -> bool {
    &&& c.len() >= 2
    &&& c[0] == 'C'
    &&& forall|i: int| 1 <= i < c.len() ==> is_digit(#[trigger] c[i])
}

/// The last `n` characters of `s` are a part code, and a slash stands
/// right before them.
pub open spec fn code_after_slash(s: Seq<char>, n: int) -> bool {
    &&& 2 <= n < s.len()
    &&& s[s.len() - n - 1] == '/'
    &&& is_code(s.subrange(s.len() - n, s.len() as int))
}

/// The code that closes a JLCPCB detail URL as its last path segment.
pub open spec fn jlcpcb_candidate(s: Seq<char>) -> Option<Seq<char>> {
    if exists|n: int| code_after_slash(s, n) {
        let n = choose|n: int| code_after_slash(s, n);
        Some(s.subrange(s.len() - n, s.len() as int))
    } else {
        None
    }
}

/// `s` ends with `.html`, an underscore stands at `p` with `C` and a digit
/// behind it, and no slash stands between that digit and the `.html`.
pub open spec fn code_in_filename(s: Seq<char>, p: int) -> bool {
    &&& ends_with(s, ".html"@)
    &&& 0 <= p
    &&& p + 3 <= s.len() - 5
    &&& s[p] == '_'
    &&& s[p + 1] == 'C'
    &&& is_digit(s[p + 2])
    &&& forall|k: int| p + 3 <= k < s.len() - 5 ==> #[trigger] s[k] != '/'
}

/// `p` is the leftmost place at which `code_in_filename` holds.
pub open spec fn first_code_in_filename(s: Seq<char>, p: int) -> bool {
    &&& code_in_filename(s, p)
    &&& forall|q: int| 0 <= q < p ==> !code_in_filename(s, q)
}

/// The code inside the file name that closes an LCSC detail URL: behind the
/// leftmost fitting underscore, the `C` and every digit that follows it.
pub open spec fn lcsc_candidate(s: Seq<char>) -> Option<Seq<char>> {
    if exists|p: int| first_code_in_filename(s, p) {
        let p = choose|p: int| first_code_in_filename(s, p);
        Some(s.subrange(p + 1, lead_end(s, |c: char| is_digit(c), p + 2)))
    } else {
        None
    }
}

/// The part of the trimmed input `t` that is taken for a code before it is
/// validated.
pub open spec fn candidate(t: Seq<char>) -> Option<Seq<char>> {
    if contains(t, "http"@) {
        if contains(t, "jlcpcb.com"@) {
            jlcpcb_candidate(t)
        } else if contains(t, "lcsc.com"@) {
            lcsc_candidate(t)
        } else {
            None
        }
    } else if t.len() > 0 && t[0] == 'C' {
        Some(t)
    } else {
        None
    }
}

/// The canonical part code that the input `raw` resolves to, if any.
pub open spec fn extracted(raw: Seq<char>) -> Option<Seq<char>> {
    match candidate(trimmed(raw)) {
        Some(c) => if is_code(c) {
            Some(c)
        } else {
            None
        },
        None => None,
    }
}

/// At most one suffix of `s` is a code behind a slash.
pub proof fn lemma_code_after_slash_unique(s: Seq<char>, n1: int, n2: int)
    requires
        code_after_slash(s, n1),
        code_after_slash(s, n2),
    ensures
        n1 == n2,
{
    let len = s.len() as int;
    if n1 < n2 {
        assert(s.subrange(len - n1, len)[0] == 'C');
        assert(is_digit(s.subrange(len - n2, len)[n2 - n1]));
    } else if n2 < n1 {
        assert(s.subrange(len - n2, len)[0] == 'C');
        assert(is_digit(s.subrange(len - n1, len)[n1 - n2]));
    }
}

/// Whether `s[a..b]` is a part code.
fn is_code_range(s: &Vec<char>, a: usize, b: usize) -> (r: bool)
    requires
        a <= b <= s@.len(),
    ensures
        r == is_code(s@.subrange(a as int, b as int)),
{
    let ghost c = s@.subrange(a as int, b as int);
    if b - a < 2 || s[a] != 'C' {
        assert(c.len() < 2 || c[0] != 'C');
        return false;
    }
    let mut i: usize = a + 1;
    while i < b
        invariant
            a + 1 <= i <= b <= s@.len(),
            c == s@.subrange(a as int, b as int),
            forall|k: int| 1 <= k < i - a ==> is_digit(#[trigger] c[k]),
        decreases b - i,
    {
        if !is_digit_char(s[i]) {
            assert(!is_digit(c[i - a]));
            return false;
        }
        i += 1;
    }
    true
}

/// The bounds of the code that `jlcpcb_candidate` names.
fn jlcpcb_bounds(s: &Vec<char>) -> (r: Option<(usize, usize)>)
    ensures
        match r {
            Some((a, b)) => a <= b <= s@.len() && jlcpcb_candidate(s@) == Some(
                s@.subrange(a as int, b as int),
            ),
            None => jlcpcb_candidate(s@) is None,
        },
{
    let n: usize = s.len();
    let mut d: usize = n;
    while d > 0 && is_digit_char(s[d - 1])
        invariant
            d <= n,
            n == s@.len(),
            forall|k: int| d <= k < n ==> is_digit(#[trigger] s@[k]),
        decreases d,
    {
        d -= 1;
    }
    if d < n && d >= 2 && s[d - 1] == 'C' && s[d - 2] == '/' {
        proof {
            let m = n - d + 1;
            assert(code_after_slash(s@, m));
            let c = choose|c: int| code_after_slash(s@, c);
            lemma_code_after_slash_unique(s@, m, c);
        }
        Some((d - 1, n))
    } else {
        proof {
            assert forall|m: int| !code_after_slash(s@, m) by {
                if code_after_slash(s@, m) {
                    let start = n - m;
                    let c = s@.subrange(start, n as int);
                    assert(c[0] == 'C');
                    if d > start + 1 {
                        assert(is_digit(c[d - 1 - start]));
                    } else if d <= start {
                        assert(is_digit(s@[start]));
                    }
                    assert(d == start + 1);
                    assert(false);
                }
            }
        }
        None
    }
}

/// The bounds of the code that `lcsc_candidate` names.
fn lcsc_bounds(s: &Vec<char>) -> (r: Option<(usize, usize)>)
    ensures
        match r {
            Some((a, b)) => a <= b <= s@.len() && lcsc_candidate(s@) == Some(
                s@.subrange(a as int, b as int),
            ),
            None => lcsc_candidate(s@) is None,
        },
{
    let n: usize = s.len();
    let html = chars_of(".html");
    proof {
        reveal_strlit(".html");
    }
    if n < 5 || !matches_at(s, &html, n - 5) {
        return None;
    }
    let e: usize = n - 5;
    let mut seg: usize = e;
    while seg > 0 && s[seg - 1] != '/'
        invariant
            seg <= e,
            e == n - 5,
            n == s@.len(),
            forall|k: int| seg <= k < e ==> #[trigger] s@[k] != '/',
        decreases seg,
    {
        seg -= 1;
    }
    proof {
        assert forall|q: int| 0 <= q < seg implies !code_in_filename(s@, q) by {
            if code_in_filename(s@, q) {
                if seg - 1 >= q + 3 {
                    assert(s@[seg - 1] != '/');
                }
                assert(false);
            }
        }
    }
    let mut p: usize = seg;
    while p + 3 <= e
        invariant
            seg <= p <= e,
            e == n - 5,
            n == s@.len(),
            ends_with(s@, ".html"@),
            forall|k: int| seg <= k < e ==> #[trigger] s@[k] != '/',
            forall|q: int| 0 <= q < p ==> !code_in_filename(s@, q),
        decreases e - p,
    {
        if s[p] == '_' && s[p + 1] == 'C' && is_digit_char(s[p + 2]) {
            let mut end: usize = p + 3;
            while end < n && is_digit_char(s[end])
                invariant
                    p + 3 <= end <= n,
                    n == s@.len(),
                    forall|k: int| p + 2 <= k < end ==> is_digit(#[trigger] s@[k]),
                decreases n - end,
            {
                end += 1;
            }
            proof {
                let digits = |c: char| is_digit(c);
                assert forall|k: int| p + 2 <= k < end implies digits(#[trigger] s@[k]) by {
                    assert(is_digit(s@[k]));
                }
                lemma_lead_end(s@, digits, p + 2, end as int);
                assert(code_in_filename(s@, p as int));
                assert(first_code_in_filename(s@, p as int));
                let c = choose|c: int| first_code_in_filename(s@, c);
                assert(c == p) by {
                    if c < p {
                        assert(!code_in_filename(s@, c));
                    } else if p < c {
                        assert(!code_in_filename(s@, p as int));
                    }
                }
            }
            return Some((p + 1, end));
        }
        p += 1;
    }
    None
}

/// Resolves free-form input to a canonical part code.
///
/// The input is trimmed. A URL (anything that holds `http`) gives the code
/// that closes a JLCPCB address or the one inside the file name of an LCSC
/// address; any other input that starts with `C` is taken whole. What was
/// found is returned only if it is exactly `C` and digits.
pub fn extract(raw: &str) -> (r: Option<String>)
    ensures
        match r {
            Some(code) => extracted(raw@) == Some(code@),
            None => extracted(raw@) is None,
        },
{
    let term = trim(raw);
    let chars = chars_of(term.as_str());
    let http = chars_of("http");
    let bounds: Option<(usize, usize)> = if contains_chars(&chars, &http) {
        let jlcpcb = chars_of("jlcpcb.com");
        let lcsc = chars_of("lcsc.com");
        if contains_chars(&chars, &jlcpcb) {
            jlcpcb_bounds(&chars)
        } else if contains_chars(&chars, &lcsc) {
            lcsc_bounds(&chars)
        } else {
            None
        }
    } else if chars.len() > 0 && chars[0] == 'C' {
        assert(chars@.subrange(0, chars@.len() as int) =~= chars@);
        Some((0, chars.len()))
    } else {
        None
    };
    match bounds {
        Some((a, b)) => {
            if is_code_range(&chars, a, b) {
                Some(String::from_str(term.as_str().substring_char(a, b)))
            } else {
                None
            }
        },
        None => None,
    }
}

/// A bare part code resolves to itself.
pub proof fn law_bare_code_resolves_to_itself(code: Seq<char>)
    requires
        is_code(code),
    ensures
        extracted(code) == Some(code),
{
    reveal_strlit("http");
    let spaces = |c: char| is_whitespace(c);
    assert(!spaces(code[0]));
    assert(is_digit(code[code.len() - 1]));
    assert(!spaces(code[code.len() - 1]));
    lemma_trim_by_fixed(code, spaces);
    assert forall|i: int| !occurs_at(code, "http"@, i) by {
        if occurs_at(code, "http"@, i) {
            assert(code.subrange(i, i + 4)[0] == 'h');
            if i >= 1 {
                assert(is_digit(code[i]));
            }
        }
    }
}

/// Input that holds no `http` resolves to its trimmed form where that is a
/// part code, and to nothing where it is not.
pub proof fn law_plain_input_resolves_by_its_trimmed_form(raw: Seq<char>)
    requires
        !contains(raw, "http"@),
    ensures
        extracted(raw) == if is_code(trimmed(raw)) {
            Some(trimmed(raw))
        } else {
            None
        },
{
    let spaces = |c: char| is_whitespace(c);
    let a = lead_end(raw, spaces, 0);
    lemma_lead_end_bounds(raw, spaces, 0);
    let b = tail_start(raw, spaces, a, raw.len() as int);
    lemma_tail_start_bounds(raw, spaces, a, raw.len() as int);
    if contains(trimmed(raw), "http"@) {
        lemma_contains_subrange(raw, a, b, "http"@);
    }
}

/// Input that does not start with `C` and holds no `http` resolves to
/// nothing, unless it is a part code behind whitespace.
pub proof fn law_other_text_resolves_to_nothing(raw: Seq<char>)
    requires
        raw.len() == 0 || raw[0] != 'C',
        !contains(raw, "http"@),
        !is_code(trimmed(raw)),
    ensures
        extracted(raw) is None,
{
    law_plain_input_resolves_by_its_trimmed_form(raw);
}

/// What input resolves to is a canonical part code, and as input it
/// resolves to itself.
pub proof fn law_result_is_canonical(raw: Seq<char>)
    ensures
        match extracted(raw) {
            Some(code) => is_code(code) && extracted(code) == Some(code),
            None => true,
        },
{
    if let Some(code) = extracted(raw) {
        law_bare_code_resolves_to_itself(code);
    }
}

/// The code of a JLCPCB address is the part code that closes it behind a
/// slash, and there is one exactly where the address ends so.
pub proof fn law_jlcpcb_code_closes_the_address(s: Seq<char>, code: Seq<char>)
    ensures
        jlcpcb_candidate(s) == Some(code) <==> is_code(code) && ends_with(s, seq!['/'] + code),
{
    let len = s.len() as int;
    if jlcpcb_candidate(s) == Some(code) {
        let n = choose|n: int| code_after_slash(s, n);
        assert(s.subrange(len - n - 1, len) =~= seq!['/'] + code);
    }
    if is_code(code) && ends_with(s, seq!['/'] + code) {
        let n = code.len() as int;
        let tail = s.subrange(len - n - 1, len);
        assert(tail[0] == '/');
        assert(s.subrange(len - n, len) =~= tail.subrange(1, n + 1));
        assert(tail.subrange(1, n + 1) =~= code);
        assert(code_after_slash(s, n));
        lemma_code_after_slash_unique(s, n, choose|m: int| code_after_slash(s, m));
    }
}

/// What is taken from an address for a code is a code: `C` and digits.
pub proof fn law_codes_of_addresses_are_canonical(s: Seq<char>)
    ensures
        match jlcpcb_candidate(s) {
            Some(code) => is_code(code),
            None => true,
        },
        match lcsc_candidate(s) {
            Some(code) => is_code(code),
            None => true,
        },
{
    if let Some(code) = lcsc_candidate(s) {
        let digits = |c: char| is_digit(c);
        let p = choose|p: int| first_code_in_filename(s, p);
        lemma_lead_end_bounds(s, digits, p + 2);
        let end = lead_end(s, digits, p + 2);
        assert(digits(s[p + 2]));
        assert(end >= p + 3);
        assert forall|i: int| 1 <= i < code.len() implies is_digit(#[trigger] code[i]) by {
            assert(digits(s[p + 1 + i]));
        }
    }
}

} // verus!
